//! The hash chain: each state is the SHA-256 digest of the previous state
//! followed by the bytes mixed in at that step.
use sha2::{Digest, Sha256};
use vstd::prelude::*;

verus! {

/// A 256-bit chain state.
pub type ChainState = [u8; 32];

/// The SHA-256 digest of a byte sequence.
pub uninterp spec fn sha256_of(data: Seq<u8>) -> Seq<u8>;

/// One step of the chain: the digest of `state` followed by `input`.
pub open spec fn chain_step(state: Seq<u8>, input: Seq<u8>) -> Seq<u8> {
    sha256_of(state + input)
}

/// The state reached from `seed` after mixing in each of `inputs` in order.
pub open spec fn chain_end(seed: Seq<u8>, inputs: Seq<Seq<u8>>) -> Seq<u8>
    decreases inputs.len(),
{
    if inputs.len() == 0 {
        seed
    } else {
        chain_step(chain_end(seed, inputs.drop_last()), inputs.last())
    }
}

/// Every state of the chain from `seed` over `inputs`: the state after each input.
pub open spec fn chain_states(seed: Seq<u8>, inputs: Seq<Seq<u8>>) -> Seq<Seq<u8>>
    decreases inputs.len(),
{
    if inputs.len() == 0 {
        Seq::empty()
    } else {
        chain_states(seed, inputs.drop_last()).push(chain_end(seed, inputs))
    }
}

/// `n` empty inputs: the inputs of `n` idle hashes.
pub open spec fn idle_inputs(n: nat) -> Seq<Seq<u8>> {
    Seq::new(n, |i: int| Seq::<u8>::empty())
}

/// Running the chain over two input sequences one after the other is running
/// it over their concatenation.
pub proof fn lemma_chain_concat(seed: Seq<u8>, a: Seq<Seq<u8>>, b: Seq<Seq<u8>>)
    ensures
        chain_end(seed, a + b) == chain_end(chain_end(seed, a), b),
        chain_states(seed, a + b) == chain_states(seed, a) + chain_states(chain_end(seed, a), b),
    decreases b.len(),
{
    if b.len() == 0 {
        assert(a + b =~= a);
        assert(chain_states(seed, a) + chain_states(chain_end(seed, a), b) =~= chain_states(seed, a));
    } else {
        lemma_chain_concat(seed, a, b.drop_last());
        assert((a + b).drop_last() =~= a + b.drop_last());
        assert((a + b).last() == b.last());
        assert(chain_states(seed, a + b) =~= chain_states(seed, a) + chain_states(chain_end(seed, a), b));
    }
}

/// The states of the chain over `inputs` are one per input, and the last of
/// them is where the chain ends.
pub proof fn lemma_chain_states_len(seed: Seq<u8>, inputs: Seq<Seq<u8>>)
    ensures
        chain_states(seed, inputs).len() == inputs.len(),
        inputs.len() > 0 ==> chain_states(seed, inputs).last() == chain_end(seed, inputs),
    decreases inputs.len(),
{
    if inputs.len() > 0 {
        lemma_chain_states_len(seed, inputs.drop_last());
    }
}

/// A chain over one input is one step.
pub proof fn lemma_chain_single(seed: Seq<u8>, input: Seq<u8>)
    ensures
        chain_end(seed, seq![input]) == chain_step(seed, input),
        chain_states(seed, seq![input]) == seq![chain_step(seed, input)],
{
    assert(seq![input].drop_last() =~= Seq::<Seq<u8>>::empty());
    assert(seq![input].last() == input);
    assert(chain_end(seed, Seq::<Seq<u8>>::empty()) == seed);
    assert(chain_states(seed, Seq::<Seq<u8>>::empty()) == Seq::<Seq<u8>>::empty());
    assert(chain_states(seed, seq![input]) =~= seq![chain_step(seed, input)]);
}

/// Relies on sha2's `Sha256` (`Digest::new`, `update`, `finalize`): the digest of
/// everything fed to `update`, in order, here `state` then `input`.
#[verifier::external_body]
pub(crate) fn sha256_chained(state: &ChainState, input: &[u8]) -> (r: ChainState)
    ensures
        r@ == sha256_of(state@ + input@),
{
    let mut hasher = Sha256::new();
    hasher.update(state);
    hasher.update(input);
    hasher.finalize().into()
}

/// Mixes `input` into `state`: one step of the chain.
pub fn hash_step(state: &ChainState, input: &[u8]) -> (r: ChainState)
    ensures
        r@ == chain_step(state@, input@),
{
    sha256_chained(state, input)
}

} // verus!

//! What holds of every record of events that a generator has emitted, whatever
//! sequence of messages and timer rounds produced it.
use crate::chain::{
    chain_end, chain_states, chain_step, lemma_chain_concat, lemma_chain_single,
    lemma_chain_states_len,
};
use crate::poh::{
    batch_chained, count_batches, count_messages, count_ticks, event_ok, event_state,
    events_inputs, events_states, state_before, tick_due, PohModel,
};
use vstd::prelude::*;

verus! {

/// Chain continuity: replaying SHA-256(state ‖ input) from the seed over the
/// inputs of every hash operation performed, in order, gives exactly the
/// states recorded in the events, and each event's own state is the replay
/// of every input up to and including its own.
pub proof fn lemma_chain_continuity(m: PohModel)
    requires
        m.wf(),
    ensures
        events_states(m.emitted) == chain_states(m.seed, events_inputs(m.emitted)),
        m.state == chain_end(m.seed, events_inputs(m.emitted)),
        forall|i: int|
            0 <= i < m.emitted.len() ==> (#[trigger] event_state(m.emitted[i]))@ == state_before(
                m.seed,
                m.emitted,
                i + 1,
            ),
{
}

/// Batch completeness: every `Hash` event holds exactly `batch_length` states,
/// each one idle hash beyond the one before it, and the last is the event's state.
pub proof fn lemma_batch_completeness(m: PohModel)
    requires
        m.wf(),
    ensures
        forall|i: int|
            0 <= i < m.emitted.len() && (#[trigger] m.emitted[i]) is Hash ==> {
                let batch = m.emitted[i]->Hash_batch@;
                &&& batch.len() == m.batch_length
                &&& batch_chained(batch)
                &&& batch.last() == m.emitted[i]->Hash_state
            },
{
    assert forall|i: int| 0 <= i < m.emitted.len() && (#[trigger] m.emitted[i]) is Hash implies {
        let batch = m.emitted[i]->Hash_batch@;
        &&& batch.len() == m.batch_length
        &&& batch_chained(batch)
        &&& batch.last() == m.emitted[i]->Hash_state
    } by {
        assert(event_ok(m.emitted.take(i), m.emitted[i], m.batch_length, m.tick_batches));
    }
}

/// Tick cadence: a `Tick` event comes right after every round whose number is a
/// multiple of `tick_batches` and nowhere else, and the ticks count 1, 2, 3, ...
/// with no gap or repeat.
pub proof fn lemma_tick_cadence(m: PohModel)
    requires
        m.wf(),
    ensures
        count_ticks(m.emitted) == count_batches(m.emitted) / m.tick_batches,
        forall|i: int|
            0 <= i < m.emitted.len() && (#[trigger] m.emitted[i]) is Tick ==> {
                &&& i >= 1
                &&& m.emitted[i - 1] is Hash
                &&& count_batches(m.emitted.take(i)) % m.tick_batches == 0
                &&& m.emitted[i]->Tick_tick == count_ticks(m.emitted.take(i)) + 1
            },
        forall|i: int|
            0 <= i < m.emitted.len() && (#[trigger] m.emitted[i]) is Hash && count_batches(
                m.emitted.take(i + 1),
            ) % m.tick_batches == 0 ==> i + 1 < m.emitted.len() && m.emitted[i + 1] is Tick,
{
    let es = m.emitted;
    assert forall|i: int| 0 <= i < es.len() && (#[trigger] es[i]) is Tick implies {
        &&& i >= 1
        &&& es[i - 1] is Hash
        &&& count_batches(es.take(i)) % m.tick_batches == 0
        &&& es[i]->Tick_tick == count_ticks(es.take(i)) + 1
    } by {
        assert(event_ok(es.take(i), es[i], m.batch_length, m.tick_batches));
        assert(es.take(i).last() == es[i - 1]);
    }
    assert forall|i: int|
        0 <= i < es.len() && (#[trigger] es[i]) is Hash && count_batches(es.take(i + 1))
            % m.tick_batches == 0 implies i + 1 < es.len() && es[i + 1] is Tick by {
        assert(es.take(i + 1).last() == es[i]);
        assert(tick_due(es.take(i + 1), m.tick_batches));
        if i + 1 == es.len() {
            assert(es.take(i + 1) =~= es);
        } else {
            assert(event_ok(es.take(i + 1), es[i + 1], m.batch_length, m.tick_batches));
        }
    }
}

/// Tick distinctness: a `Tick` event's state is one idle hash beyond the state
/// of the `Hash` event right before it.
pub proof fn lemma_tick_follows_batch(m: PohModel)
    requires
        m.wf(),
    ensures
        forall|i: int|
            0 <= i < m.emitted.len() && (#[trigger] m.emitted[i]) is Tick ==> i >= 1
                && m.emitted[i - 1] is Hash && event_state(m.emitted[i])@ == chain_step(
                event_state(m.emitted[i - 1])@,
                Seq::empty(),
            ),
{
    let es = m.emitted;
    assert forall|i: int| 0 <= i < es.len() && (#[trigger] es[i]) is Tick implies i >= 1
        && es[i - 1] is Hash && event_state(es[i])@ == chain_step(
        event_state(es[i - 1])@,
        Seq::empty(),
    ) by {
        assert(event_ok(es.take(i), es[i], m.batch_length, m.tick_batches));
        assert(es.take(i).last() == es[i - 1]);
    }
}

/// Message immediacy: the hash operation behind a `Message` event mixes that
/// message into the state the chain was in just before it.
pub proof fn lemma_message_immediacy(m: PohModel)
    requires
        m.wf(),
    ensures
        forall|i: int|
            0 <= i < m.emitted.len() && (#[trigger] m.emitted[i]) is Message ==> event_state(
                m.emitted[i],
            )@ == chain_step(
                state_before(m.seed, m.emitted, i),
                m.emitted[i]->Message_message@,
            ),
{
    let es = m.emitted;
    assert forall|i: int| 0 <= i < es.len() && (#[trigger] es[i]) is Message implies event_state(
        es[i],
    )@ == chain_step(state_before(m.seed, es, i), es[i]->Message_message@) by {
        let msg = es[i]->Message_message@;
        let before = events_inputs(es.take(i));
        assert(es.take(i + 1).drop_last() =~= es.take(i));
        assert(es.take(i + 1).last() == es[i]);
        assert(events_inputs(es.take(i + 1)) == before + seq![msg]);
        lemma_chain_concat(m.seed, before, seq![msg]);
        lemma_chain_single(chain_end(m.seed, before), msg);
        assert(event_state(es[i])@ == state_before(m.seed, es, i + 1));
    }
}

/// No lost operations: the hash operations performed are the idle hashes of all
/// rounds, the messages and the extra tick hashes, and each one has exactly one
/// recorded state.
pub proof fn lemma_no_lost_operations(m: PohModel)
    requires
        m.wf(),
    ensures
        events_inputs(m.emitted).len() == m.batch_length * count_batches(m.emitted)
            + count_messages(m.emitted) + count_ticks(m.emitted),
        events_states(m.emitted).len() == events_inputs(m.emitted).len(),
{
    lemma_chain_states_len(m.seed, events_inputs(m.emitted));
}

} // verus!

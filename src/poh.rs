//! The Proof-of-History generator: a state machine over the hash chain that
//! mixes in messages at once, hashes idly on each timer round and marks ticks.
use crate::chain::{
    chain_end, chain_states, chain_step, hash_step, idle_inputs, lemma_chain_concat,
    lemma_chain_single, ChainState,
};
use vstd::arithmetic::div_mod::{lemma_fundamental_div_mod, lemma_fundamental_div_mod_converse};
use vstd::prelude::*;

verus! {

/// Wall-clock time between two rounds of idle hashing, in milliseconds.
pub const HASH_BATCH_PERIOD_MS: u64 = 100;

/// Number of idle hashes per round.
pub const HASH_BATCH_LENGTH: usize = 100;

/// Number of rounds between two subsequent ticks.
pub const TICK_HASH_BATCHES: u64 = 10;

/// An event emitted by the generator.
#[derive(Debug)]
pub enum Event {
    /// A round of idle hashes: every state of the round, in order; `state` is the last.
    Hash { state: ChainState, batch: Vec<ChainState> },
    /// A message mixed into the chain; `state` is the state after it.
    Message { state: ChainState, message: Vec<u8> },
    /// A tick: one more idle hash after a round; `tick` is the new tick count.
    Tick { state: ChainState, tick: u64 },
}

/// What the generator reacts to.
#[derive(Debug)]
pub enum Input {
    /// A message arrived.
    Message(Vec<u8>),
    /// The round timer elapsed.
    Timer,
    /// The message source closed.
    Closed,
}

/// What the generator asks its driver to do after an input.
#[derive(Debug)]
pub enum Action {
    /// Deliver these events, in order, then wait for the next input.
    Emit(Vec<Event>),
    /// Stop: the run is over.
    Stop,
}

/// The inputs mixed into the chain by the hash operations behind one event.
pub open spec fn event_inputs(e: Event) -> Seq<Seq<u8>> {
    match e {
        Event::Hash { batch, .. } => idle_inputs(batch@.len()),
        Event::Message { message, .. } => seq![message@],
        Event::Tick { .. } => seq![Seq::<u8>::empty()],
    }
}

/// The chain states that one event records, one per hash operation behind it.
pub open spec fn event_states(e: Event) -> Seq<Seq<u8>> {
    match e {
        Event::Hash { batch, .. } => batch@.map_values(|h: ChainState| h@),
        Event::Message { state, .. } => seq![state@],
        Event::Tick { state, .. } => seq![state@],
    }
}

/// The chain state that an event carries.
pub open spec fn event_state(e: Event) -> ChainState {
    match e {
        Event::Hash { state, .. } => state,
        Event::Message { state, .. } => state,
        Event::Tick { state, .. } => state,
    }
}

/// The chain state reached from `seed` just before the `i`-th event of `es`.
pub open spec fn state_before(seed: Seq<u8>, es: Seq<Event>, i: int) -> Seq<u8> {
    chain_end(seed, events_inputs(es.take(i)))
}

/// The inputs of all hash operations behind a sequence of events, in order.
pub open spec fn events_inputs(es: Seq<Event>) -> Seq<Seq<u8>>
    decreases es.len(),
{
    if es.len() == 0 {
        Seq::empty()
    } else {
        events_inputs(es.drop_last()) + event_inputs(es.last())
    }
}

/// All chain states recorded by a sequence of events, in order.
pub open spec fn events_states(es: Seq<Event>) -> Seq<Seq<u8>>
    decreases es.len(),
{
    if es.len() == 0 {
        Seq::empty()
    } else {
        events_states(es.drop_last()) + event_states(es.last())
    }
}

/// Number of `Hash` events.
pub open spec fn count_batches(es: Seq<Event>) -> nat
    decreases es.len(),
{
    if es.len() == 0 {
        0
    } else {
        count_batches(es.drop_last()) + if es.last() is Hash { 1nat } else { 0nat }
    }
}

/// Number of `Message` events.
pub open spec fn count_messages(es: Seq<Event>) -> nat
    decreases es.len(),
{
    if es.len() == 0 {
        0
    } else {
        count_messages(es.drop_last()) + if es.last() is Message { 1nat } else { 0nat }
    }
}

/// Number of `Tick` events.
pub open spec fn count_ticks(es: Seq<Event>) -> nat
    decreases es.len(),
{
    if es.len() == 0 {
        0
    } else {
        count_ticks(es.drop_last()) + if es.last() is Tick { 1nat } else { 0nat }
    }
}

/// A tick is owed: the last event is the `Hash` event of a round whose number is
/// a multiple of `tick_batches`.
pub open spec fn tick_due(es: Seq<Event>, tick_batches: nat) -> bool {
    &&& es.len() > 0
    &&& es.last() is Hash
    &&& (count_batches(es) as int) % (tick_batches as int) == 0
}

/// Each entry of a batch is one idle hash beyond the one before it.
pub open spec fn batch_chained(batch: Seq<ChainState>) -> bool {
    forall|j: int| 0 <= j < batch.len() - 1 ==> #[trigger] batch[j + 1]@ == chain_step(
        batch[j]@,
        Seq::empty(),
    )
}

/// What an event may be, given the events emitted before it.
pub open spec fn event_ok(before: Seq<Event>, e: Event, batch_length: nat, tick_batches: nat) -> bool {
    match e {
        Event::Hash { state, batch } => {
            &&& batch@.len() == batch_length
            &&& batch@.len() > 0 && batch@.last() == state
            &&& batch_chained(batch@)
            &&& !tick_due(before, tick_batches)
        },
        Event::Message { .. } => !tick_due(before, tick_batches),
        Event::Tick { state, tick } => {
            &&& tick_due(before, tick_batches)
            &&& state@ == chain_step(before.last()->Hash_state@, Seq::empty())
            &&& tick == count_ticks(before) + 1
        },
    }
}

/// Every event is what it may be given the events before it.
pub open spec fn log_ok(es: Seq<Event>, batch_length: nat, tick_batches: nat) -> bool {
    forall|i: int| 0 <= i < es.len() ==> event_ok(es.take(i), #[trigger] es[i], batch_length, tick_batches)
}

/// The abstract state of a generator.
pub struct PohModel {
    /// The current chain state.
    pub state: Seq<u8>,
    /// Ticks emitted so far.
    pub tick: nat,
    /// Rounds of idle hashing done so far.
    pub batches: nat,
    /// Idle hashes per round.
    pub batch_length: nat,
    /// Rounds per tick.
    pub tick_batches: nat,
    /// The state the chain started from.
    pub seed: Seq<u8>,
    /// Every event emitted so far, in order.
    pub emitted: Seq<Event>,
}

impl PohModel {
    /// The invariant of a generator: the chain and the record of events agree.
    pub open spec fn wf(self) -> bool {
        &&& self.batch_length >= 1
        &&& self.tick_batches >= 1
        &&& self.state == chain_end(self.seed, events_inputs(self.emitted))
        &&& record_ok(self.seed, self.emitted, self.batch_length, self.tick_batches)
        &&& !tick_due(self.emitted, self.tick_batches)
        &&& count_batches(self.emitted) == self.batches
        &&& count_ticks(self.emitted) == self.tick
        &&& self.tick == self.batches / self.tick_batches
    }
}

/// The events of one timer round run from `pre`, and the generator `post` it
/// leaves: a `Hash` event with the `batch_length` states of the round's idle
/// hashes; then, when the round's number is a multiple of `tick_batches`, a
/// `Tick` event one idle hash further on, carrying the new tick count.
pub open spec fn timer_round(pre: PohModel, events: Seq<Event>, post: PohModel) -> bool {
    let due = (pre.batches + 1) % pre.tick_batches == 0;
    &&& events.len() == if due { 2int } else { 1int }
    &&& events[0] matches Event::Hash { state, batch } && batch@.len() == pre.batch_length
        && event_states(events[0]) == chain_states(pre.state, idle_inputs(pre.batch_length))
        && state == batch@.last()
    &&& !due ==> post.state == events[0]->Hash_state@ && post.tick == pre.tick
    &&& due ==> (events[1] matches Event::Tick { state, tick } && state@ == chain_step(
        events[0]->Hash_state@,
        Seq::empty(),
    ) && tick == pre.tick + 1 && post.state == state@ && post.tick == pre.tick + 1)
    &&& post.batches == pre.batches + 1
    &&& post.batch_length == pre.batch_length
    &&& post.tick_batches == pre.tick_batches
    &&& post.seed == pre.seed
    &&& post.emitted == pre.emitted + events
}

/// Proof-of-History service.
pub struct PohService {
    state: ChainState,
    tick: u64,
    batches: u64,
    batch_length: usize,
    tick_batches: u64,
    seed: Ghost<Seq<u8>>,
    emitted: Ghost<Seq<Event>>,
}

impl View for PohService {
    type V = PohModel;

    closed spec fn view(&self) -> PohModel {
        PohModel {
            state: self.state@,
            tick: self.tick as nat,
            batches: self.batches as nat,
            batch_length: self.batch_length as nat,
            tick_batches: self.tick_batches as nat,
            seed: self.seed@,
            emitted: self.emitted@,
        }
    }
}

/// The record of events is consistent: it replays to the chain from `seed`,
/// each event is what it may be, and every hash operation is accounted for.
pub open spec fn record_ok(seed: Seq<u8>, es: Seq<Event>, batch_length: nat, tick_batches: nat) -> bool {
    &&& events_states(es) == chain_states(seed, events_inputs(es))
    &&& forall|i: int|
        0 <= i < es.len() ==> (#[trigger] event_state(es[i]))@ == state_before(seed, es, i + 1)
    &&& log_ok(es, batch_length, tick_batches)
    &&& events_inputs(es).len() == batch_length * count_batches(es) + count_messages(es)
        + count_ticks(es)
}

proof fn lemma_log_push(es: Seq<Event>, e: Event, bl: nat, tb: nat)
    requires
        log_ok(es, bl, tb),
        event_ok(es, e, bl, tb),
    ensures
        log_ok(es.push(e), bl, tb),
{
    assert forall|i: int| 0 <= i < es.push(e).len() implies event_ok(
        es.push(e).take(i),
        #[trigger] es.push(e)[i],
        bl,
        tb,
    ) by {
        if i < es.len() {
            assert(es.push(e).take(i) =~= es.take(i));
            assert(es.push(e)[i] == es[i]);
        } else {
            assert(es.push(e).take(i) =~= es);
        }
    }
}

/// Emitting an event that records the next hash operations keeps the record consistent.
proof fn lemma_emit(seed: Seq<u8>, es: Seq<Event>, e: Event, bl: nat, tb: nat)
    requires
        record_ok(seed, es, bl, tb),
        event_ok(es, e, bl, tb),
        event_states(e) == chain_states(chain_end(seed, events_inputs(es)), event_inputs(e)),
        event_state(e)@ == chain_end(chain_end(seed, events_inputs(es)), event_inputs(e)),
    ensures
        record_ok(seed, es.push(e), bl, tb),
        chain_end(seed, events_inputs(es.push(e))) == chain_end(
            chain_end(seed, events_inputs(es)),
            event_inputs(e),
        ),
        events_inputs(es.push(e)) == events_inputs(es) + event_inputs(e),
        count_batches(es.push(e)) == count_batches(es) + if e is Hash { 1nat } else { 0nat },
        count_messages(es.push(e)) == count_messages(es) + if e is Message { 1nat } else { 0nat },
        count_ticks(es.push(e)) == count_ticks(es) + if e is Tick { 1nat } else { 0nat },
{
    assert(es.push(e).drop_last() =~= es);
    assert(es.push(e).last() == e);
    lemma_log_push(es, e, bl, tb);
    assert(es.push(e).take(es.len() + 1int) =~= es.push(e));
    assert forall|i: int| 0 <= i < es.len() implies (#[trigger] event_state(es.push(e)[i]))@
        == state_before(seed, es.push(e), i + 1) by {
        assert(es.push(e)[i] == es[i]);
        assert(es.push(e).take(i + 1) =~= es.take(i + 1));
        assert(event_state(es[i])@ == state_before(seed, es, i + 1));
    }
    lemma_chain_concat(seed, events_inputs(es), event_inputs(e));
    let cb = count_batches(es);
    assert(bl * (cb + 1) == bl * cb + bl) by (nonlinear_arith);
}

/// Counting one more round: the tick count `b / d` grows by one exactly when
/// the new round number is a multiple of `d`.
proof fn lemma_round_count(b: int, d: int)
    requires
        b >= 0,
        d >= 1,
    ensures
        (b + 1) % d == 0 ==> (b + 1) / d == b / d + 1,
        (b + 1) % d != 0 ==> (b + 1) / d == b / d,
        b / d <= b,
{
    let q = b / d;
    let r = b % d;
    lemma_fundamental_div_mod(b, d);
    assert(0 <= r < d);
    if r + 1 < d {
        lemma_fundamental_div_mod_converse(b + 1, d, q, r + 1);
    } else {
        assert(b + 1 == (q + 1) * d + 0) by (nonlinear_arith)
            requires
                b == d * q + r,
                r + 1 == d,
        ;
        lemma_fundamental_div_mod_converse(b + 1, d, q + 1, 0);
    }
    assert(q <= b) by (nonlinear_arith)
        requires
            b == d * q + r,
            0 <= r,
            d >= 1,
            q >= 0,
    ;
}

impl PohService {
    /// Creates a generator that starts from `state`, with the reference
    /// configuration: `HASH_BATCH_LENGTH` idle hashes per round, a tick every
    /// `TICK_HASH_BATCHES` rounds.
    pub fn new(state: ChainState) -> (r: Self)
        ensures
            r@ == (PohModel {
                state: state@,
                tick: 0,
                batches: 0,
                batch_length: HASH_BATCH_LENGTH as nat,
                tick_batches: TICK_HASH_BATCHES as nat,
                seed: state@,
                emitted: Seq::empty(),
            }),
            r@.wf(),
    {
        PohService {
            state,
            tick: 0,
            batches: 0,
            batch_length: HASH_BATCH_LENGTH,
            tick_batches: TICK_HASH_BATCHES,
            seed: Ghost(state@),
            emitted: Ghost(Seq::empty()),
        }
    }

    /// Creates a generator that starts from `state`, with `batch_length` idle
    /// hashes per round and a tick every `tick_batches` rounds; `None` when
    /// either is zero.
    pub fn with_config(state: ChainState, batch_length: usize, tick_batches: u64) -> (r: Option<Self>)
        ensures
            (batch_length == 0 || tick_batches == 0) <==> r is None,
            r matches Some(s) ==> s@ == (PohModel {
                state: state@,
                tick: 0,
                batches: 0,
                batch_length: batch_length as nat,
                tick_batches: tick_batches as nat,
                seed: state@,
                emitted: Seq::empty(),
            }) && s@.wf(),
    {
        if batch_length == 0 || tick_batches == 0 {
            None
        } else {
            assert((batch_length as nat) * 0 == 0) by (nonlinear_arith);
            assert(0nat / (tick_batches as nat) == 0) by (nonlinear_arith)
                requires
                    tick_batches >= 1,
            ;
            Some(
                PohService {
                    state,
                    tick: 0,
                    batches: 0,
                    batch_length,
                    tick_batches,
                    seed: Ghost(state@),
                    emitted: Ghost(Seq::empty()),
                },
            )
        }
    }

    /// The current chain state.
    pub fn state(&self) -> (r: ChainState)
        ensures
            r@ == self@.state,
    {
        self.state
    }

    /// The number of ticks emitted so far.
    pub fn tick(&self) -> (r: u64)
        ensures
            r as nat == self@.tick,
    {
        self.tick
    }

    /// The number of timer rounds run so far.
    pub fn batches(&self) -> (r: u64)
        ensures
            r as nat == self@.batches,
    {
        self.batches
    }

    /// Mixes `message` into the chain at once and returns its `Message` event.
    pub fn on_message(&mut self, message: Vec<u8>) -> (e: Event)
        requires
            old(self)@.wf(),
        ensures
            final(self)@.wf(),
            e matches Event::Message { state, message: m } && m@ == message@ && state@
                == chain_step(old(self)@.state, message@),
            final(self)@.state == chain_step(old(self)@.state, message@),
            final(self)@.emitted == old(self)@.emitted.push(e),
            final(self)@.tick == old(self)@.tick,
            final(self)@.batches == old(self)@.batches,
            final(self)@.batch_length == old(self)@.batch_length,
            final(self)@.tick_batches == old(self)@.tick_batches,
            final(self)@.seed == old(self)@.seed,
    {
        let state = hash_step(&self.state, message.as_slice());
        let e = Event::Message { state, message };
        proof {
            lemma_chain_single(self.state@, e->Message_message@);
            lemma_emit(self.seed@, self.emitted@, e, self@.batch_length, self@.tick_batches);
        }
        self.state = state;
        self.emitted = Ghost(self.emitted@.push(e));
        e
    }
    /// Runs one round: `batch_length` idle hashes, recorded in a `Hash` event;
    /// when the round's number is a multiple of `tick_batches`, one more idle
    /// hash and a `Tick` event carrying the new tick count follow it.
    pub fn on_timer(&mut self) -> (events: Vec<Event>)
        requires
            old(self)@.wf(),
            old(self)@.batches < u64::MAX,
        ensures
            final(self)@.wf(),
            timer_round(old(self)@, events@, final(self)@),
    {
        let ghost start = self.state@;
        let empty: Vec<u8> = Vec::new();
        let mut state: ChainState = self.state;
        let mut batch: Vec<ChainState> = Vec::new();
        let mut i: usize = 0;
        proof {
            assert(idle_inputs(0) =~= Seq::<Seq<u8>>::empty());
            assert(batch@.map_values(|h: ChainState| h@) =~= Seq::<Seq<u8>>::empty());
        }
        while i < self.batch_length
            invariant
                *self == *old(self),
                i <= self.batch_length,
                batch@.len() == i,
                empty@ == Seq::<u8>::empty(),
                state@ == chain_end(start, idle_inputs(i as nat)),
                batch@.map_values(|h: ChainState| h@) == chain_states(start, idle_inputs(i as nat)),
                batch_chained(batch@),
                i > 0 ==> batch@.last() == state,
            decreases self.batch_length - i,
        {
            let ghost prev = batch@;
            let next = hash_step(&state, empty.as_slice());
            proof {
                assert(idle_inputs((i + 1) as nat).drop_last() =~= idle_inputs(i as nat));
                assert(idle_inputs((i + 1) as nat).last() == Seq::<u8>::empty());
                if i > 0 {
                    assert(prev.push(next)[i - 1] == state);
                }
            }
            state = next;
            batch.push(state);
            proof {
                assert(batch@.map_values(|h: ChainState| h@) =~= prev.map_values(
                    |h: ChainState| h@,
                ).push(state@));
                assert(batch_chained(batch@)) by {
                    assert forall|j: int| 0 <= j < batch@.len() - 1 implies #[trigger] batch@[j
                        + 1]@ == chain_step(batch@[j]@, Seq::empty()) by {
                        if j + 1 < i {
                            assert(batch@[j + 1] == prev[j + 1]);
                            assert(batch@[j] == prev[j]);
                        }
                    }
                }
            }
            i = i + 1;
        }
        let ghost bl = self@.batch_length;
        let ghost tb = self@.tick_batches;
        let ghost pre = self.emitted@;
        let e = Event::Hash { state, batch };
        let ghost e0 = e;
        proof {
            lemma_emit(self.seed@, pre, e, bl, tb);
            lemma_round_count(self.batches as int, tb as int);
        }
        self.emitted = Ghost(pre.push(e));
        self.state = state;
        self.batches = self.batches + 1;
        let mut events: Vec<Event> = Vec::new();
        events.push(e);
        if self.batches % self.tick_batches == 0 {
            let tick_state = hash_step(&self.state, empty.as_slice());
            self.tick = self.tick + 1;
            let t = Event::Tick { state: tick_state, tick: self.tick };
            proof {
                lemma_chain_single(state@, Seq::empty());
                lemma_emit(self.seed@, pre.push(e0), t, bl, tb);
            }
            self.emitted = Ghost(self.emitted@.push(t));
            self.state = tick_state;
            events.push(t);
        }
        proof {
            assert(self.emitted@ =~= old(self)@.emitted + events@);
        }
        events
    }

    /// Reacts to one input: a message is mixed in at once, a timer round is
    /// run, and a closed source ends the run with nothing emitted.
    pub fn step(&mut self, input: Input) -> (action: Action)
        requires
            old(self)@.wf(),
            input is Timer ==> old(self)@.batches < u64::MAX,
        ensures
            final(self)@.wf(),
            final(self)@.batch_length == old(self)@.batch_length,
            final(self)@.tick_batches == old(self)@.tick_batches,
            final(self)@.seed == old(self)@.seed,
            input is Closed <==> action is Stop,
            action is Stop ==> final(self)@ == old(self)@,
            action matches Action::Emit(events) ==> final(self)@.emitted == old(self)@.emitted
                + events@,
            input matches Input::Message(m) ==> (action matches Action::Emit(events)
                && events@.len() == 1 && (events@[0] matches Event::Message { state, message }
                && message@ == m@ && state@ == chain_step(old(self)@.state, m@))
                && final(self)@.state == chain_step(old(self)@.state, m@)
                && final(self)@.tick == old(self)@.tick),
            input is Timer ==> (action matches Action::Emit(events) && timer_round(
                old(self)@,
                events@,
                final(self)@,
            )),
            !(input is Timer) ==> final(self)@.batches == old(self)@.batches,
    {
        match input {
            Input::Message(message) => {
                let e = self.on_message(message);
                let mut events: Vec<Event> = Vec::new();
                events.push(e);
                Action::Emit(events)
            },
            Input::Timer => Action::Emit(self.on_timer()),
            Input::Closed => Action::Stop,
        }
    }
}

} // verus!

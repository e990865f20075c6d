use poh::chain::{hash_step, ChainState};
use poh::poh::{Action, Event, Input, PohService, HASH_BATCH_LENGTH, TICK_HASH_BATCHES};
use sha2::{Digest, Sha256};

const ZERO: ChainState = [0u8; 32];

fn sha(state: &ChainState, input: &[u8]) -> ChainState {
    let mut hasher = Sha256::new();
    hasher.update(state);
    hasher.update(input);
    hasher.finalize().into()
}

fn emitted(action: Action) -> Vec<Event> {
    match action {
        Action::Emit(events) => events,
        Action::Stop => panic!("unexpected stop"),
    }
}

fn event_state(e: &Event) -> ChainState {
    match e {
        Event::Hash { state, .. } => *state,
        Event::Message { state, .. } => *state,
        Event::Tick { state, .. } => *state,
    }
}

#[test]
fn hash_step_of_zero_state_and_empty_input() {
    let r = hash_step(&ZERO, &[]);
    assert_eq!(
        hex::encode(r),
        "66687aadf862bd776c8fc18b8e9f8e20089714856ee233b3902a591d0d5f2925"
    );
}

#[test]
fn hash_step_mixes_in_the_input() {
    let r = hash_step(&ZERO, &[0x01]);
    assert_eq!(
        hex::encode(r),
        "1fd4247443c9440cb3c48c28851937196bc156032d70a96c98e127ecb347e45f"
    );
    assert_ne!(r, hash_step(&ZERO, &[]));
}

#[test]
fn new_starts_at_seed_with_no_ticks() {
    let seed = [7u8; 32];
    let s = PohService::new(seed);
    assert_eq!(s.state(), seed);
    assert_eq!(s.tick(), 0);
}

#[test]
fn with_config_rejects_zero_parameters() {
    assert!(PohService::with_config(ZERO, 0, 2).is_none());
    assert!(PohService::with_config(ZERO, 2, 0).is_none());
    assert!(PohService::with_config(ZERO, 0, 0).is_none());
    assert!(PohService::with_config(ZERO, 1, 1).is_some());
}

#[test]
fn two_rounds_then_first_tick() {
    let mut s = PohService::with_config(ZERO, 2, 2).unwrap();
    let first = emitted(s.step(Input::Timer));
    assert_eq!(first.len(), 1);
    match &first[0] {
        Event::Hash { state, batch } => {
            assert_eq!(batch.len(), 2);
            assert_eq!(
                hex::encode(batch[0]),
                "66687aadf862bd776c8fc18b8e9f8e20089714856ee233b3902a591d0d5f2925"
            );
            assert_eq!(
                hex::encode(batch[1]),
                "2b32db6c2c0a6235fb1397e8225ea85e0f0e6e8c7b126d0016ccbde0e667151e"
            );
            assert_eq!(*state, batch[1]);
        }
        other => panic!("expected a hash batch, got {:?}", other),
    }
    let second = emitted(s.step(Input::Timer));
    assert_eq!(second.len(), 2);
    match &second[0] {
        Event::Hash { state, batch } => {
            assert_eq!(batch.len(), 2);
            assert_eq!(
                hex::encode(batch[0]),
                "12771355e46cd47c71ed1721fd5319b383cca3a1f9fce3aa1c8cd3bd37af20d7"
            );
            assert_eq!(
                hex::encode(*state),
                "fe15c0d3ebe314fad720a08b839a004c2e6386f5aecc19ec74807d1920cb6aeb"
            );
        }
        other => panic!("expected a hash batch, got {:?}", other),
    }
    match &second[1] {
        Event::Tick { state, tick } => {
            assert_eq!(*tick, 1);
            assert_eq!(
                hex::encode(*state),
                "376da11fe3ab3d0eaaddb418ccb49b5426d5c2504f526f7766580f6e45984e3b"
            );
        }
        other => panic!("expected a tick, got {:?}", other),
    }
    assert_eq!(s.tick(), 1);
}

#[test]
fn message_before_any_round() {
    let mut s = PohService::new(ZERO);
    let events = emitted(s.step(Input::Message(vec![0x01])));
    assert_eq!(events.len(), 1);
    match &events[0] {
        Event::Message { state, message } => {
            assert_eq!(message, &vec![0x01]);
            assert_eq!(*state, sha(&ZERO, &[0x01]));
            assert_eq!(
                hex::encode(*state),
                "1fd4247443c9440cb3c48c28851937196bc156032d70a96c98e127ecb347e45f"
            );
        }
        other => panic!("expected a message, got {:?}", other),
    }
    assert_eq!(s.state(), sha(&ZERO, &[0x01]));
}

#[test]
fn closed_source_stops_with_nothing_emitted() {
    let mut s = PohService::new(ZERO);
    assert!(matches!(s.step(Input::Closed), Action::Stop));
    assert_eq!(s.state(), ZERO);
    assert_eq!(s.tick(), 0);
}

#[test]
fn empty_message_is_still_one_hash() {
    let mut s = PohService::new(ZERO);
    let e = s.on_message(Vec::new());
    assert_eq!(event_state(&e), sha(&ZERO, &[]));
}

#[test]
fn replaying_inputs_reproduces_every_state() {
    let seed = [3u8; 32];
    let mut s = PohService::with_config(seed, 3, 2).unwrap();
    let inputs = vec![
        Input::Message(vec![1, 2, 3]),
        Input::Timer,
        Input::Message(vec![]),
        Input::Timer,
        Input::Message(vec![9; 40]),
        Input::Timer,
    ];
    let mut all: Vec<Event> = Vec::new();
    for input in inputs {
        all.extend(emitted(s.step(input)));
    }
    let mut replay = seed;
    for e in &all {
        match e {
            Event::Hash { state, batch } => {
                for h in batch {
                    replay = sha(&replay, &[]);
                    assert_eq!(*h, replay);
                }
                assert_eq!(*state, replay);
            }
            Event::Message { state, message } => {
                replay = sha(&replay, message);
                assert_eq!(*state, replay);
            }
            Event::Tick { state, .. } => {
                replay = sha(&replay, &[]);
                assert_eq!(*state, replay);
            }
        }
    }
    assert_eq!(s.state(), replay);
}

#[test]
fn default_batches_are_complete_and_chained() {
    let mut s = PohService::new(ZERO);
    let events = s.on_timer();
    assert_eq!(events.len(), 1);
    match &events[0] {
        Event::Hash { state, batch } => {
            assert_eq!(batch.len(), HASH_BATCH_LENGTH);
            assert_eq!(batch[0], sha(&ZERO, &[]));
            for i in 0..batch.len() - 1 {
                assert_eq!(batch[i + 1], sha(&batch[i], &[]));
            }
            assert_eq!(batch[HASH_BATCH_LENGTH - 1], *state);
        }
        other => panic!("expected a hash batch, got {:?}", other),
    }
}

#[test]
fn ticks_follow_every_nth_round_and_count_up() {
    let mut s = PohService::with_config(ZERO, 1, 3).unwrap();
    let mut ticks: Vec<u64> = Vec::new();
    for round in 1..=7u64 {
        let events = s.on_timer();
        assert!(matches!(events[0], Event::Hash { .. }));
        if round % 3 == 0 {
            assert_eq!(events.len(), 2);
            match &events[1] {
                Event::Tick { tick, .. } => ticks.push(*tick),
                other => panic!("expected a tick, got {:?}", other),
            }
        } else {
            assert_eq!(events.len(), 1);
        }
    }
    assert_eq!(ticks, vec![1, 2]);
    assert_eq!(s.tick(), 2);
}

#[test]
fn default_tick_after_ten_rounds() {
    let mut s = PohService::new(ZERO);
    for _ in 1..TICK_HASH_BATCHES {
        assert_eq!(s.on_timer().len(), 1);
    }
    let events = s.on_timer();
    assert_eq!(events.len(), 2);
    assert!(matches!(events[1], Event::Tick { tick: 1, .. }));
}

#[test]
fn tick_state_is_one_hash_beyond_the_batch() {
    let mut s = PohService::with_config(ZERO, 2, 1).unwrap();
    let events = s.on_timer();
    assert_eq!(events.len(), 2);
    let batch_state = event_state(&events[0]);
    let tick_state = event_state(&events[1]);
    assert_eq!(tick_state, sha(&batch_state, &[]));
    assert_ne!(tick_state, batch_state);
    assert_eq!(s.state(), tick_state);
}

#[test]
fn message_between_rounds_uses_current_state() {
    let mut s = PohService::with_config(ZERO, 2, 5).unwrap();
    let round = s.on_timer();
    let before = event_state(&round[0]);
    let e = s.on_message(vec![0xab, 0xcd]);
    assert_eq!(event_state(&e), sha(&before, &[0xab, 0xcd]));
    assert_ne!(event_state(&e), sha(&before, &[]));
}

#[test]
fn operation_count_matches_events() {
    let mut s = PohService::with_config(ZERO, 4, 2).unwrap();
    let mut all: Vec<Event> = Vec::new();
    for i in 0..5u8 {
        all.extend(emitted(s.step(Input::Timer)));
        all.extend(emitted(s.step(Input::Message(vec![i]))));
    }
    let mut recorded = 0usize;
    let (mut batches, mut messages, mut ticks) = (0usize, 0usize, 0usize);
    for e in &all {
        match e {
            Event::Hash { batch, .. } => {
                batches += 1;
                recorded += batch.len();
            }
            Event::Message { .. } => {
                messages += 1;
                recorded += 1;
            }
            Event::Tick { .. } => {
                ticks += 1;
                recorded += 1;
            }
        }
    }
    assert_eq!((batches, messages, ticks), (5, 5, 2));
    assert_eq!(recorded, 4 * batches + messages + ticks);
}

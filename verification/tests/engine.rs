use call_trace::account::AccountState;
use call_trace::diff::StateDiff;
use call_trace::engine::{Action, CallTraceManager, TraceCommand, TraceOutcome};
use call_trace::primitives::{Address, Word};

type Engine = CallTraceManager<&'static str, u32>;

fn w(value: u128) -> Word {
    Word::from_u128(value)
}

fn touch(balance: Option<u128>, storage: Vec<(u128, u128)>) -> AccountState {
    AccountState {
        balance: balance.map(w),
        nonce: None,
        code: None,
        storage: storage.into_iter().map(|(k, v)| (w(k), w(v))).collect(),
    }
}

fn submit(engine: &mut Engine, transaction: &'static str, block: u64) -> Action<&'static str, u32> {
    engine.handle_new_trace_command(TraceCommand::AddTrace { transaction, block })
}

fn fetch(engine: &mut Engine, block: u64, res: u32) -> Action<&'static str, u32> {
    engine.handle_new_trace_command(TraceCommand::FetchAccumulatedDiffs { block, res })
}

fn expect_simulate(action: Action<&'static str, u32>, transaction: &str, block: u64) -> StateDiff {
    match action {
        Action::Simulate { transaction: t, block: b, overrides } => {
            assert_eq!(t, transaction);
            assert_eq!(b, block);
            overrides
        }
        _ => panic!("a simulation should have been started"),
    }
}

fn expect_deliver(action: Action<&'static str, u32>, waiter: u32) -> Option<StateDiff> {
    match action {
        Action::Deliver { waiter: w, diff } => {
            assert_eq!(w, waiter);
            diff
        }
        _ => panic!("a caller should have been answered"),
    }
}

fn expect_nothing(action: Action<&'static str, u32>) {
    assert!(matches!(action, Action::Nothing));
}

#[test]
fn fetch_without_submission_is_empty() {
    let mut engine = Engine::new();
    assert_eq!(engine.in_flight(), None);
    assert!(expect_deliver(fetch(&mut engine, 3, 1), 1).is_none());
    assert!(expect_deliver(fetch(&mut engine, 3, 2), 2).is_none());
    assert_eq!(engine.in_flight(), None);
    assert_eq!(engine.queued(3), 0);
}

#[test]
fn two_transactions_for_one_block_are_chained() {
    let x = Address::new(0xdead, 0xbeef);
    let mut engine = Engine::new();

    let first = expect_simulate(submit(&mut engine, "A", 10), "A", 10);
    assert!(first.is_empty());
    assert_eq!(engine.in_flight(), Some(10));

    expect_nothing(submit(&mut engine, "B", 10));
    assert_eq!(engine.queued(10), 1);

    let action = engine.handle_trace_result(10, TraceOutcome::Accounts(vec![(x, touch(Some(100), vec![]))]));
    let second = expect_simulate(action, "B", 10);
    assert_eq!(second.len(), 1);
    assert_eq!(second.get(&x).unwrap().balance, Some(w(100)));
    assert_eq!(second.get(&x).unwrap().storage.len(), 0);
    assert_eq!(engine.in_flight(), Some(10));
    assert_eq!(engine.queued(10), 0);

    let action = engine.handle_trace_result(
        10,
        TraceOutcome::Accounts(vec![(x, touch(Some(90), vec![(0x1, 0xabc)]))]),
    );
    expect_nothing(action);
    assert_eq!(engine.in_flight(), None);

    let diff = expect_deliver(fetch(&mut engine, 10, 7), 7).unwrap();
    assert_eq!(diff.len(), 1);
    let acc = diff.get(&x).unwrap();
    assert_eq!(acc.balance, Some(w(90)));
    assert_eq!(acc.nonce, None);
    assert_eq!(acc.code, None);
    assert_eq!(acc.storage.len(), 1);
    assert_eq!(acc.storage.get(&w(0x1)), Some(&w(0xabc)));

    assert!(expect_deliver(fetch(&mut engine, 10, 8), 8).is_none());
}

#[test]
fn diff_of_a_single_success_is_consumed_once() {
    let x = Address::new(7, 7);
    let mut engine = Engine::new();
    assert!(expect_deliver(fetch(&mut engine, 6, 1), 1).is_none());
    expect_simulate(submit(&mut engine, "A", 6), "A", 6);
    let action = engine.handle_trace_result(
        6,
        TraceOutcome::Accounts(vec![(
            x,
            AccountState {
                balance: Some(Word::new(1, 2)),
                nonce: Some(3),
                code: Some(vec![0xfe]),
                storage: vec![(w(4), w(5))],
            },
        )]),
    );
    expect_nothing(action);
    let diff = expect_deliver(fetch(&mut engine, 6, 2), 2).unwrap();
    assert_eq!(diff.len(), 1);
    let acc = diff.get(&x).unwrap();
    assert_eq!(acc.balance, Some(Word { hi: 1, lo: 2 }));
    assert_eq!(acc.nonce, Some(3));
    assert_eq!(acc.code, Some(vec![0xfe]));
    assert_eq!(acc.storage.len(), 1);
    assert_eq!(acc.storage.get(&w(4)), Some(&w(5)));
    assert!(expect_deliver(fetch(&mut engine, 6, 3), 3).is_none());
    assert!(diff.get(&Address::new(7, 8)).is_none());
}

#[test]
fn transport_error_leaves_the_block_untouched() {
    let mut engine = Engine::new();
    let overrides = expect_simulate(submit(&mut engine, "A", 5), "A", 5);
    assert!(overrides.is_empty());
    expect_nothing(engine.handle_trace_result(5, TraceOutcome::TransportError));
    assert_eq!(engine.in_flight(), None);
    assert!(expect_deliver(fetch(&mut engine, 5, 1), 1).is_none());

    let again = expect_simulate(submit(&mut engine, "B", 5), "B", 5);
    assert!(again.is_empty());
    assert_eq!(engine.in_flight(), Some(5));
}

#[test]
fn failure_does_not_stop_the_queue() {
    let x = Address::new(1, 1);
    let y = Address::new(2, 2);
    let mut engine = Engine::new();
    expect_simulate(submit(&mut engine, "A", 8), "A", 8);
    expect_nothing(submit(&mut engine, "B", 8));
    expect_nothing(submit(&mut engine, "C", 8));
    expect_nothing(fetch(&mut engine, 8, 42));
    assert_eq!(engine.queued(8), 2);

    let action = engine.handle_trace_result(8, TraceOutcome::Accounts(vec![(x, touch(Some(1), vec![(1, 1)]))]));
    let for_b = expect_simulate(action, "B", 8);
    assert_eq!(for_b.get(&x).unwrap().balance, Some(w(1)));

    let action = engine.handle_trace_result(8, TraceOutcome::TransportError);
    let for_c = expect_simulate(action, "C", 8);
    assert_eq!(for_c.len(), 1);
    assert_eq!(for_c.get(&x).unwrap().balance, Some(w(1)));
    assert_eq!(for_c.get(&x).unwrap().storage.get(&w(1)), Some(&w(1)));

    let action = engine.handle_trace_result(8, TraceOutcome::Accounts(vec![(y, touch(Some(3), vec![]))]));
    let diff = expect_deliver(action, 42).unwrap();
    assert_eq!(diff.len(), 2);
    assert_eq!(diff.get(&x).unwrap().balance, Some(w(1)));
    assert_eq!(diff.get(&y).unwrap().balance, Some(w(3)));
    assert_eq!(engine.in_flight(), None);

    assert!(expect_deliver(fetch(&mut engine, 8, 43), 43).is_none());
}

#[test]
fn third_simulation_sees_the_first_two() {
    let x = Address::new(0, 1);
    let mut engine = Engine::new();
    expect_simulate(submit(&mut engine, "t1", 1), "t1", 1);
    expect_nothing(submit(&mut engine, "t2", 1));
    expect_nothing(submit(&mut engine, "t3", 1));
    let action = engine.handle_trace_result(1, TraceOutcome::Accounts(vec![(x, touch(Some(10), vec![(1, 1), (2, 2)]))]));
    expect_simulate(action, "t2", 1);
    let action = engine.handle_trace_result(1, TraceOutcome::Accounts(vec![(x, touch(None, vec![(2, 3)]))]));
    let third = expect_simulate(action, "t3", 1);
    let acc = third.get(&x).unwrap();
    assert_eq!(acc.balance, None);
    assert_eq!(acc.storage.len(), 2);
    assert_eq!(acc.storage.get(&w(1)), Some(&w(1)));
    assert_eq!(acc.storage.get(&w(2)), Some(&w(3)));
}

#[test]
fn malformed_answer_counts_as_a_failure() {
    let mut engine = Engine::new();
    expect_simulate(submit(&mut engine, "A", 2), "A", 2);
    expect_nothing(submit(&mut engine, "B", 2));
    let action = engine.handle_trace_result(2, TraceOutcome::Malformed);
    let overrides = expect_simulate(action, "B", 2);
    assert!(overrides.is_empty());
    expect_nothing(fetch(&mut engine, 2, 5));
    let action = engine.handle_trace_result(2, TraceOutcome::Malformed);
    assert!(expect_deliver(action, 5).is_none());
    assert_eq!(engine.in_flight(), None);
}

#[test]
fn successful_simulation_without_accounts_leaves_an_empty_diff() {
    let mut engine = Engine::new();
    expect_simulate(submit(&mut engine, "A", 2), "A", 2);
    expect_nothing(engine.handle_trace_result(2, TraceOutcome::Accounts(vec![])));
    let diff = expect_deliver(fetch(&mut engine, 2, 1), 1).unwrap();
    assert!(diff.is_empty());
    assert!(expect_deliver(fetch(&mut engine, 2, 1), 1).is_none());
}

#[test]
fn other_blocks_stay_queued_until_their_own_simulation_ends() {
    let x = Address::new(0, 1);
    let mut engine = Engine::new();
    expect_simulate(submit(&mut engine, "A", 1), "A", 1);
    expect_nothing(submit(&mut engine, "B", 2));
    assert_eq!(engine.queued(1), 0);
    assert_eq!(engine.queued(2), 1);

    expect_nothing(engine.handle_trace_result(1, TraceOutcome::Accounts(vec![(x, touch(Some(1), vec![]))])));
    assert_eq!(engine.in_flight(), None);
    assert_eq!(engine.queued(2), 1);

    // Block 2 still has work queued: a caller asking for it has to wait.
    expect_nothing(fetch(&mut engine, 2, 9));
    // Block 1 is done and is answered at once.
    let diff = expect_deliver(fetch(&mut engine, 1, 3), 3).unwrap();
    assert_eq!(diff.get(&x).unwrap().balance, Some(w(1)));

    // A fresh submission for block 2 starts at once; when it ends, the queue goes on.
    expect_simulate(submit(&mut engine, "C", 2), "C", 2);
    let action = engine.handle_trace_result(2, TraceOutcome::Accounts(vec![(x, touch(Some(2), vec![]))]));
    let overrides = expect_simulate(action, "B", 2);
    assert_eq!(overrides.get(&x).unwrap().balance, Some(w(2)));
    let action = engine.handle_trace_result(2, TraceOutcome::TransportError);
    let diff = expect_deliver(action, 9).unwrap();
    assert_eq!(diff.get(&x).unwrap().balance, Some(w(2)));
}

#[test]
fn later_waiter_replaces_the_earlier_one() {
    let mut engine = Engine::new();
    expect_simulate(submit(&mut engine, "A", 4), "A", 4);
    expect_nothing(fetch(&mut engine, 4, 1));
    expect_nothing(fetch(&mut engine, 4, 2));
    let action = engine.handle_trace_result(4, TraceOutcome::Accounts(vec![]));
    assert!(expect_deliver(action, 2).unwrap().is_empty());
    expect_simulate(submit(&mut engine, "B", 4), "B", 4);
    expect_nothing(engine.handle_trace_result(4, TraceOutcome::Accounts(vec![])));
}

#[test]
fn fetch_for_another_block_waits_while_a_simulation_runs() {
    let mut engine = Engine::new();
    expect_simulate(submit(&mut engine, "A", 1), "A", 1);
    expect_nothing(fetch(&mut engine, 2, 6));
    // The simulation of block 1 ends: the waiter of block 2 is not answered by it.
    expect_nothing(engine.handle_trace_result(1, TraceOutcome::TransportError));
    assert!(expect_deliver(fetch(&mut engine, 2, 7), 7).is_none());
}

#[test]
fn engine_ends_only_when_closed_and_idle() {
    let mut engine = Engine::new();
    assert!(!engine.is_finished(false));
    assert!(engine.is_finished(true));
    expect_simulate(submit(&mut engine, "A", 1), "A", 1);
    assert!(!engine.is_finished(false));
    assert!(!engine.is_finished(true));
    expect_nothing(engine.handle_trace_result(1, TraceOutcome::TransportError));
    assert!(!engine.is_finished(false));
    assert!(engine.is_finished(true));
}

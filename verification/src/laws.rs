//! What holds of merging and of the engine over whole runs.

use vstd::prelude::*;
use crate::account::{apply_slots, merge_account, AccountModel, AccountReport};
use crate::diff::{merge_trace, DiffModel};
use crate::engine::{
    answers_at_once, diff_of, initial, model_wf, on_add_trace, on_fetch, on_result, overrides_for,
    queue_of, ActionModel, EngineModel,
};
use crate::primitives::{Address, Word};

verus! {

/// The outcome of one simulation: the report, or `None` for a failure.
pub type Outcome = Option<Seq<(Address, AccountReport)>>;

/// A slot that a report writes has, after the merge, the value of the
/// report's last write to it.
pub proof fn lemma_slot_last_write_wins(m: Map<Word, Word>, slots: Seq<(Word, Word)>, i: int)
    requires
        0 <= i < slots.len(),
        forall|j: int| i < j < slots.len() ==> (#[trigger] slots[j]).0 != slots[i].0,
    ensures
        apply_slots(m, slots).contains_key(slots[i].0),
        apply_slots(m, slots)[slots[i].0] == slots[i].1,
    decreases slots.len(),
{
    if i < slots.len() - 1 {
        let front = slots.drop_last();
        assert(slots.last() == slots[slots.len() - 1]);
        assert forall|j: int| i < j < front.len() implies (#[trigger] front[j]).0 != front[i].0 by {
            assert(front[j] == slots[j]);
        }
        lemma_slot_last_write_wins(m, front, i);
    }
}

/// A slot that a report does not write is after the merge what it was before.
pub proof fn lemma_untouched_slot_stays(m: Map<Word, Word>, slots: Seq<(Word, Word)>, k: Word)
    requires
        forall|j: int| 0 <= j < slots.len() ==> (#[trigger] slots[j]).0 != k,
    ensures
        apply_slots(m, slots).contains_key(k) == m.contains_key(k),
        m.contains_key(k) ==> apply_slots(m, slots)[k] == m[k],
    decreases slots.len(),
{
    if slots.len() > 0 {
        let front = slots.drop_last();
        assert(slots.last() == slots[slots.len() - 1]);
        assert forall|j: int| 0 <= j < front.len() implies (#[trigger] front[j]).0 != k by {
            assert(front[j] == slots[j]);
        }
        lemma_untouched_slot_stays(m, front, k);
    }
}

/// Writing the slots of two reports one report after the other is writing
/// the slots of both in one pass.
pub proof fn lemma_apply_slots_concat(
    m: Map<Word, Word>,
    a: Seq<(Word, Word)>,
    b: Seq<(Word, Word)>,
)
    ensures
        apply_slots(apply_slots(m, a), b) == apply_slots(m, a + b),
    decreases b.len(),
{
    if b.len() == 0 {
        assert(a + b =~= a);
    } else {
        lemma_apply_slots_concat(m, a, b.drop_last());
        assert((a + b).drop_last() =~= a + b.drop_last());
        assert((a + b).last() == b.last());
    }
}

/// Two reports on one account, merged one after the other: balance, nonce
/// and code are those of the second report, and the storage is what the
/// slots of the first and then of the second report make of it.
pub proof fn lemma_merge_account_last_writer_wins(
    acc: AccountModel,
    first: AccountReport,
    second: AccountReport,
)
    ensures
        merge_account(merge_account(acc, first), second) == (AccountModel {
            balance: second.balance,
            nonce: second.nonce,
            code: second.code,
            storage: apply_slots(acc.storage, first.storage + second.storage),
        }),
{
    lemma_apply_slots_concat(acc.storage, first.storage, second.storage);
}

/// Merging report `a` and then report `b` into a diff gives the diff of one
/// merge pass over `a` followed by `b`.
pub proof fn lemma_merge_trace_concat(
    d: DiffModel,
    a: Seq<(Address, AccountReport)>,
    b: Seq<(Address, AccountReport)>,
)
    ensures
        merge_trace(merge_trace(d, a), b) == merge_trace(d, a + b),
    decreases b.len(),
{
    if b.len() == 0 {
        assert(a + b =~= a);
    } else {
        lemma_merge_trace_concat(d, a, b.drop_last());
        assert((a + b).drop_last() =~= a + b.drop_last());
        assert((a + b).last() == b.last());
    }
}

/// After a merge, an account that the report touches last at place `i` holds
/// the report's balance, nonce and code of that place.
pub proof fn lemma_merge_trace_last_touch(
    d: DiffModel,
    trace: Seq<(Address, AccountReport)>,
    i: int,
)
    requires
        0 <= i < trace.len(),
        forall|j: int| i < j < trace.len() ==> (#[trigger] trace[j]).0 != trace[i].0,
    ensures
        merge_trace(d, trace).contains_key(trace[i].0),
        merge_trace(d, trace)[trace[i].0].balance == trace[i].1.balance,
        merge_trace(d, trace)[trace[i].0].nonce == trace[i].1.nonce,
        merge_trace(d, trace)[trace[i].0].code == trace[i].1.code,
    decreases trace.len(),
{
    if i < trace.len() - 1 {
        let front = trace.drop_last();
        assert(trace.last() == trace[trace.len() - 1]);
        assert forall|j: int| i < j < front.len() implies (#[trigger] front[j]).0 != front[i].0 by {
            assert(front[j] == trace[j]);
        }
        lemma_merge_trace_last_touch(d, front, i);
    }
}

/// An account that a report does not touch is after the merge what it was before.
pub proof fn lemma_merge_trace_untouched(
    d: DiffModel,
    trace: Seq<(Address, AccountReport)>,
    address: Address,
)
    requires
        forall|j: int| 0 <= j < trace.len() ==> (#[trigger] trace[j]).0 != address,
    ensures
        merge_trace(d, trace).contains_key(address) == d.contains_key(address),
        d.contains_key(address) ==> merge_trace(d, trace)[address] == d[address],
    decreases trace.len(),
{
    if trace.len() > 0 {
        let front = trace.drop_last();
        assert(trace.last() == trace[trace.len() - 1]);
        assert forall|j: int| 0 <= j < front.len() implies (#[trigger] front[j]).0 != address by {
            assert(front[j] == trace[j]);
        }
        lemma_merge_trace_untouched(d, front, address);
    }
}

/// The diff of an optional diff; the empty one for `None`.
pub open spec fn or_empty(d: Option<DiffModel>) -> DiffModel {
    match d {
        Some(diff) => diff,
        None => Map::empty(),
    }
}

/// What is accumulated for a block after a row of simulations on it: each
/// report is merged into what the earlier ones left, and a failure leaves it
/// as it is.
pub open spec fn accumulate(d: Option<DiffModel>, outcomes: Seq<Outcome>) -> Option<DiffModel>
    decreases outcomes.len(),
{
    if outcomes.len() == 0 {
        d
    } else {
        let before = accumulate(d, outcomes.drop_last());
        match outcomes.last() {
            Some(trace) => Some(merge_trace(or_empty(before), trace)),
            None => before,
        }
    }
}

/// The state and the last action after the simulations on `block` ended one
/// after the other with `outcomes`.
pub open spec fn after_results<T, W>(s: EngineModel<T, W>, block: u64, outcomes: Seq<Outcome>) -> (
    EngineModel<T, W>,
    ActionModel<T, W>,
)
    decreases outcomes.len(),
{
    if outcomes.len() == 0 {
        (s, ActionModel::Nothing)
    } else {
        on_result(after_results(s, block, outcomes.drop_last()).0, block, outcomes.last())
    }
}

/// While transactions are queued for the block in flight, each simulation
/// that ends starts the next queued transaction, and that simulation gets as
/// overrides exactly what the simulations before it have accumulated.
pub proof fn lemma_results_chain<T, W>(s: EngineModel<T, W>, block: u64, outcomes: Seq<Outcome>)
    requires
        model_wf(s),
        s.in_flight == Some(block),
        outcomes.len() <= queue_of(s, block).len(),
    ensures
        model_wf(after_results(s, block, outcomes).0),
        after_results(s, block, outcomes).0.in_flight == Some(block),
        after_results(s, block, outcomes).0.waiters == s.waiters,
        queue_of(after_results(s, block, outcomes).0, block) == queue_of(s, block).skip(
            outcomes.len() as int,
        ),
        diff_of(after_results(s, block, outcomes).0, block) == accumulate(
            diff_of(s, block),
            outcomes,
        ),
        outcomes.len() > 0 ==> after_results(s, block, outcomes).1 == (ActionModel::<
            T,
            W,
        >::Simulate {
            transaction: queue_of(s, block)[outcomes.len() - 1],
            block,
            overrides: or_empty(accumulate(diff_of(s, block), outcomes)),
        }),
    decreases outcomes.len(),
{
    let q = queue_of(s, block);
    if outcomes.len() == 0 {
        assert(q.skip(0) =~= q);
    } else {
        let k = outcomes.len() - 1;
        lemma_results_chain(s, block, outcomes.drop_last());
        let s1 = after_results(s, block, outcomes.drop_last()).0;
        let s2 = after_results(s, block, outcomes).0;
        assert(queue_of(s1, block) == q.skip(k));
        assert(q.skip(k).len() > 0);
        assert(s1.queues.contains_key(block));
        assert(q.skip(k)[0] == q[k]);
        assert(queue_of(s2, block) =~= q.skip(k + 1));
    }
}

/// What happens with one block: a transaction is submitted for it, or the
/// simulation in flight on it ends.
pub enum BlockEvent<T> {
    Submit(T),
    Ended(Outcome),
}

/// The transactions submitted in `events`, in their order.
pub open spec fn submitted<T>(events: Seq<BlockEvent<T>>) -> Seq<T>
    decreases events.len(),
{
    if events.len() == 0 {
        Seq::empty()
    } else {
        match events.last() {
            BlockEvent::Submit(transaction) => submitted(events.drop_last()).push(transaction),
            BlockEvent::Ended(_) => submitted(events.drop_last()),
        }
    }
}

/// The outcomes of the simulations that ended in `events`, in their order.
pub open spec fn ended<T>(events: Seq<BlockEvent<T>>) -> Seq<Outcome>
    decreases events.len(),
{
    if events.len() == 0 {
        Seq::empty()
    } else {
        match events.last() {
            BlockEvent::Submit(_) => ended(events.drop_last()),
            BlockEvent::Ended(outcome) => ended(events.drop_last()).push(outcome),
        }
    }
}

/// A simulation ends only after it was started: before each end, more
/// transactions were submitted than simulations have ended.
pub open spec fn orderly<T>(events: Seq<BlockEvent<T>>) -> bool
    decreases events.len(),
{
    events.len() == 0 || (orderly(events.drop_last()) && match events.last() {
        BlockEvent::Submit(_) => true,
        BlockEvent::Ended(_) => ended(events.drop_last()).len() < submitted(
            events.drop_last(),
        ).len(),
    })
}

/// The state and the last action after `events` happened with `block`, one
/// after the other.
pub open spec fn after_events<T, W>(s: EngineModel<T, W>, block: u64, events: Seq<BlockEvent<T>>)
    -> (EngineModel<T, W>, ActionModel<T, W>)
    decreases events.len(),
{
    if events.len() == 0 {
        (s, ActionModel::Nothing)
    } else {
        let before = after_events(s, block, events.drop_last()).0;
        match events.last() {
            BlockEvent::Submit(transaction) => on_add_trace(before, transaction, block),
            BlockEvent::Ended(outcome) => on_result(before, block, outcome),
        }
    }
}

/// Causality within a block. Let the engine be idle with nothing queued for
/// `block` and nobody waiting for it, and let transactions be submitted for
/// the block and their simulations end in any orderly interleaving. Then
/// the transactions are simulated one at a time in the order of their
/// submission, and whenever a simulation is started, it is that of the first
/// transaction not simulated yet, with exactly what the simulations before it
/// have accumulated as its overrides.
pub proof fn lemma_causal_order<T, W>(
    s: EngineModel<T, W>,
    block: u64,
    events: Seq<BlockEvent<T>>,
)
    requires
        model_wf(s),
        answers_at_once(s, block),
        !s.waiters.contains_key(block),
        orderly(events),
    ensures
        ({
            let s2 = after_events(s, block, events).0;
            let action = after_events(s, block, events).1;
            let txs = submitted(events);
            let outs = ended(events);
            &&& model_wf(s2)
            &&& !s2.waiters.contains_key(block)
            &&& outs.len() <= txs.len()
            &&& diff_of(s2, block) == accumulate(diff_of(s, block), outs)
            &&& outs.len() == txs.len() ==> answers_at_once(s2, block)
            &&& outs.len() < txs.len() ==> s2.in_flight == Some(block) && queue_of(s2, block)
                == txs.skip(outs.len() as int + 1)
            &&& action is Simulate ==> outs.len() < txs.len() && action
                == (ActionModel::<T, W>::Simulate {
                transaction: txs[outs.len() as int],
                block,
                overrides: or_empty(accumulate(diff_of(s, block), outs)),
            })
        }),
    decreases events.len(),
{
    if events.len() > 0 {
        let front = events.drop_last();
        lemma_causal_order(s, block, front);
        let s1 = after_events(s, block, front).0;
        let s2 = after_events(s, block, events).0;
        let txs1 = submitted(front);
        let outs1 = ended(front);
        let txs = submitted(events);
        let outs = ended(events);
        match events.last() {
            BlockEvent::Submit(transaction) => {
                if outs1.len() == txs1.len() {
                    assert(txs.skip(outs.len() as int + 1) =~= Seq::<T>::empty());
                } else {
                    assert(queue_of(s2, block) =~= txs.skip(outs.len() as int + 1));
                }
            },
            BlockEvent::Ended(outcome) => {
                assert(outs.drop_last() =~= outs1);
                assert(outs.last() == outcome);
                let q = queue_of(s1, block);
                if q.len() > 0 {
                    assert(s1.queues.contains_key(block));
                    assert(q[0] == txs[outs.len() as int]);
                    assert(queue_of(s2, block) =~= txs.skip(outs.len() as int + 1));
                } else {
                    assert(!s1.queues.contains_key(block));
                    assert(txs1.len() == outs1.len() + 1);
                }
            },
        }
    }
}

/// Nothing is queued on an idle engine, and nothing interrupts a simulation:
/// a submission to an idle engine starts at once and leaves the queues as
/// they are; a submission to a busy engine goes to the end of the queue of
/// its block and leaves the simulation in flight, the store and the waiting
/// callers as they are.
pub proof fn lemma_submission<T, W>(s: EngineModel<T, W>, transaction: T, block: u64)
    requires
        model_wf(s),
    ensures
        model_wf(on_add_trace(s, transaction, block).0),
        on_add_trace(s, transaction, block).0.diffs == s.diffs,
        on_add_trace(s, transaction, block).0.waiters == s.waiters,
        s.in_flight is None ==> on_add_trace(s, transaction, block).0.queues == s.queues
            && on_add_trace(s, transaction, block).0.in_flight == Some(block),
        s.in_flight is Some ==> on_add_trace(s, transaction, block).0.in_flight == s.in_flight
            && on_add_trace(s, transaction, block).1 == ActionModel::<T, W>::Nothing && queue_of(
            on_add_trace(s, transaction, block).0,
            block,
        ) == queue_of(s, block).push(transaction),
{
}

/// One step of the chain, whatever was submitted in between: when a
/// simulation ends with a report and transactions are queued for its block,
/// the report is merged into the store, and the head of the queue is started
/// with exactly the merged diff as its overrides.
pub proof fn lemma_next_sees_merged<T, W>(
    s: EngineModel<T, W>,
    block: u64,
    trace: Seq<(Address, AccountReport)>,
)
    requires
        model_wf(s),
        s.in_flight == Some(block),
        s.queues.contains_key(block),
    ensures
        on_result(s, block, Some(trace)).1 == (ActionModel::<T, W>::Simulate {
            transaction: queue_of(s, block)[0],
            block,
            overrides: merge_trace(overrides_for(s, block), trace),
        }),
        diff_of(on_result(s, block, Some(trace)).0, block) == Some(
            merge_trace(overrides_for(s, block), trace),
        ),
        on_result(s, block, Some(trace)).0.in_flight == Some(block),
{
}

/// A failed simulation loses only its own effects: with transactions queued
/// for its block, the next one is started on what was accumulated before the
/// failure, and the store is unchanged.
pub proof fn lemma_failure_goes_on<T, W>(s: EngineModel<T, W>, block: u64)
    requires
        model_wf(s),
        s.in_flight == Some(block),
        s.queues.contains_key(block),
    ensures
        on_result(s, block, None).1 == (ActionModel::<T, W>::Simulate {
            transaction: queue_of(s, block)[0],
            block,
            overrides: overrides_for(s, block),
        }),
        on_result(s, block, None).0.diffs == s.diffs,
        on_result(s, block, None).0.in_flight == Some(block),
{
}

/// When the last simulation of a block ends and a caller waits for the
/// block, the caller gets what the successful simulations have accumulated,
/// failures left out, and the engine is idle with nothing stored for the block.
pub proof fn lemma_drained_block_is_delivered<T, W>(
    s: EngineModel<T, W>,
    block: u64,
    outcomes: Seq<Outcome>,
)
    requires
        model_wf(s),
        s.in_flight == Some(block),
        s.waiters.contains_key(block),
        outcomes.len() == queue_of(s, block).len() + 1,
    ensures
        after_results(s, block, outcomes).1 == (ActionModel::<T, W>::Deliver {
            waiter: s.waiters[block],
            diff: accumulate(diff_of(s, block), outcomes),
        }),
        after_results(s, block, outcomes).0.in_flight is None,
        !after_results(s, block, outcomes).0.diffs.contains_key(block),
        !after_results(s, block, outcomes).0.waiters.contains_key(block),
{
    lemma_results_chain(s, block, outcomes.drop_last());
    let s1 = after_results(s, block, outcomes.drop_last()).0;
    assert(queue_of(s1, block).len() == 0);
    assert(!s1.queues.contains_key(block));
}

/// A diff is consumed once. A request that is answered at once gets what is
/// accumulated for the block, and a request that follows it immediately gets
/// nothing.
pub proof fn lemma_consume_once<T, W>(s: EngineModel<T, W>, block: u64, first: W, second: W)
    requires
        answers_at_once(s, block),
    ensures
        on_fetch(s, block, first).1 == (ActionModel::<T, W>::Deliver {
            waiter: first,
            diff: diff_of(s, block),
        }),
        answers_at_once(on_fetch(s, block, first).0, block),
        on_fetch(on_fetch(s, block, first).0, block, second).1 == (ActionModel::<
            T,
            W,
        >::Deliver { waiter: second, diff: None }),
{
}

/// A block that was never submitted to has no diff: on an idle engine that
/// holds nothing for the block, a request is answered at once with nothing,
/// and the engine is left as it was.
pub proof fn lemma_untouched_block_is_empty<T, W>(s: EngineModel<T, W>, block: u64, res: W)
    requires
        answers_at_once(s, block),
        !s.diffs.contains_key(block),
    ensures
        on_fetch(s, block, res) == (s, ActionModel::<T, W>::Deliver { waiter: res, diff: None }),
        on_fetch(initial::<T, W>(), block, res).1 == (ActionModel::<T, W>::Deliver {
            waiter: res,
            diff: None,
        }),
{
    assert(s.diffs.remove(block) =~= s.diffs);
}

/// One successful simulation on an untouched block, with nothing queued:
/// the engine is idle afterwards, a request for the block gets exactly the
/// merged report, and the next request gets nothing.
pub proof fn lemma_single_success<T, W>(
    s: EngineModel<T, W>,
    block: u64,
    transaction: T,
    trace: Seq<(Address, AccountReport)>,
    first: W,
    second: W,
)
    requires
        model_wf(s),
        answers_at_once(s, block),
        !s.diffs.contains_key(block),
        !s.waiters.contains_key(block),
    ensures
        ({
            let started = on_add_trace(s, transaction, block).0;
            let ended = on_result(started, block, Some(trace));
            let fetched = on_fetch(ended.0, block, first);
            &&& ended.1 == ActionModel::<T, W>::Nothing
            &&& fetched.1 == ActionModel::<T, W>::Deliver {
                waiter: first,
                diff: Some(merge_trace(Map::empty(), trace)),
            }
            &&& on_fetch(fetched.0, block, second).1 == ActionModel::<T, W>::Deliver {
                waiter: second,
                diff: None,
            }
        }),
{
}

} // verus!

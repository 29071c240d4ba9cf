//! The trace-accumulation engine as a state machine.
//!
//! The engine is either idle or has exactly one simulation in flight, tagged
//! with its block. Each step takes one event (a command, or the outcome of the
//! simulation in flight) and returns the one action that the surrounding task
//! has to perform: start a simulation, answer a waiting caller, or nothing.
//!
//! When a simulation ends, the engine goes on with the queue of that
//! simulation's block only. Transactions queued for another block stay queued
//! until a simulation for their block ends.

use std::collections::HashMap;
use std::collections::VecDeque;
use vstd::prelude::*;
use crate::account::{AccountReport, AccountState};
use crate::diff::{merge_trace, trace_view, DiffModel, StateDiff};
use crate::primitives::Address;

verus! {

broadcast use {
    vstd::std_specs::hash::group_hash_axioms,
    vstd::std_specs::vecdeque::group_vec_dequeue_axioms,
};

/// A command to the engine. `T` is the transaction payload, which the engine
/// only carries; `W` is the reply slot of a caller that asks for a block's diff.
pub enum TraceCommand<T, W> {
    /// Simulate `transaction` on top of `block` and of what was accumulated for it.
    AddTrace { transaction: T, block: u64 },
    /// Hand the diff accumulated for `block` to `res`, once no simulation is
    /// in flight and nothing is queued for the block.
    FetchAccumulatedDiffs { block: u64, res: W },
}

/// How the simulation in flight ended.
pub enum TraceOutcome {
    /// The service reported the touched accounts.
    Accounts(Vec<(Address, AccountState)>),
    /// The service answered in a shape that holds no account report.
    Malformed,
    /// The request did not get through.
    TransportError,
}

/// What the surrounding task has to do after a step.
pub enum Action<T, W> {
    /// Nothing.
    Nothing,
    /// Start the simulation of `transaction` on `block` with `overrides` as
    /// its state overrides, and report its outcome when it ends.
    Simulate { transaction: T, block: u64, overrides: StateDiff },
    /// Answer `waiter` with `diff`; `None` where nothing is accumulated.
    Deliver { waiter: W, diff: Option<StateDiff> },
}

/// The mathematical value of an [`Action`].
pub enum ActionModel<T, W> {
    Nothing,
    Simulate { transaction: T, block: u64, overrides: DiffModel },
    Deliver { waiter: W, diff: Option<DiffModel> },
}

/// The mathematical value of the engine's state.
pub struct EngineModel<T, W> {
    /// The block of the simulation in flight; `None` when idle.
    pub in_flight: Option<u64>,
    /// For each block with waiting transactions, those transactions in the
    /// order of their submission.
    pub queues: Map<u64, Seq<T>>,
    /// For each block, the caller waiting for its diff.
    pub waiters: Map<u64, W>,
    /// For each touched block, what is accumulated for it.
    pub diffs: Map<u64, DiffModel>,
}

/// The view of an optional diff.
pub open spec fn diff_view(diff: Option<StateDiff>) -> Option<DiffModel> {
    match diff {
        Some(d) => Some(d@),
        None => None,
    }
}

impl<T, W> View for Action<T, W> {
    type V = ActionModel<T, W>;

    open spec fn view(&self) -> ActionModel<T, W> {
        match *self {
            Action::Nothing => ActionModel::Nothing,
            Action::Simulate { transaction, block, overrides } => ActionModel::Simulate {
                transaction,
                block,
                overrides: overrides@,
            },
            Action::Deliver { waiter, diff } => ActionModel::Deliver {
                waiter,
                diff: diff_view(diff),
            },
        }
    }
}

impl<T, W> Action<T, W> {
    /// The diffs that the action carries are well formed.
    pub open spec fn wf(&self) -> bool {
        match *self {
            Action::Nothing => true,
            Action::Simulate { transaction, block, overrides } => overrides.wf(),
            Action::Deliver { waiter, diff } => match diff {
                Some(d) => d.wf(),
                None => true,
            },
        }
    }
}

/// What a simulation's outcome reports: the touched accounts, or `None` for a
/// failure of either kind.
pub open spec fn outcome_view(outcome: TraceOutcome) -> Option<Seq<(Address, AccountReport)>> {
    match outcome {
        TraceOutcome::Accounts(trace) => Some(trace_view(trace@)),
        TraceOutcome::Malformed => None,
        TraceOutcome::TransportError => None,
    }
}

/// The state of an engine that has seen nothing yet.
pub open spec fn initial<T, W>() -> EngineModel<T, W> {
    EngineModel {
        in_flight: None,
        queues: Map::empty(),
        waiters: Map::empty(),
        diffs: Map::empty(),
    }
}

/// No block has an empty queue.
pub open spec fn model_wf<T, W>(s: EngineModel<T, W>) -> bool {
    forall|b: u64| #[trigger] s.queues.contains_key(b) ==> s.queues[b].len() > 0
}

/// The transactions waiting for `block`.
pub open spec fn queue_of<T, W>(s: EngineModel<T, W>, block: u64) -> Seq<T> {
    if s.queues.contains_key(block) {
        s.queues[block]
    } else {
        Seq::empty()
    }
}

/// The state overrides that a simulation on `block` starts from: what is
/// accumulated for the block, or nothing.
pub open spec fn overrides_for<T, W>(s: EngineModel<T, W>, block: u64) -> DiffModel {
    if s.diffs.contains_key(block) {
        s.diffs[block]
    } else {
        Map::empty()
    }
}

/// What is accumulated for `block`, if anything is.
pub open spec fn diff_of<T, W>(s: EngineModel<T, W>, block: u64) -> Option<DiffModel> {
    if s.diffs.contains_key(block) {
        Some(s.diffs[block])
    } else {
        None
    }
}

/// The queues after `transaction` was appended to that of `block`.
pub open spec fn enqueue<T, W>(s: EngineModel<T, W>, transaction: T, block: u64) -> Map<
    u64,
    Seq<T>,
> {
    s.queues.insert(block, queue_of(s, block).push(transaction))
}

/// The queues after the head of the queue of `block` was taken.
pub open spec fn dequeue<T, W>(s: EngineModel<T, W>, block: u64) -> Map<u64, Seq<T>> {
    if queue_of(s, block).len() <= 1 {
        s.queues.remove(block)
    } else {
        s.queues.insert(block, queue_of(s, block).subrange(1, queue_of(s, block).len() as int))
    }
}

/// Starting a simulation: the engine is simulating `block`, and the
/// simulation gets what is accumulated for the block as its overrides.
pub open spec fn start<T, W>(s: EngineModel<T, W>, transaction: T, block: u64) -> (
    EngineModel<T, W>,
    ActionModel<T, W>,
) {
    (
        EngineModel { in_flight: Some(block), ..s },
        ActionModel::Simulate { transaction, block, overrides: overrides_for(s, block) },
    )
}

/// A submission: started at once when the engine is idle, queued for its
/// block otherwise.
pub open spec fn on_add_trace<T, W>(s: EngineModel<T, W>, transaction: T, block: u64) -> (
    EngineModel<T, W>,
    ActionModel<T, W>,
) {
    if s.in_flight is None {
        start(s, transaction, block)
    } else {
        (EngineModel { queues: enqueue(s, transaction, block), ..s }, ActionModel::Nothing)
    }
}

/// Whether a request for the diff of `block` is answered at once: the engine
/// is idle and nothing is queued for the block.
pub open spec fn answers_at_once<T, W>(s: EngineModel<T, W>, block: u64) -> bool {
    s.in_flight is None && !s.queues.contains_key(block)
}

/// A request for a block's diff: answered at once with what is accumulated,
/// which leaves the store, or registered, in place of an earlier waiter.
pub open spec fn on_fetch<T, W>(s: EngineModel<T, W>, block: u64, res: W) -> (
    EngineModel<T, W>,
    ActionModel<T, W>,
) {
    if answers_at_once(s, block) {
        (
            EngineModel { diffs: s.diffs.remove(block), ..s },
            ActionModel::Deliver { waiter: res, diff: diff_of(s, block) },
        )
    } else {
        (EngineModel { waiters: s.waiters.insert(block, res), ..s }, ActionModel::Nothing)
    }
}

/// A command.
pub open spec fn on_command<T, W>(s: EngineModel<T, W>, cmd: TraceCommand<T, W>) -> (
    EngineModel<T, W>,
    ActionModel<T, W>,
) {
    match cmd {
        TraceCommand::AddTrace { transaction, block } => on_add_trace(s, transaction, block),
        TraceCommand::FetchAccumulatedDiffs { block, res } => on_fetch(s, block, res),
    }
}

/// The store after the outcome of a simulation on `block`: a report is merged
/// into what was accumulated for the block, a failure changes nothing.
pub open spec fn absorb<T, W>(
    s: EngineModel<T, W>,
    block: u64,
    outcome: Option<Seq<(Address, AccountReport)>>,
) -> EngineModel<T, W> {
    match outcome {
        Some(trace) => EngineModel {
            in_flight: None,
            diffs: s.diffs.insert(block, merge_trace(overrides_for(s, block), trace)),
            ..s
        },
        None => EngineModel { in_flight: None, ..s },
    }
}

/// What follows once the outcome is absorbed: the next queued transaction of
/// the block is started; or, with none queued, a caller waiting for the block
/// gets what is accumulated, which leaves the store; or nothing.
pub open spec fn proceed<T, W>(s: EngineModel<T, W>, block: u64) -> (
    EngineModel<T, W>,
    ActionModel<T, W>,
) {
    if s.queues.contains_key(block) {
        start(EngineModel { queues: dequeue(s, block), ..s }, s.queues[block][0], block)
    } else if s.waiters.contains_key(block) {
        (
            EngineModel {
                waiters: s.waiters.remove(block),
                diffs: s.diffs.remove(block),
                ..s
            },
            ActionModel::Deliver { waiter: s.waiters[block], diff: diff_of(s, block) },
        )
    } else {
        (s, ActionModel::Nothing)
    }
}

/// The end of the simulation in flight on `block`.
pub open spec fn on_result<T, W>(
    s: EngineModel<T, W>,
    block: u64,
    outcome: Option<Seq<(Address, AccountReport)>>,
) -> (EngineModel<T, W>, ActionModel<T, W>) {
    proceed(absorb(s, block, outcome), block)
}

/// The engine: the store of accumulated diffs, the per-block queues, the
/// waiting callers and the tag of the simulation in flight.
pub struct CallTraceManager<T, W> {
    in_flight: Option<u64>,
    trace_request_queue: HashMap<u64, VecDeque<T>>,
    response_queue: HashMap<u64, W>,
    accumulated_state_diffs: HashMap<u64, StateDiff>,
}

impl<T, W> View for CallTraceManager<T, W> {
    type V = EngineModel<T, W>;

    closed spec fn view(&self) -> EngineModel<T, W> {
        EngineModel {
            in_flight: self.in_flight,
            queues: self.trace_request_queue@.map_values(|q: VecDeque<T>| q@),
            waiters: self.response_queue@,
            diffs: self.accumulated_state_diffs@.map_values(|d: StateDiff| d@),
        }
    }
}

impl<T, W> CallTraceManager<T, W> {
    /// Every stored diff is well formed, and no stored queue is empty.
    pub closed spec fn wf(&self) -> bool {
        &&& forall|b: u64| #[trigger]
            self.accumulated_state_diffs@.contains_key(b) ==> self.accumulated_state_diffs@[b].wf()
        &&& forall|b: u64| #[trigger]
            self.trace_request_queue@.contains_key(b) ==> self.trace_request_queue@[b]@.len() > 0
    }

    /// A well-formed engine has a well-formed model.
    pub proof fn lemma_wf_model(&self)
        requires
            self.wf(),
        ensures
            model_wf(self@),
    {
    }

    /// An idle engine with nothing queued, nothing accumulated and nobody waiting.
    pub fn new() -> (r: Self)
        ensures
            r.wf(),
            r@ == initial::<T, W>(),
    {
        let r = CallTraceManager {
            in_flight: None,
            trace_request_queue: HashMap::new(),
            response_queue: HashMap::new(),
            accumulated_state_diffs: HashMap::new(),
        };
        assert(r@.queues =~= Map::<u64, Seq<T>>::empty());
        assert(r@.diffs =~= Map::<u64, DiffModel>::empty());
        r
    }

    /// The block of the simulation in flight; `None` when the engine is idle.
    pub fn in_flight(&self) -> (r: Option<u64>)
        ensures
            r == self@.in_flight,
    {
        self.in_flight
    }

    /// How many transactions wait for `block`.
    pub fn queued(&self, block: u64) -> (n: usize)
        ensures
            n == queue_of(self@, block).len(),
    {
        match self.trace_request_queue.get(&block) {
            Some(q) => q.len(),
            None => 0,
        }
    }

    /// Whether the engine has come to its end: the source of commands is
    /// closed for good and no simulation is in flight. That nothing is in
    /// flight at the moment is by itself no end.
    pub fn is_finished(&self, commands_closed: bool) -> (r: bool)
        ensures
            r == (commands_closed && self@.in_flight is None),
    {
        commands_closed && self.in_flight.is_none()
    }

    /// Handles a command.
    ///
    /// A submission is started at once when the engine is idle, with what is
    /// accumulated for its block as overrides; otherwise it is appended to
    /// the queue of its block. A request for a block's diff is answered at
    /// once when the engine is idle and nothing is queued for the block: the
    /// diff leaves the store, and `None` says that nothing was stored, be it
    /// that the block was never touched or that its diff was handed out
    /// before. Otherwise the caller is registered for the block, in place of
    /// a caller registered earlier, who is then never answered: callers keep
    /// to one outstanding request per block.
    pub fn handle_new_trace_command(&mut self, cmd: TraceCommand<T, W>) -> (action: Action<T, W>)
        requires
            old(self).wf(),
        ensures
            final(self).wf(),
            action.wf(),
            (final(self)@, action@) == on_command(old(self)@, cmd),
    {
        match cmd {
            TraceCommand::AddTrace { transaction, block } => {
                if self.in_flight.is_none() {
                    self.start_new_trace_call_with_overrides(transaction, block)
                } else {
                    let mut queue = match self.trace_request_queue.remove(&block) {
                        Some(q) => q,
                        None => VecDeque::new(),
                    };
                    assert(queue@ == queue_of(old(self)@, block));
                    queue.push_back(transaction);
                    self.trace_request_queue.insert(block, queue);
                    assert(self@.queues =~= enqueue(old(self)@, transaction, block));
                    Action::Nothing
                }
            },
            TraceCommand::FetchAccumulatedDiffs { block, res } => {
                if self.in_flight.is_none() && !self.trace_request_queue.contains_key(&block) {
                    let diff = self.accumulated_state_diffs.remove(&block);
                    assert(self@.diffs =~= old(self)@.diffs.remove(block));
                    assert(diff_view(diff) == diff_of(old(self)@, block));
                    Action::Deliver { waiter: res, diff }
                } else {
                    self.response_queue.insert(block, res);
                    Action::Nothing
                }
            },
        }
    }

    /// Handles the end of the simulation in flight on `block`.
    ///
    /// A report is merged into what is accumulated for the block; a failure
    /// of either kind changes nothing there. Then the head of the block's
    /// queue is started on what is accumulated now. With nothing queued the
    /// engine is idle, and a caller registered for the block gets what is
    /// accumulated, which leaves the store. The diff does not tell the caller
    /// whether simulations of the block have failed.
    pub fn handle_trace_result(&mut self, block: u64, result: TraceOutcome) -> (action: Action<
        T,
        W,
    >)
        requires
            old(self).wf(),
            old(self)@.in_flight == Some(block),
        ensures
            final(self).wf(),
            action.wf(),
            (final(self)@, action@) == on_result(old(self)@, block, outcome_view(result)),
    {
        self.in_flight = None;
        match result {
            TraceOutcome::Accounts(trace) => {
                let mut diff = match self.accumulated_state_diffs.remove(&block) {
                    Some(d) => d,
                    None => StateDiff::new(),
                };
                assert(diff@ == overrides_for(old(self)@, block));
                diff.merge_trace(trace);
                self.accumulated_state_diffs.insert(block, diff);
                assert(self@.diffs =~= absorb(old(self)@, block, outcome_view(result)).diffs);
            },
            TraceOutcome::Malformed => {},
            TraceOutcome::TransportError => {},
        }
        assert(self@ == absorb(old(self)@, block, outcome_view(result)));
        let ghost mid = self@;
        match self.trace_request_queue.remove(&block) {
            Some(mut queue) => {
                let next = queue.pop_front();
                if queue.len() > 0 {
                    self.trace_request_queue.insert(block, queue);
                }
                assert(self@.queues =~= dequeue(mid, block));
                let transaction = next.unwrap();
                self.start_new_trace_call_with_overrides(transaction, block)
            },
            None => {
                assert(self@.queues =~= mid.queues);
                match self.response_queue.remove(&block) {
                    Some(waiter) => {
                        let diff = self.accumulated_state_diffs.remove(&block);
                        assert(self@.diffs =~= mid.diffs.remove(block));
                        assert(diff_view(diff) == diff_of(mid, block));
                        Action::Deliver { waiter, diff }
                    },
                    None => {
                        assert(self@.waiters =~= mid.waiters);
                        Action::Nothing
                    },
                }
            },
        }
    }

    /// Marks the engine as simulating `block` and returns the order to start
    /// the simulation of `transaction`, with a copy of what is accumulated
    /// for the block as its overrides.
    fn start_new_trace_call_with_overrides(&mut self, transaction: T, block: u64) -> (action:
        Action<T, W>)
        requires
            old(self).wf(),
        ensures
            final(self).wf(),
            action.wf(),
            (final(self)@, action@) == start(old(self)@, transaction, block),
    {
        let overrides = match self.accumulated_state_diffs.get(&block) {
            Some(diff) => diff.duplicate(),
            None => StateDiff::new(),
        };
        self.in_flight = Some(block);
        Action::Simulate { transaction, block, overrides }
    }
}

} // verus!

//! The options of one simulation request.

use vstd::prelude::*;
use crate::diff::StateDiff;

verus! {

/// Which tracer the service runs.
#[derive(Clone, Copy, Debug, PartialEq, Eq, Structural)]
pub enum Tracer {
    /// The service's own default, a step-by-step log.
    StructLog,
    /// The tracer that reports the state of every touched account.
    PreState,
}

/// The options of one simulation request.
pub struct TraceCallOptions {
    pub tracer: Tracer,
    pub disable_storage: bool,
    pub disable_memory: bool,
    pub disable_return_data: bool,
    pub disable_stack: bool,
    /// The account state that the simulation starts from, on top of the chain's.
    pub state_overrides: StateDiff,
}

/// The options of a simulation that starts from `state_override`: the
/// account-state tracer, with storage capture on and the capture of memory,
/// return data and stack off.
pub fn get_trace_options_with_override(state_override: StateDiff) -> (opts: TraceCallOptions)
    ensures
        opts.tracer == Tracer::PreState,
        !opts.disable_storage,
        opts.disable_memory,
        opts.disable_return_data,
        opts.disable_stack,
        opts.state_overrides == state_override,
{
    TraceCallOptions {
        tracer: Tracer::PreState,
        disable_storage: false,
        disable_memory: true,
        disable_return_data: true,
        disable_stack: true,
        state_overrides: state_override,
    }
}

} // verus!

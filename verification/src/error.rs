use vstd::prelude::*;

verus! {

/// Why a concurrent run did not complete.
#[derive(Clone, Copy, Debug, PartialEq, Eq, Structural)]
pub enum PipelineError {
    /// A send was attempted on a channel that no receiver can read any more,
    /// or through a handle that has been closed.
    ChannelClosed,
    /// A spawned task panicked, could not be started, or its transform
    /// failed on an item.
    TaskFailure,
    /// The scope that owns the tasks reported a failure after joining them.
    ScopeFailure,
    /// No task failed, and yet the sink did not see every item once, or
    /// not in the order that a single worker keeps.
    DeliveryFault,
}

} // verus!

use vstd::prelude::*;

verus! {

/// Errors of the fetch scheduler.
#[derive(Debug, Clone, Copy, PartialEq, Eq, Structural)]
pub enum SchedulerError {
    /// The source with this identifier has no scheduled fetch.
    SourceNotScheduled(u128),
}

} // verus!

use vstd::prelude::*;

verus! {

/// Intent types for memory retrieval routing.
#[derive(Clone, Copy, Debug, PartialEq, Eq, Structural)]
pub enum MemoryIntent {
    Debugging,
    Architecture,
    Workflow,
    Refactor,
    Deployment,
    Incident,
    General,
}

} // verus!

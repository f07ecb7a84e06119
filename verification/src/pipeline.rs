use vstd::prelude::*;

verus! {

/// Where a process stands in a shell pipeline, described by which
/// ends of it are spliced to neighbours.
#[derive(Debug, Clone, Copy, PartialEq, Eq, Structural)]
pub enum PlacementDescriptor {
    /// First in the pipe: writes onward.
    First,
    /// In the middle: reads from one neighbour, writes to the other.
    Middle,
    /// Last in the pipe: reads only.
    Last,
    /// Not in a pipeline at all.
    Alone,
}

/// The same standing, named by the streams the invocation receives.
#[derive(Debug, Clone, Copy, PartialEq, Eq, Structural)]
pub enum PipelineInvocation {
    /// Last in the pipe: the input stream is piped in.
    PipeIn,
    /// First in the pipe: the output stream is piped onward.
    PipeOut,
    /// In the middle: both streams are piped.
    PipeInOut,
    /// Standing alone.
    NoPipe,
}

pub open spec fn invocation_of(p: PlacementDescriptor) -> PipelineInvocation {
    match p {
        PlacementDescriptor::First => PipelineInvocation::PipeOut,
        PlacementDescriptor::Middle => PipelineInvocation::PipeInOut,
        PlacementDescriptor::Last => PipelineInvocation::PipeIn,
        PlacementDescriptor::Alone => PipelineInvocation::NoPipe,
    }
}

pub open spec fn placement_of(p: PipelineInvocation) -> PlacementDescriptor {
    match p {
        PipelineInvocation::PipeIn => PlacementDescriptor::Last,
        PipelineInvocation::PipeOut => PlacementDescriptor::First,
        PipelineInvocation::PipeInOut => PlacementDescriptor::Middle,
        PipelineInvocation::NoPipe => PlacementDescriptor::Alone,
    }
}

impl From<PlacementDescriptor> for PipelineInvocation {
    fn from(value: PlacementDescriptor) -> (r: Self) {
        match value {
            PlacementDescriptor::First => PipelineInvocation::PipeOut,
            PlacementDescriptor::Middle => PipelineInvocation::PipeInOut,
            PlacementDescriptor::Last => PipelineInvocation::PipeIn,
            PlacementDescriptor::Alone => PipelineInvocation::NoPipe,
        }
    }
}

impl vstd::std_specs::convert::FromSpecImpl<PlacementDescriptor> for PipelineInvocation {
    open spec fn obeys_from_spec() -> bool {
        true
    }

    open spec fn from_spec(v: PlacementDescriptor) -> PipelineInvocation {
        invocation_of(v)
    }
}

impl From<PipelineInvocation> for PlacementDescriptor {
    fn from(value: PipelineInvocation) -> (r: Self) {
        match value {
            PipelineInvocation::PipeIn => PlacementDescriptor::Last,
            PipelineInvocation::PipeOut => PlacementDescriptor::First,
            PipelineInvocation::PipeInOut => PlacementDescriptor::Middle,
            PipelineInvocation::NoPipe => PlacementDescriptor::Alone,
        }
    }
}

impl vstd::std_specs::convert::FromSpecImpl<PipelineInvocation> for PlacementDescriptor {
    open spec fn obeys_from_spec() -> bool {
        true
    }

    open spec fn from_spec(v: PipelineInvocation) -> PlacementDescriptor {
        placement_of(v)
    }
}

impl PipelineInvocation {
    /// The placement this invocation stands in.
    pub fn placement(&self) -> (r: PlacementDescriptor)
        ensures
            r == placement_of(*self),
    {
        match self {
            PipelineInvocation::PipeIn => PlacementDescriptor::Last,
            PipelineInvocation::PipeOut => PlacementDescriptor::First,
            PipelineInvocation::PipeInOut => PlacementDescriptor::Middle,
            PipelineInvocation::NoPipe => PlacementDescriptor::Alone,
        }
    }
}

/// Converting a placement to an invocation and reading its placement
/// back returns the placement it began as.
pub proof fn lemma_placement_round_trip(p: PlacementDescriptor)
    ensures
        placement_of(invocation_of(p)) == p,
{
}

} // verus!

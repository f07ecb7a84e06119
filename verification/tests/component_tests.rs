use pq::pipeline::{PipelineInvocation, PlacementDescriptor};
use pq::window::{slice_window, WindowBound};

#[test]
fn placement_to_invocation() {
    assert_eq!(
        PipelineInvocation::from(PlacementDescriptor::First),
        PipelineInvocation::PipeOut
    );
    assert_eq!(
        PipelineInvocation::from(PlacementDescriptor::Middle),
        PipelineInvocation::PipeInOut
    );
    assert_eq!(
        PipelineInvocation::from(PlacementDescriptor::Last),
        PipelineInvocation::PipeIn
    );
    assert_eq!(
        PipelineInvocation::from(PlacementDescriptor::Alone),
        PipelineInvocation::NoPipe
    );
}

#[test]
fn invocation_to_placement() {
    assert_eq!(
        PlacementDescriptor::from(PipelineInvocation::PipeIn),
        PlacementDescriptor::Last
    );
    assert_eq!(
        PlacementDescriptor::from(PipelineInvocation::NoPipe),
        PlacementDescriptor::Alone
    );
}

#[test]
fn placement_method_matches_conversion() {
    assert_eq!(
        PipelineInvocation::PipeInOut.placement(),
        PlacementDescriptor::Middle
    );
    assert_eq!(
        PipelineInvocation::PipeOut.placement(),
        PlacementDescriptor::First
    );
}

#[test]
fn placement_round_trips() {
    let all = vec![
        PlacementDescriptor::First,
        PlacementDescriptor::Middle,
        PlacementDescriptor::Last,
        PlacementDescriptor::Alone,
    ];
    for p in all {
        assert_eq!(PipelineInvocation::from(p).placement(), p);
    }
}

#[test]
fn window_bounds_resolve() {
    assert_eq!(
        slice_window(5, WindowBound::Included { at: 2 }, WindowBound::Unbounded),
        (2, 5)
    );
    assert_eq!(
        slice_window(5, WindowBound::Unbounded, WindowBound::Excluded { at: 4 }),
        (0, 4)
    );
    assert_eq!(
        slice_window(5, WindowBound::Unbounded, WindowBound::Included { at: 4 }),
        (0, 4)
    );
}

//! The recursion bound of the shading engine.
use vstd::prelude::*;

verus! {

/// Deepest level at which a ray is still shaded; primary rays start at level 0.
pub const MAX_DEPTH: usize = 4;

/// What the shading engine does with a ray cast at some recursion level.
#[derive(Debug, Clone, Copy, PartialEq, Eq, Structural)]
pub enum TraceStep {
    /// The ray yields the fixed background color.
    Background,
    /// The hit surface is shaded; its reflected and refracted rays are cast at `child_depth`.
    Shade { child_depth: usize },
}

/// The step taken for a ray at level `depth`, given whether it hit the scene.
pub open spec fn trace_step_spec(depth: nat, hit: bool) -> TraceStep {
    if depth <= MAX_DEPTH && hit {
        TraceStep::Shade { child_depth: (depth + 1) as usize }
    } else {
        TraceStep::Background
    }
}

/// Decides whether a ray at level `depth` is shaded or ends in the background.
/// A ray past the depth bound ends in the background even when it hits, and a
/// ray that hits nothing ends there at every level.
pub fn trace_step(depth: usize, hit: bool) -> (r: TraceStep)
    ensures
        r == trace_step_spec(depth as nat, hit),
        depth > MAX_DEPTH ==> r == TraceStep::Background,
        !hit ==> r == TraceStep::Background,
        r matches TraceStep::Shade { child_depth } ==> child_depth == depth + 1
            && child_depth <= MAX_DEPTH + 1,
{
    if depth <= MAX_DEPTH && hit {
        TraceStep::Shade { child_depth: depth + 1 }
    } else {
        TraceStep::Background
    }
}

/// Recursion terminates: past the depth bound every ray ends in the background,
/// hit or not, and a shaded ray casts its children one level deeper, never past
/// one level below the bound.
pub proof fn lemma_recursion_bounded(depth: nat, hit: bool)
    ensures
        depth > MAX_DEPTH ==> trace_step_spec(depth, hit) == TraceStep::Background,
        trace_step_spec(depth, hit) matches TraceStep::Shade { child_depth } ==> depth
            < child_depth <= MAX_DEPTH + 1,
{
}

} // verus!

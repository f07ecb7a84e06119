use vstd::prelude::*;

verus! {

/// One edge of a printing window over a slice.
#[derive(Debug, Clone, Copy, PartialEq, Eq, Structural)]
pub enum WindowBound {
    Included { at: usize },
    Excluded { at: usize },
    Unbounded,
}

pub open spec fn window_start(b: WindowBound) -> int {
    match b {
        WindowBound::Included { at } => at as int,
        WindowBound::Excluded { at } => at as int,
        WindowBound::Unbounded => 0,
    }
}

pub open spec fn window_end(b: WindowBound, len: int) -> int {
    match b {
        WindowBound::Included { at } => at as int,
        WindowBound::Excluded { at } => at as int,
        WindowBound::Unbounded => len,
    }
}

/// The positions a pair of bounds selects over a slice of `len`
/// items.  An excluded lower bound has no defined meaning here and is
/// ruled out; both kinds of upper bound cut at their position.
pub fn slice_window(len: usize, start: WindowBound, end: WindowBound) -> (r: (usize, usize))
    requires
        !(start is Excluded),
    ensures
        r.0 == window_start(start),
        r.1 == window_end(end, len as int),
{
    let lo = match start {
        WindowBound::Included { at } => at,
        WindowBound::Excluded { at } => at,
        WindowBound::Unbounded => 0,
    };
    let hi = match end {
        WindowBound::Included { at } => at,
        WindowBound::Excluded { at } => at,
        WindowBound::Unbounded => len,
    };
    (lo, hi)
}

} // verus!

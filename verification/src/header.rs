//! Spacing of the chat pane's header row: segments laid left to right with
//! a fixed gap rule that both the width probe and the real layout follow.
use vstd::prelude::*;

verus! {

/// Gap before segment `i` of `n`: none before the first, a single space
/// before the trailing connection dot, two between the rest.
pub open spec fn gap_spec(i: int, n: int) -> int {
    if i == 0 {
        0
    } else if i + 1 == n {
        1
    } else {
        2
    }
}

pub fn gap(i: usize, n: usize) -> (r: usize)
    ensures
        r == gap_spec(i as int, n as int),
{
    if i == 0 {
        0
    } else if i < usize::MAX && i + 1 == n {
        1
    } else {
        2
    }
}

} // verus!

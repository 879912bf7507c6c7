//! Positions counted from either end of a sequence.

use vstd::prelude::*;

verus! {

/// The place that `i` names in a sequence of `len` items: `i` itself where
/// it is not negative, and `len + i` where it is, so that `-1` names the
/// last item. `None` where that is no place in the sequence.
pub open spec fn spec_resolve_index(i: int, len: nat) -> Option<nat> {
    if 0 <= i < len {
        Some(i as nat)
    } else if -len <= i < 0 {
        Some((len + i) as nat)
    } else {
        None
    }
}

/// The place that `i` names in a sequence of `len` items, counted from the
/// end where `i` is negative.
pub fn resolve_index(i: isize, len: usize) -> (place: Option<usize>)
    ensures
        match place {
            Some(p) => spec_resolve_index(i as int, len as nat) == Some(p as nat) && p < len,
            None => spec_resolve_index(i as int, len as nat) is None,
        },
{
    if i >= 0 {
        let p = i as usize;
        if p < len {
            Some(p)
        } else {
            None
        }
    } else {
        let back = (-(i + 1)) as usize + 1;
        if back <= len {
            Some(len - back)
        } else {
            None
        }
    }
}

} // verus!

//! Placing a strip in the middle of a wider one.

use vstd::prelude::*;

verus! {

/// The margin to leave before a strip of `inner` cells so that it sits in
/// the middle of `outer` cells: half of what is over, rounded down. There
/// is none if the strip does not fit or less than two cells are over.
pub open spec fn spec_center(outer: u16, inner: u16) -> Option<u16> {
    if outer >= inner && (outer - inner) / 2 > 0 {
        Some(((outer - inner) / 2) as u16)
    } else {
        None
    }
}

/// The margin that centres a strip of `inner` cells in `outer` cells, if
/// there is room for one.
#[verifier::when_used_as_spec(spec_center)]
pub fn center(outer: u16, inner: u16) -> (margin: Option<u16>)
    ensures
        margin == spec_center(outer, inner),
        margin matches Some(m) ==> m >= 1 && m + inner + m <= outer,
{
    if outer < inner {
        return None;
    }
    let margin = (outer - inner) / 2;
    if margin == 0 {
        None
    } else {
        Some(margin)
    }
}

} // verus!

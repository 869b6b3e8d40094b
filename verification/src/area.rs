//! Axis-aligned rectangles and the two tests every collision rule is built
//! from: whether two rectangles overlap and whether a point lies inside one.

use vstd::prelude::*;
use vstd::std_specs::convert::FromSpecImpl;

verus! {

/// A rectangle from `(left, bottom)` to `(right, top)`.
///
/// Edges are held in 64 bits so that the rectangle of any entity, whose
/// position is a 32-bit pixel coordinate, can always be formed.
#[derive(Copy, Clone, Debug, PartialEq, Eq, Structural)]
pub struct Area {
    pub left: i64,
    pub bottom: i64,
    pub right: i64,
    pub top: i64,
}

impl Area {
    /// The corners are in order: the rectangle may be flat but not inverted.
    pub open spec fn wf(self) -> bool {
        self.left <= self.right && self.bottom <= self.top
    }

    /// The rectangle has an interior.
    pub open spec fn non_degenerate(self) -> bool {
        self.left < self.right && self.bottom < self.top
    }

    /// The interiors of the two rectangles share a point: touching edges do
    /// not count.
    pub open spec fn spec_overlaps(&self, other: Area) -> bool {
        &&& self.left < other.right
        &&& self.right > other.left
        &&& self.top > other.bottom
        &&& self.bottom < other.top
    }

    /// The point lies strictly inside the rectangle.
    pub open spec fn spec_contains(&self, x: i64, y: i64) -> bool {
        self.left < x && x < self.right && self.bottom < y && y < self.top
    }

    /// The rectangle with the given corners.
    pub fn new(left: i64, bottom: i64, right: i64, top: i64) -> (area: Area)
        ensures
            area == (Area { left, bottom, right, top }),
    {
        Area { left, bottom, right, top }
    }

    /// Tells whether the two rectangles overlap.
    #[verifier::when_used_as_spec(spec_overlaps)]
    pub fn overlaps(&self, other: Area) -> (r: bool)
        ensures
            r == self.spec_overlaps(other),
    {
        self.left < other.right && self.right > other.left && self.top > other.bottom
            && self.bottom < other.top
    }

    /// Tells whether the point lies strictly inside the rectangle.
    #[verifier::when_used_as_spec(spec_contains)]
    pub fn contains(&self, x: i64, y: i64) -> (r: bool)
        ensures
            r == self.spec_contains(x, y),
    {
        self.left < x && x < self.right && self.bottom < y && y < self.top
    }

    /// Overlap does not depend on the order of the two rectangles.
    pub proof fn lemma_overlaps_symmetric(a: Area, b: Area)
        ensures
            a.overlaps(b) == b.overlaps(a),
    {
    }

    /// A rectangle with an interior overlaps itself.
    pub proof fn lemma_overlaps_reflexive(a: Area)
        requires
            a.non_degenerate(),
        ensures
            a.overlaps(a),
    {
    }

    /// A flat rectangle does not overlap itself, so the condition of
    /// `lemma_overlaps_reflexive` cannot be dropped.
    pub proof fn lemma_flat_not_reflexive(a: Area)
        requires
            a.wf(),
            !a.non_degenerate(),
        ensures
            !a.overlaps(a),
    {
    }

}

impl From<((i64, i64), (i64, i64))> for Area {
    /// The rectangle from the first corner, lower left, to the second.
    fn from(value: ((i64, i64), (i64, i64))) -> (area: Area) {
        let ((left, bottom), (right, top)) = value;
        Area::new(left, bottom, right, top)
    }
}

impl FromSpecImpl<((i64, i64), (i64, i64))> for Area {
    open spec fn obeys_from_spec() -> bool {
        true
    }

    open spec fn from_spec(value: ((i64, i64), (i64, i64))) -> Area {
        Area { left: value.0.0, bottom: value.0.1, right: value.1.0, top: value.1.1 }
    }
}

} // verus!

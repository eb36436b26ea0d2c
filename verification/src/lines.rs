//! The lines that a detector finds in a picture.

use vstd::prelude::*;

verus! {

/// A line from one point to another.
#[derive(Clone, Copy, Debug, PartialEq, Eq, Structural)]
pub struct LineSegment {
    pub x1: i32,
    pub y1: i32,
    pub x2: i32,
    pub y2: i32,
}

/// The largest aperture of the edge detector.
pub const MAX_APERTURE: i32 = 7;

/// The aperture that the edge detector is given: odd, and where that takes rounding up, no
/// larger than the largest.
pub open spec fn odd_aperture(aperture: int) -> int {
    if aperture % 2 != 0 {
        aperture
    } else if aperture + 1 < MAX_APERTURE {
        aperture + 1
    } else {
        MAX_APERTURE as int
    }
}

/// Rounds an even aperture up to an odd one, up to [`MAX_APERTURE`].
pub fn fixed_aperture(aperture: i32) -> (fixed: i32)
    ensures
        fixed == odd_aperture(aperture as int),
{
    if aperture % 2 == 0 {
        if aperture + 1 < MAX_APERTURE {
            aperture + 1
        } else {
            MAX_APERTURE
        }
    } else {
        aperture
    }
}

/// The extent of a line: how far its second point lies to the right of and below its first.
pub open spec fn spans(line: LineSegment, extent: (i32, i32)) -> bool {
    extent.0 == line.x2 - line.x1 && extent.1 == line.y2 - line.y1
}

impl LineSegment {
    /// How far the line goes to the right and down.
    pub fn extent(&self) -> (extent: (i32, i32))
        requires
            i32::MIN <= self.x2 - self.x1 <= i32::MAX,
            i32::MIN <= self.y2 - self.y1 <= i32::MAX,
        ensures
            spans(*self, extent),
            extent.0 == self.x2 - self.x1,
            extent.1 == self.y2 - self.y1,
    {
        (self.x2 - self.x1, self.y2 - self.y1)
    }
}

/// The lines for which `flat` holds, in their order.
pub open spec fn flat_lines(lines: Seq<LineSegment>, flat: Seq<bool>) -> Seq<LineSegment>
    decreases lines.len(),
{
    if lines.len() == 0 {
        Seq::empty()
    } else {
        let rest = flat_lines(lines.drop_last(), flat);
        if flat[lines.len() - 1] {
            rest.push(lines.last())
        } else {
            rest
        }
    }
}

/// Keeps the horizontal ones of some lines, in their order: those for which `flat` holds.
pub fn horizontal_lines(lines: &Vec<LineSegment>, flat: &Vec<bool>) -> (kept: Vec<LineSegment>)
    requires
        lines@.len() <= flat@.len(),
    ensures
        kept@ == flat_lines(lines@, flat@),
{
    let mut kept: Vec<LineSegment> = Vec::new();
    let mut i: usize = 0;
    while i < lines.len()
        invariant
            i <= lines@.len(),
            lines@.len() <= flat@.len(),
            kept@ == flat_lines(lines@.take(i as int), flat@),
        decreases lines@.len() - i,
    {
        proof {
            assert(lines@.take(i + 1).drop_last() =~= lines@.take(i as int));
        }
        if flat[i] {
            kept.push(lines[i]);
        }
        i += 1;
    }
    proof {
        assert(lines@.take(lines@.len() as int) =~= lines@);
    }
    kept
}

} // verus!

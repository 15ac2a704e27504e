//! Integer screen geometry: points, rectangles and saturating arithmetic.
//!
//! All coordinates are unsigned pixels, so widths and heights are
//! non-negative by construction.

use vstd::prelude::*;

verus! {

/// A point in absolute (screen-space) pixel coordinates.
#[derive(Clone, Copy, PartialEq, Eq, Structural, Debug)]
pub struct Point {
    pub x: u32,
    pub y: u32,
}

/// An axis-aligned rectangle in absolute (screen-space) pixel coordinates.
#[derive(Clone, Copy, PartialEq, Eq, Structural, Debug)]
pub struct Rect {
    pub x: u32,
    pub y: u32,
    pub w: u32,
    pub h: u32,
}

/// Mathematical value of `a + b` clamped to `u32::MAX`.
pub open spec fn spec_sat_add(a: u32, b: u32) -> u32 {
    if a + b <= u32::MAX {
        (a + b) as u32
    } else {
        u32::MAX
    }
}

/// Saturating pixel addition; positions never wrap around.
pub fn sat_add(a: u32, b: u32) -> (r: u32)
    ensures
        r == spec_sat_add(a, b),
{
    if a <= u32::MAX - b {
        a + b
    } else {
        u32::MAX
    }
}

/// Whether `p` lies inside `r` (left/top edges inclusive, right/bottom
/// edges exclusive).
pub open spec fn spec_contains(r: Rect, p: Point) -> bool {
    r.x <= p.x < r.x + r.w && r.y <= p.y < r.y + r.h
}

/// Hit test of a single rectangle.
pub fn rect_contains(r: &Rect, p: &Point) -> (b: bool)
    ensures
        b == spec_contains(*r, *p),
{
    r.x <= p.x && (p.x as u64) < r.x as u64 + r.w as u64 && r.y <= p.y && (p.y as u64) < r.y as u64
        + r.h as u64
}

} // verus!

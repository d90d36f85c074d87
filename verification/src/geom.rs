//! Integer plane geometry: points, box sizes, and the axis-aligned
//! overlap test used by the collision resolver.

use vstd::prelude::*;

verus! {

/// A point or displacement in playfield coordinates (integer world units).
#[derive(Clone, Copy, PartialEq, Eq, Structural, Debug)]
pub struct Vec2i {
    pub x: i64,
    pub y: i64,
}

/// Full width and height of an axis-aligned box, in world units.
#[derive(Clone, Copy, PartialEq, Eq, Structural, Debug)]
pub struct Size2i {
    pub w: i64,
    pub h: i64,
}

/// Positive-area overlap of two axis-aligned boxes given by center and
/// full extent. Both inequalities are strict: boxes that merely touch
/// along an edge or corner do not overlap. Stated over doubled
/// coordinates so that no halving of extents is needed.
pub open spec fn rects_overlap(ap: Vec2i, asz: Size2i, bp: Vec2i, bsz: Size2i) -> bool {
    &&& 2 * ap.x - asz.w < 2 * bp.x + bsz.w
    &&& 2 * ap.x + asz.w > 2 * bp.x - bsz.w
    &&& 2 * ap.y - asz.h < 2 * bp.y + bsz.h
    &&& 2 * ap.y + asz.h > 2 * bp.y - bsz.h
}

/// Boolean axis-aligned box intersection: any positive-area overlap
/// counts, a graze does not. The arithmetic is carried out in `i128`,
/// where doubling and adding `i64` values cannot overflow.
pub fn collide(ap: Vec2i, asz: Size2i, bp: Vec2i, bsz: Size2i) -> (r: bool)
    ensures
        r == rects_overlap(ap, asz, bp, bsz),
{
    let ax: i128 = ap.x as i128;
    let ay: i128 = ap.y as i128;
    let aw: i128 = asz.w as i128;
    let ah: i128 = asz.h as i128;
    let bx: i128 = bp.x as i128;
    let by: i128 = bp.y as i128;
    let bw: i128 = bsz.w as i128;
    let bh: i128 = bsz.h as i128;
    2 * ax - aw < 2 * bx + bw && 2 * ax + aw > 2 * bx - bw && 2 * ay - ah < 2 * by + bh
        && 2 * ay + ah > 2 * by - bh
}

} // verus!

//! The strict overlap test for two axis-aligned rectangles.
//!
//! A rectangle is given by the encodings of four single-precision data: its
//! origin on each axis and its far edge on each axis (origin plus extent, as
//! the caller's arithmetic rounded it). Nothing asks that a far edge lie
//! beyond its origin: the comparisons are applied to what is given.

use vstd::prelude::*;
use crate::binary32::greater_than;
use crate::binary32::gt;
use crate::binary32::less_than;
use crate::binary32::lt;
use crate::binary32::nan;
use crate::binary32::ordinate;

verus! {

/// Rectangles A and B overlap when, on both axes, each origin lies strictly
/// before the other's far edge. All four comparisons are strict, so
/// rectangles that only share an edge do not overlap.
pub open spec fn overlaps(
    ax: u32,
    ay: u32,
    ax_far: u32,
    ay_far: u32,
    bx: u32,
    by: u32,
    bx_far: u32,
    by_far: u32,
) -> bool {
    lt(ax, bx_far) && gt(ax_far, bx) && lt(ay, by_far) && gt(ay_far, by)
}

/// The flag for two rectangles: 1 if they overlap, 0 if they do not.
pub fn detect_collision(
    ax: u32,
    ay: u32,
    ax_far: u32,
    ay_far: u32,
    bx: u32,
    by: u32,
    bx_far: u32,
    by_far: u32,
) -> (flag: i32)
    ensures
        flag == (if overlaps(ax, ay, ax_far, ay_far, bx, by, bx_far, by_far) { 1i32 } else { 0i32 }),
{
    let collision = less_than(ax, bx_far) && greater_than(ax_far, bx) && less_than(ay, by_far)
        && greater_than(ay_far, by);
    if collision {
        1
    } else {
        0
    }
}

/// Overlap does not depend on which rectangle is named first.
pub proof fn lemma_overlap_symmetric(
    ax: u32,
    ay: u32,
    ax_far: u32,
    ay_far: u32,
    bx: u32,
    by: u32,
    bx_far: u32,
    by_far: u32,
)
    ensures
        overlaps(ax, ay, ax_far, ay_far, bx, by, bx_far, by_far) == overlaps(
            bx,
            by,
            bx_far,
            by_far,
            ax,
            ay,
            ax_far,
            ay_far,
        ),
{
}

/// A NaN among the eight coordinates rules overlap out: no comparison with
/// a NaN holds, and each coordinate stands in one of the four.
pub proof fn lemma_nan_never_overlaps(
    ax: u32,
    ay: u32,
    ax_far: u32,
    ay_far: u32,
    bx: u32,
    by: u32,
    bx_far: u32,
    by_far: u32,
)
    requires
        nan(ax) || nan(ay) || nan(ax_far) || nan(ay_far) || nan(bx) || nan(by) || nan(bx_far)
            || nan(by_far),
    ensures
        !overlaps(ax, ay, ax_far, ay_far, bx, by, bx_far, by_far),
{
}

/// Rectangles that meet along an edge, or lie apart, on either axis do not
/// overlap: where A's far edge is at or before B's origin, or B's at or
/// before A's, the strict test fails.
pub proof fn lemma_touching_is_apart(
    ax: u32,
    ay: u32,
    ax_far: u32,
    ay_far: u32,
    bx: u32,
    by: u32,
    bx_far: u32,
    by_far: u32,
)
    requires
        ordinate(ax_far) <= ordinate(bx) || ordinate(bx_far) <= ordinate(ax) || ordinate(ay_far)
            <= ordinate(by) || ordinate(by_far) <= ordinate(ay),
    ensures
        !overlaps(ax, ay, ax_far, ay_far, bx, by, bx_far, by_far),
{
}

} // verus!

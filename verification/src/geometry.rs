//! Plain-value geometry for the drag-reorder group.
//!
//! The presentation layer owns the real rendered elements; it reports each
//! element's bounding box to the core as a [`Rect`] of integer pixel
//! coordinates and refreshes it whenever the element moves.  All distance
//! comparisons are made on doubled coordinates so that a box center that
//! falls on a half pixel (an odd width or height) is still represented
//! exactly: the center of a box is `2 * left + width` on the doubled scale,
//! and a pointer at `x` sits at `2 * x`.

use vstd::prelude::*;

verus! {

use vstd::math::abs;

/// A bounding box reported by the presentation layer, in integer pixels.
#[derive(Clone, Copy, Debug, PartialEq, Eq, Structural)]
pub struct Rect {
    pub left: i32,
    pub top: i32,
    pub width: i32,
    pub height: i32,
}

/// Which screen axis is primary when choosing the nearest list.
///
/// `Stacked` lists sit side by side, so the pointer's horizontal position
/// picks the list and its vertical position picks the neighbor within it;
/// `Transposed` swaps the two axes.  The flag is fixed for the lifetime of
/// a reorder group.
#[derive(Clone, Copy, Debug, PartialEq, Eq, Structural)]
pub enum Orientation {
    Stacked,
    Transposed,
}

/// The box center on the primary axis, on the doubled scale.
pub open spec fn primary_center2(r: Rect, o: Orientation) -> int {
    match o {
        Orientation::Stacked => 2 * r.left + r.width,
        Orientation::Transposed => 2 * r.top + r.height,
    }
}

/// The box center on the secondary axis, on the doubled scale.
pub open spec fn secondary_center2(r: Rect, o: Orientation) -> int {
    match o {
        Orientation::Stacked => 2 * r.top + r.height,
        Orientation::Transposed => 2 * r.left + r.width,
    }
}

/// The pointer position on the primary axis, on the doubled scale.
pub open spec fn primary_pointer2(o: Orientation, x: int, y: int) -> int {
    match o {
        Orientation::Stacked => 2 * x,
        Orientation::Transposed => 2 * y,
    }
}

/// The pointer position on the secondary axis, on the doubled scale.
pub open spec fn secondary_pointer2(o: Orientation, x: int, y: int) -> int {
    match o {
        Orientation::Stacked => 2 * y,
        Orientation::Transposed => 2 * x,
    }
}

/// Distance between the pointer and a box center along the primary axis.
pub open spec fn primary_dist(r: Rect, o: Orientation, x: int, y: int) -> int {
    abs(primary_pointer2(o, x, y) - primary_center2(r, o)) as int
}

/// Distance between the pointer and a box center along the secondary axis.
pub open spec fn secondary_dist(r: Rect, o: Orientation, x: int, y: int) -> int {
    abs(secondary_pointer2(o, x, y) - secondary_center2(r, o)) as int
}

/// Computes `primary_dist` at run time.
pub fn primary_distance(r: &Rect, o: Orientation, x: i32, y: i32) -> (d: i64)
    ensures
        d == primary_dist(*r, o, x as int, y as int),
{
    let p: i64 = match o {
        Orientation::Stacked => 2 * (x as i64),
        Orientation::Transposed => 2 * (y as i64),
    };
    let c: i64 = match o {
        Orientation::Stacked => 2 * (r.left as i64) + (r.width as i64),
        Orientation::Transposed => 2 * (r.top as i64) + (r.height as i64),
    };
    if p < c {
        c - p
    } else {
        p - c
    }
}

/// Computes `secondary_dist` at run time.
pub fn secondary_distance(r: &Rect, o: Orientation, x: i32, y: i32) -> (d: i64)
    ensures
        d == secondary_dist(*r, o, x as int, y as int),
{
    let p: i64 = match o {
        Orientation::Stacked => 2 * (y as i64),
        Orientation::Transposed => 2 * (x as i64),
    };
    let c: i64 = match o {
        Orientation::Stacked => 2 * (r.top as i64) + (r.height as i64),
        Orientation::Transposed => 2 * (r.left as i64) + (r.width as i64),
    };
    if p < c {
        c - p
    } else {
        p - c
    }
}

/// True when the pointer sits strictly before the box center on the
/// secondary axis, which classifies a hover as `Above` rather than `Below`.
pub fn before_secondary_center(r: &Rect, o: Orientation, x: i32, y: i32) -> (b: bool)
    ensures
        b == (secondary_pointer2(o, x as int, y as int) < secondary_center2(*r, o)),
{
    let p: i64 = match o {
        Orientation::Stacked => 2 * (y as i64),
        Orientation::Transposed => 2 * (x as i64),
    };
    let c: i64 = match o {
        Orientation::Stacked => 2 * (r.top as i64) + (r.height as i64),
        Orientation::Transposed => 2 * (r.left as i64) + (r.width as i64),
    };
    p < c
}

} // verus!

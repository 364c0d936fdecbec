//! Coordinates on the signed 8-bit grid: clamped offsets, axis directions and
//! adjacency.

use vstd::prelude::*;

verus! {

/// A coordinate pushed back into the signed 8-bit range.
pub open spec fn clamp_coord(v: int) -> i8 {
    if v < i8::MIN {
        i8::MIN
    } else if v > i8::MAX {
        i8::MAX
    } else {
        v as i8
    }
}

/// `a + d`, held to the signed 8-bit range.
pub fn offset_coord(a: i8, d: i64) -> (r: i8)
    requires
        -0x1000_0000 <= d <= 0x1000_0000,
    ensures
        r == clamp_coord(a + d),
{
    let v: i64 = a as i64 + d;
    if v < i8::MIN as i64 {
        i8::MIN
    } else if v > i8::MAX as i64 {
        i8::MAX
    } else {
        v as i8
    }
}

/// `-a`, held to the signed 8-bit range (only `-128` is affected).
pub fn negate_coord(a: i8) -> (r: i8)
    ensures
        r == clamp_coord(-a),
{
    if a == i8::MIN {
        i8::MAX
    } else {
        -a
    }
}

/// The unit vector of a facing: 0 is +x, 1 is -x, 2 is +y, 3 is -y, 4 is +z,
/// and anything else is -z.
pub open spec fn facing(rotation: int) -> (int, int, int) {
    if rotation == 0 {
        (1, 0, 0)
    } else if rotation == 1 {
        (-1, 0, 0)
    } else if rotation == 2 {
        (0, 1, 0)
    } else if rotation == 3 {
        (0, -1, 0)
    } else if rotation == 4 {
        (0, 0, 1)
    } else {
        (0, 0, -1)
    }
}

pub fn facing_vector(rotation: i8) -> (r: (i8, i8, i8))
    ensures
        (r.0 as int, r.1 as int, r.2 as int) == facing(rotation as int),
{
    match rotation {
        0 => (1, 0, 0),
        1 => (-1, 0, 0),
        2 => (0, 1, 0),
        3 => (0, -1, 0),
        4 => (0, 0, 1),
        _ => (0, 0, -1),
    }
}

pub open spec fn abs_diff(a: int, b: int) -> int {
    if a >= b { a - b } else { b - a }
}

/// Two positions within Chebyshev distance 1 of each other (a position is
/// adjacent to itself).
pub open spec fn adjacent(a: (int, int, int), b: (int, int, int)) -> bool {
    abs_diff(a.0, b.0) <= 1 && abs_diff(a.1, b.1) <= 1 && abs_diff(a.2, b.2) <= 1
}

pub fn is_adjacent(ax: i8, ay: i8, az: i8, bx: i8, by: i8, bz: i8) -> (r: bool)
    ensures
        r == adjacent((ax as int, ay as int, az as int), (bx as int, by as int, bz as int)),
{
    let dx: i16 = ax as i16 - bx as i16;
    let dy: i16 = ay as i16 - by as i16;
    let dz: i16 = az as i16 - bz as i16;
    -1 <= dx && dx <= 1 && -1 <= dy && dy <= 1 && -1 <= dz && dz <= 1
}

/// Along one axis of a ray: no movement where the direction is 0, else a
/// displacement of the direction's sign.
pub open spec fn along(d: int, diff: int) -> bool {
    if d == 0 {
        diff == 0
    } else if d > 0 {
        diff > 0
    } else {
        diff < 0
    }
}

/// `b` lies on the ray from `a` along the unit vector `dir`, strictly past `a`.
pub open spec fn on_ray(a: (int, int, int), dir: (int, int, int), b: (int, int, int)) -> bool {
    along(dir.0, b.0 - a.0) && along(dir.1, b.1 - a.1) && along(dir.2, b.2 - a.2)
}

fn is_along(d: i8, a: i8, b: i8) -> (r: bool)
    ensures
        r == along(d as int, b - a),
{
    let diff: i16 = b as i16 - a as i16;
    if d == 0 {
        diff == 0
    } else if d > 0 {
        diff > 0
    } else {
        diff < 0
    }
}

/// Whether `(bx, by, bz)` lies on the ray from `(ax, ay, az)` along `dir`.
pub fn is_on_ray(ax: i8, ay: i8, az: i8, dir: (i8, i8, i8), bx: i8, by: i8, bz: i8) -> (r: bool)
    ensures
        r == on_ray(
            (ax as int, ay as int, az as int),
            (dir.0 as int, dir.1 as int, dir.2 as int),
            (bx as int, by as int, bz as int),
        ),
{
    is_along(dir.0, ax, bx) && is_along(dir.1, ay, by) && is_along(dir.2, az, bz)
}

} // verus!

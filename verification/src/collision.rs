//! Collision primitives: the cardinal directions, the result of a
//! circle-versus-rectangle test, and the classification of a penetration
//! vector to its nearest compass direction.

use vstd::prelude::*;
use crate::vector::{Vector2, abs_int, clamp_int};

verus! {

/// A cardinal compass direction.  `Up` points along positive `y` in vector
/// form, which is toward the bottom of the screen in this engine's
/// screen-space coordinates (the level loader puts the origin top-left).
#[derive(Clone, Copy, PartialEq, Eq, Structural, Debug)]
pub enum Direction {
    Up,
    Right,
    Down,
    Left,
}

/// The outcome of a collision test: a hit with its resolved direction and
/// the raw penetration vector, or no hit.
#[derive(Clone, Copy, PartialEq, Eq, Structural, Debug)]
pub enum Collision {
    Yes(Direction, Vector2),
    No,
}

/// The unit vector of a direction.
pub open spec fn direction_vec(d: Direction) -> Vector2 {
    match d {
        Direction::Up => Vector2 { x: 0, y: 1 },
        Direction::Right => Vector2 { x: 1, y: 0 },
        Direction::Down => Vector2 { x: 0, y: -1i64 },
        Direction::Left => Vector2 { x: -1i64, y: 0 },
    }
}

/// One step of the compass scan: a candidate direction replaces the best one
/// found so far only when its dot product is strictly larger.
pub open spec fn scan_step(best: Direction, max: int, cand: Direction, d: int) -> (Direction, int) {
    if d > max {
        (cand, d)
    } else {
        (best, max)
    }
}

/// The direction whose unit vector has the largest dot product with `v`,
/// scanned in the fixed order Up, Right, Down, Left against a running
/// maximum that starts at zero; ties keep the earlier direction.  The four
/// dot products with the unit compass vectors are `v.y`, `v.x`, `-v.y` and
/// `-v.x`, and they all scale by the same positive factor when `v` is
/// normalized, so comparing them unnormalized picks the same direction as
/// comparing against the normalized vector; the zero vector maps to `Up`.
pub open spec fn nearest_from_spec(v: Vector2) -> Direction {
    let s1 = scan_step(Direction::Up, 0, Direction::Up, v.y as int);
    let s2 = scan_step(s1.0, s1.1, Direction::Right, v.x as int);
    let s3 = scan_step(s2.0, s2.1, Direction::Down, -(v.y as int));
    let s4 = scan_step(s3.0, s3.1, Direction::Left, -(v.x as int));
    s4.0
}

impl Direction {
    /// The unit vector of this direction.
    pub fn vec(&self) -> (r: Vector2)
        ensures
            r == direction_vec(*self),
    {
        match *self {
            Direction::Up => Vector2 { x: 0, y: 1 },
            Direction::Right => Vector2 { x: 1, y: 0 },
            Direction::Down => Vector2 { x: 0, y: -1i64 },
            Direction::Left => Vector2 { x: -1i64, y: 0 },
        }
    }

    /// Classifies `target` to its nearest compass direction.
    pub fn nearest_from(target: &Vector2) -> (r: Self)
        requires
            target.x > i64::MIN,
            target.y > i64::MIN,
        ensures
            r == nearest_from_spec(*target),
    {
        let up: i64 = target.y;
        let right: i64 = target.x;
        let down: i64 = -target.y;
        let left: i64 = -target.x;

        let mut best = Direction::Up;
        let mut max: i64 = 0;
        if up > max {
            best = Direction::Up;
            max = up;
        }
        if right > max {
            best = Direction::Right;
            max = right;
        }
        if down > max {
            best = Direction::Down;
            max = down;
        }
        if left > max {
            best = Direction::Left;
            max = left;
        }
        best
    }
}

/// A penetration vector with equal positive pull toward `Up` and `Right`
/// (for example exactly `(1, 1)`) classifies as `Up`: the scan keeps the
/// earlier direction on a tie.
pub proof fn lemma_tie_resolves_up(v: Vector2)
    requires
        v.x == v.y,
        v.y > 0,
    ensures
        nearest_from_spec(v) == Direction::Up,
{
}

/// Squared Euclidean distance between the points `(ax, ay)` and `(bx, by)`.
pub open spec fn dist2(ax: int, ay: int, bx: int, by: int) -> int {
    (ax - bx) * (ax - bx) + (ay - by) * (ay - by)
}

/// On one axis, clamping the center's offset into the extent `[-h, h]`
/// around `rc` gives the point of that interval nearest to `c`.
pub proof fn lemma_clamp_nearest_1d(c: int, rc: int, h: int, q: int)
    requires
        h >= 0,
        rc - h <= q <= rc + h,
    ensures
        abs_int(rc + clamp_int(c - rc, -h, h) - c) <= abs_int(q - c),
{
}

/// The point `(rcx + clamp(cx - rcx), rcy + clamp(cy - rcy))` is the point
/// of the axis-aligned box centered at `(rcx, rcy)` with half-extents
/// `(hx, hy)` that lies nearest to `(cx, cy)`: no point `(qx, qy)` of the
/// box is strictly closer.
pub proof fn lemma_closest_point_in_box(
    cx: int,
    cy: int,
    rcx: int,
    rcy: int,
    hx: int,
    hy: int,
    qx: int,
    qy: int,
)
    requires
        hx >= 0,
        hy >= 0,
        rcx - hx <= qx <= rcx + hx,
        rcy - hy <= qy <= rcy + hy,
    ensures
        dist2(
            rcx + clamp_int(cx - rcx, -hx, hx),
            rcy + clamp_int(cy - rcy, -hy, hy),
            cx,
            cy,
        ) <= dist2(qx, qy, cx, cy),
{
    lemma_clamp_nearest_1d(cx, rcx, hx, qx);
    lemma_clamp_nearest_1d(cy, rcy, hy, qy);
    let px = rcx + clamp_int(cx - rcx, -hx, hx);
    let py = rcy + clamp_int(cy - rcy, -hy, hy);
    lemma_abs_square_le(px - cx, qx - cx);
    lemma_abs_square_le(py - cy, qy - cy);
}

/// Squares respect the ordering of absolute values.
pub proof fn lemma_abs_square_le(a: int, b: int)
    requires
        abs_int(a) <= abs_int(b),
    ensures
        a * a <= b * b,
{
    assert(a * a <= b * b) by (nonlinear_arith)
        requires
            abs_int(a) <= abs_int(b),
    ;
}

} // verus!

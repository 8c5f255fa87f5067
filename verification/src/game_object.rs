//! Game entities: the rectangular `GameObject` (bricks, the paddle) and the
//! `BallObject` that embeds one, with the ball's movement and rebound
//! physics and the circle-versus-rectangle collision test.

use vstd::prelude::*;
use vstd::arithmetic::div_mod::{
    lemma_basic_div,
    lemma_div_pos_is_pos,
    lemma_fundamental_div_mod,
    lemma_remainder,
};
use crate::collision::{Collision, Direction, dist2, nearest_from_spec};
use crate::renderer::{DrawCommand, SpriteRenderer};
use crate::units::{DIM_LIMIT, DT_LIMIT, POS_LIMIT, VEL_LIMIT};
use crate::vector::{
    Vector2,
    abs_i64,
    abs_int,
    clamp_i64,
    clamp_int,
    isqrt_ceil_u128,
    isqrt_u128,
    lemma_sqrt_ceil_bounds,
    lemma_sqrt_floor_bounds,
    mag2,
    sqrt_ceil,
    sqrt_floor,
    vec2,
};

verus! {

/// An RGB colour; each channel is given in thousandths of full intensity,
/// 0 through 1000.
#[derive(Clone, Copy, PartialEq, Eq, Structural, Debug)]
pub struct Colour {
    pub r: i64,
    pub g: i64,
    pub b: i64,
}

/// The paddle's size: 100 by 20 pixels, in subunits.
pub const PLAYER_SIZE_X: i64 = 100_000_000;

/// See `PLAYER_SIZE_X`.
pub const PLAYER_SIZE_Y: i64 = 20_000_000;

/// The ball's canonical launch velocity, in subunits per millisecond
/// (100 pixels per second rightward, 350 pixels per second upward on the
/// screen, which is negative `y`).
pub const BALL_VELOCITY_X: i64 = 100_000;

/// See `BALL_VELOCITY_X`.
pub const BALL_VELOCITY_Y: i64 = -350_000;

/// The ball's canonical radius: 12.5 pixels, in subunits.
pub const BALL_RADIUS: i64 = 12_500_000;

/// The paddle's initial size.
pub fn initial_player_size() -> (r: Vector2)
    ensures
        r == (Vector2 { x: PLAYER_SIZE_X, y: PLAYER_SIZE_Y }),
{
    Vector2 { x: PLAYER_SIZE_X, y: PLAYER_SIZE_Y }
}

/// A mutable rectangular game object: axis-aligned, positioned by its
/// top-left corner, carrying an opaque sprite handle.
#[derive(Clone, Copy, PartialEq, Eq, Structural, Debug)]
pub struct GameObject {
    pub position: Vector2,
    pub size: Vector2,
    pub velocity: Vector2,
    pub colour: Colour,
    pub rotation: i64,
    pub is_solid: bool,
    pub is_destroyed: bool,
    pub sprite: u64,
}

/// Magnitude bounds under which every arithmetic step on an object is free
/// of overflow: position within `POS_LIMIT`, size within `[0, DIM_LIMIT]`,
/// squared speed within `VEL_LIMIT` squared.
pub open spec fn obj_wf(o: GameObject) -> bool {
    &&& -POS_LIMIT <= o.position.x <= POS_LIMIT
    &&& -POS_LIMIT <= o.position.y <= POS_LIMIT
    &&& 0 <= o.size.x <= DIM_LIMIT
    &&& 0 <= o.size.y <= DIM_LIMIT
    &&& mag2(o.velocity) <= VEL_LIMIT * VEL_LIMIT
}

impl GameObject {
    /// A new object at `position` of `size`, with the given sprite and
    /// colour, at rest, unrotated, neither solid nor destroyed.
    pub fn new(position: Vector2, size: Vector2, sprite: u64, colour: Colour) -> (r: Self)
        ensures
            r == (GameObject {
                position,
                size,
                velocity: Vector2 { x: 0, y: 0 },
                colour,
                rotation: 0,
                is_solid: false,
                is_destroyed: false,
                sprite,
            }),
    {
        GameObject {
            position,
            size,
            velocity: Vector2 { x: 0, y: 0 },
            colour,
            rotation: 0,
            is_solid: false,
            is_destroyed: false,
            sprite,
        }
    }

    /// Records this object as one sprite.
    pub fn draw(&self, renderer: &mut SpriteRenderer)
        ensures
            final(renderer).commands@ == old(renderer).commands@.push(draw_command_of(*self)),
    {
        renderer.draw_sprite(self.sprite, self.position, self.size, self.rotation, self.colour);
    }
}

/// The draw command an object produces.
pub open spec fn draw_command_of(o: GameObject) -> DrawCommand {
    DrawCommand {
        sprite: o.sprite,
        position: o.position,
        size: o.size,
        rotation: o.rotation,
        colour: o.colour,
    }
}

/// The ball: an embedded object whose size is tied to its radius, plus the
/// stuck-to-the-paddle flag.
#[derive(Clone, Copy, PartialEq, Eq, Structural, Debug)]
pub struct BallObject {
    pub obj: GameObject,
    pub radius: i64,
    pub stuck: bool,
}

/// A well-formed ball: a well-formed object whose size is exactly twice a
/// positive, bounded radius.
pub open spec fn ball_wf(b: BallObject) -> bool {
    &&& obj_wf(b.obj)
    &&& 0 < b.radius
    &&& 2 * b.radius <= DIM_LIMIT
    &&& b.obj.size.x == 2 * b.radius
    &&& b.obj.size.y == 2 * b.radius
}

/// A vector's components are bounded by any bound on its magnitude.
pub proof fn lemma_component_bound(v: Vector2, l: int)
    requires
        0 <= l,
        mag2(v) <= l * l,
    ensures
        abs_int(v.x as int) <= l,
        abs_int(v.y as int) <= l,
{
    assert(abs_int(v.x as int) <= l && abs_int(v.y as int) <= l) by (nonlinear_arith)
        requires
            0 <= l,
            (v.x as int) * (v.x as int) + (v.y as int) * (v.y as int) <= l * l,
    ;
}

/// Where the ball goes in one frame when it is not stuck: position advances
/// by `velocity * dt`, then the left, right and top walls reflect it, each
/// flipping the velocity sign on its axis and clamping the position onto
/// the wall.  There is no bottom wall: falling past the bottom is the miss
/// condition, observed separately through `is_below`.
pub open spec fn ball_move_spec(b: BallObject, dt: int, window_width: int) -> BallObject {
    if b.stuck {
        b
    } else {
        let px = b.obj.position.x + b.obj.velocity.x * dt;
        let py = b.obj.position.y + b.obj.velocity.y * dt;
        let vx = b.obj.velocity.x as int;
        let vy = b.obj.velocity.y as int;
        let rx = if px <= 0 {
            (0, -vx)
        } else if px + b.obj.size.x >= window_width {
            (window_width - b.obj.size.x, -vx)
        } else {
            (px, vx)
        };
        let ry = if py <= 0 {
            (0, -vy)
        } else {
            (py, vy)
        };
        BallObject {
            obj: GameObject {
                position: Vector2 { x: rx.0 as i64, y: ry.0 as i64 },
                velocity: Vector2 { x: rx.1 as i64, y: ry.1 as i64 },
                ..b.obj
            },
            ..b
        }
    }
}

impl BallObject {
    /// The canonical launch velocity.
    pub fn initial_velocity() -> (r: Vector2)
        ensures
            r == (Vector2 { x: BALL_VELOCITY_X, y: BALL_VELOCITY_Y }),
    {
        Vector2 { x: BALL_VELOCITY_X, y: BALL_VELOCITY_Y }
    }

    /// The canonical radius.
    pub fn initial_radius() -> (r: i64)
        ensures
            r == BALL_RADIUS,
    {
        BALL_RADIUS
    }

    /// A new ball, stuck, with size derived from its radius.
    pub fn new(
        position: Vector2,
        radius: i64,
        velocity: Vector2,
        sprite: u64,
        colour: Colour,
    ) -> (r: Self)
        requires
            0 < radius,
            2 * radius <= DIM_LIMIT,
        ensures
            r == (BallObject {
                obj: GameObject {
                    position,
                    size: Vector2 { x: (2 * radius) as i64, y: (2 * radius) as i64 },
                    velocity,
                    colour,
                    rotation: 0,
                    is_solid: false,
                    is_destroyed: false,
                    sprite,
                },
                radius,
                stuck: true,
            }),
    {
        let size = vec2(radius * 2, radius * 2);
        let mut obj = GameObject::new(position, size, sprite, colour);
        obj.velocity = velocity;
        BallObject { obj, radius, stuck: true }
    }

    /// Re-initializes position and velocity in place and sticks the ball
    /// back onto the paddle; everything else is kept.
    pub fn reset(&mut self, position: Vector2, velocity: Vector2)
        ensures
            *final(self) == (BallObject {
                obj: GameObject { position, velocity, ..old(self).obj },
                stuck: true,
                ..*old(self)
            }),
    {
        self.obj.position = position;
        self.obj.velocity = velocity;
        self.stuck = true;
    }

    /// Advances the ball by one frame of `delta_time` milliseconds inside a
    /// viewport `window_width` wide, reflecting off the side and top walls;
    /// a stuck ball does not move.
    pub fn do_move(&mut self, delta_time: i64, window_width: i64)
        requires
            0 <= delta_time <= DT_LIMIT,
            0 <= window_width <= DIM_LIMIT,
            ball_wf(*old(self)),
        ensures
            *final(self) == ball_move_spec(*old(self), delta_time as int, window_width as int),
            mag2(final(self).obj.velocity) == mag2(old(self).obj.velocity),
            final(self).obj.velocity.x == old(self).obj.velocity.x
                || final(self).obj.velocity.x == -old(self).obj.velocity.x,
            final(self).obj.velocity.y == old(self).obj.velocity.y
                || final(self).obj.velocity.y == -old(self).obj.velocity.y,
            !old(self).stuck ==> -DIM_LIMIT <= final(self).obj.position.x <= DIM_LIMIT,
            !old(self).stuck ==> final(self).obj.position.y == 0
                || final(self).obj.position.y
                    <= old(self).obj.position.y + VEL_LIMIT * DT_LIMIT,
            !old(self).stuck ==> 0 <= final(self).obj.position.y,
    {
        proof {
            lemma_component_bound(self.obj.velocity, VEL_LIMIT as int);
            let vx = self.obj.velocity.x as int;
            let vy = self.obj.velocity.y as int;
            assert(-(VEL_LIMIT * DT_LIMIT) <= vx * delta_time <= VEL_LIMIT * DT_LIMIT
                && -(VEL_LIMIT * DT_LIMIT) <= vy * delta_time <= VEL_LIMIT * DT_LIMIT)
                by (nonlinear_arith)
                requires
                    abs_int(vx) <= VEL_LIMIT,
                    abs_int(vy) <= VEL_LIMIT,
                    0 <= delta_time <= DT_LIMIT,
            ;
        }
        if !self.stuck {
            let sx = self.obj.velocity.x * delta_time;
            let sy = self.obj.velocity.y * delta_time;
            self.obj.position.x = self.obj.position.x + sx;
            self.obj.position.y = self.obj.position.y + sy;
            if self.obj.position.x <= 0 {
                self.obj.velocity.x = -self.obj.velocity.x;
                self.obj.position.x = 0;
            } else if self.obj.position.x + self.obj.size.x >= window_width {
                self.obj.velocity.x = -self.obj.velocity.x;
                self.obj.position.x = window_width - self.obj.size.x;
            }
            if self.obj.position.y <= 0 {
                self.obj.velocity.y = -self.obj.velocity.y;
                self.obj.position.y = 0;
            }
        }
        proof {
            let a = old(self).obj.velocity;
            let c = self.obj.velocity;
            assert(mag2(c) == mag2(a)) by (nonlinear_arith)
                requires
                    c.x == a.x || c.x == -(a.x as int),
                    c.y == a.y || c.y == -(a.y as int),
            ;
        }
    }

    /// Whether the ball is stuck to the paddle.
    pub fn is_stuck(&self) -> (r: bool)
        ensures
            r == self.stuck,
    {
        self.stuck
    }

    /// Releases the ball from the paddle.
    pub fn release(&mut self)
        ensures
            *final(self) == (BallObject { stuck: false, ..*old(self) }),
    {
        self.stuck = false;
    }

    /// Whether the ball has fallen strictly past `y`.
    pub fn is_below(&self, y: i64) -> (r: bool)
        ensures
            r == (self.obj.position.y > y),
    {
        self.obj.position.y > y
    }

    /// Shifts the ball horizontally by the paddle's realized movement, so a
    /// stuck ball rides the paddle.
    pub fn move_with_paddle(&mut self, dx: i64)
        requires
            -POS_LIMIT <= old(self).obj.position.x + dx <= POS_LIMIT,
        ensures
            *final(self) == (BallObject {
                obj: GameObject {
                    position: Vector2 {
                        x: (old(self).obj.position.x + dx) as i64,
                        y: old(self).obj.position.y,
                    },
                    ..old(self).obj
                },
                ..*old(self)
            }),
    {
        self.obj.position.x = self.obj.position.x + dx;
    }

    /// Records the ball's sprite.
    pub fn draw(&self, renderer: &mut SpriteRenderer)
        ensures
            final(renderer).commands@ == old(renderer).commands@.push(draw_command_of(self.obj)),
    {
        self.obj.draw(renderer);
    }

    /// Tests this ball against a rectangle.  The closest point of the
    /// rectangle to the ball's center is found by clamping the center's
    /// offset from the rectangle's center into the half-extents; the test
    /// reports a hit exactly when the squared Euclidean distance from the
    /// ball's center to that point is at most the squared radius (for
    /// nonnegative quantities that is the same comparison as distance
    /// against radius).  On a hit the penetration vector is classified to
    /// its nearest compass direction.
    pub fn check_collision(&self, other: &GameObject) -> (r: Collision)
        requires
            -2 * POS_LIMIT <= self.obj.position.x <= 2 * POS_LIMIT,
            -2 * POS_LIMIT <= self.obj.position.y <= 2 * POS_LIMIT,
            0 < self.radius <= DIM_LIMIT,
            -2 * POS_LIMIT <= other.position.x <= 2 * POS_LIMIT,
            -2 * POS_LIMIT <= other.position.y <= 2 * POS_LIMIT,
            0 <= other.size.x <= DIM_LIMIT,
            0 <= other.size.y <= DIM_LIMIT,
        ensures
            r == check_collision_spec(*self, *other),
            (r matches Collision::No) <==> !hit_spec(*self, *other),
            hit_spec(*self, *other) ==> abs_int(penetration_x(*self, *other)) <= self.radius
                && abs_int(penetration_y(*self, *other)) <= self.radius,
            hit_spec(*self, *other) ==> abs_int(
                ball_center_x(*self) - rect_center_x(*other),
            ) <= half_x(*other) + self.radius,
    {
        let cx = self.obj.position.x + self.radius;
        let cy = self.obj.position.y + self.radius;
        let hx = other.size.x / 2;
        let hy = other.size.y / 2;
        let rcx = other.position.x + hx;
        let rcy = other.position.y + hy;
        let dx = cx - rcx;
        let dy = cy - rcy;
        let px = clamp_i64(dx, -hx, hx) - dx;
        let py = clamp_i64(dy, -hy, hy) - dy;
        proof {
            assert(abs_int(px as int) <= 20_000_000_000_000_000
                && abs_int(py as int) <= 20_000_000_000_000_000);
            assert(0 <= (px as int) * (px as int) <= 20_000_000_000_000_000int
                * 20_000_000_000_000_000int && 0 <= (py as int) * (py as int)
                <= 20_000_000_000_000_000int * 20_000_000_000_000_000int) by (nonlinear_arith)
                requires
                    abs_int(px as int) <= 20_000_000_000_000_000
                        && abs_int(py as int) <= 20_000_000_000_000_000,
            ;
            assert((px as i128) as int == px as int);
            assert((py as i128) as int == py as int);
            assert(0 <= (self.radius as int) * (self.radius as int)
                <= 1_000_000_000_000int * 1_000_000_000_000int) by (nonlinear_arith)
                requires
                    0 < self.radius <= 1_000_000_000_000,
            ;
            assert((self.radius as i128) as int == self.radius as int);
        }
        let p2 = (px as i128) * (px as i128) + (py as i128) * (py as i128);
        let r2 = (self.radius as i128) * (self.radius as i128);
        if p2 <= r2 {
            proof {
                lemma_pen_component_bounds(*self, *other);
            }
            Collision::Yes(Direction::nearest_from(&vec2(px, py)), vec2(px, py))
        } else {
            Collision::No
        }
    }
}

/// The `x` coordinate of the ball's center.
pub open spec fn ball_center_x(b: BallObject) -> int {
    b.obj.position.x + b.radius
}

/// The `y` coordinate of the ball's center.
pub open spec fn ball_center_y(b: BallObject) -> int {
    b.obj.position.y + b.radius
}

/// Half of a rectangle's width, rounded down.
pub open spec fn half_x(o: GameObject) -> int {
    (o.size.x as int) / 2
}

/// Half of a rectangle's height, rounded down.
pub open spec fn half_y(o: GameObject) -> int {
    (o.size.y as int) / 2
}

/// The `x` coordinate of a rectangle's center.
pub open spec fn rect_center_x(o: GameObject) -> int {
    o.position.x + half_x(o)
}

/// The `y` coordinate of a rectangle's center.
pub open spec fn rect_center_y(o: GameObject) -> int {
    o.position.y + half_y(o)
}

/// The `x` component of the penetration vector: the vector from the ball's
/// center to the point of the rectangle closest to it.
pub open spec fn penetration_x(b: BallObject, o: GameObject) -> int {
    let d = ball_center_x(b) - rect_center_x(o);
    clamp_int(d, -half_x(o), half_x(o)) - d
}

/// The `y` component of the penetration vector.
pub open spec fn penetration_y(b: BallObject, o: GameObject) -> int {
    let d = ball_center_y(b) - rect_center_y(o);
    clamp_int(d, -half_y(o), half_y(o)) - d
}

/// Whether ball and rectangle touch: the closest point of the rectangle
/// lies within the ball's radius of the ball's center.
pub open spec fn hit_spec(b: BallObject, o: GameObject) -> bool {
    let px = penetration_x(b, o);
    let py = penetration_y(b, o);
    px * px + py * py <= b.radius * b.radius
}

/// What `check_collision` returns: on a hit, the nearest compass direction
/// of the penetration vector together with the vector itself.
pub open spec fn check_collision_spec(b: BallObject, o: GameObject) -> Collision {
    if hit_spec(b, o) {
        let p = Vector2 { x: penetration_x(b, o) as i64, y: penetration_y(b, o) as i64 };
        Collision::Yes(nearest_from_spec(p), p)
    } else {
        Collision::No
    }
}

/// On a hit, each component of the penetration vector is bounded by the
/// radius, and the ball's center sits within half-extent plus radius of
/// the rectangle's center on each axis.
pub proof fn lemma_pen_component_bounds(b: BallObject, o: GameObject)
    requires
        hit_spec(b, o),
        0 < b.radius,
        0 <= o.size.x,
        0 <= o.size.y,
    ensures
        abs_int(penetration_x(b, o)) <= b.radius,
        abs_int(penetration_y(b, o)) <= b.radius,
        abs_int(ball_center_x(b) - rect_center_x(o)) <= half_x(o) + b.radius,
        abs_int(ball_center_y(b) - rect_center_y(o)) <= half_y(o) + b.radius,
        0 <= half_x(o) ==> abs_int(penetration_x(b, o)) <= abs_int(
            ball_center_x(b) - rect_center_x(o),
        ),
{
    let px = penetration_x(b, o);
    let py = penetration_y(b, o);
    assert(abs_int(px) <= b.radius && abs_int(py) <= b.radius) by (nonlinear_arith)
        requires
            px * px + py * py <= b.radius * b.radius,
            0 < b.radius,
    ;
    let dx = ball_center_x(b) - rect_center_x(o);
    let hx = half_x(o);
    assert(px == clamp_int(dx, -hx, hx) - dx);
    if dx > hx {
        assert(abs_int(px) == dx - hx);
    } else if dx < -hx {
        assert(abs_int(px) == -hx - dx);
    }
    let dy = ball_center_y(b) - rect_center_y(o);
    let hy = half_y(o);
    assert(py == clamp_int(dy, -hy, hy) - dy);
    if dy > hy {
        assert(abs_int(py) == dy - hy);
    } else if dy < -hy {
        assert(abs_int(py) == -hy - dy);
    }
}

/// The hit test agrees with the closest-point formulation: the ball hits
/// the rectangle exactly when the squared distance from the ball's center
/// to the closest point of the box spanned by the rectangle's center and
/// half-extents is at most the squared radius, and no point of that box is
/// closer than the closest point.
pub proof fn lemma_hit_is_closest_point(b: BallObject, o: GameObject, qx: int, qy: int)
    requires
        rect_center_x(o) - half_x(o) <= qx <= rect_center_x(o) + half_x(o),
        rect_center_y(o) - half_y(o) <= qy <= rect_center_y(o) + half_y(o),
        0 <= o.size.x,
        0 <= o.size.y,
    ensures
        hit_spec(b, o) <==> dist2(
            rect_center_x(o) + clamp_int(ball_center_x(b) - rect_center_x(o), -half_x(o), half_x(o)),
            rect_center_y(o) + clamp_int(ball_center_y(b) - rect_center_y(o), -half_y(o), half_y(o)),
            ball_center_x(b),
            ball_center_y(b),
        ) <= b.radius * b.radius,
        dist2(
            rect_center_x(o) + clamp_int(ball_center_x(b) - rect_center_x(o), -half_x(o), half_x(o)),
            rect_center_y(o) + clamp_int(ball_center_y(b) - rect_center_y(o), -half_y(o), half_y(o)),
            ball_center_x(b),
            ball_center_y(b),
        ) <= dist2(qx, qy, ball_center_x(b), ball_center_y(b)),
{
    crate::collision::lemma_closest_point_in_box(
        ball_center_x(b),
        ball_center_y(b),
        rect_center_x(o),
        rect_center_y(o),
        half_x(o),
        half_y(o),
        qx,
        qy,
    );
}

/// How a brick rebound changes the ball: the velocity component along the
/// hit axis flips sign, and the position is pushed out of the brick along
/// that axis by the penetration depth, the radius less the penetration
/// vector's magnitude on that axis.
pub open spec fn rebound_brick_spec(b: BallObject, direction: Direction, difference: Vector2) -> BallObject {
    match direction {
        Direction::Left => {
            let pen = b.radius - abs_int(difference.x as int);
            BallObject {
                obj: GameObject {
                    velocity: Vector2 { x: (-(b.obj.velocity.x as int)) as i64, y: b.obj.velocity.y },
                    position: Vector2 { x: (b.obj.position.x + pen) as i64, y: b.obj.position.y },
                    ..b.obj
                },
                ..b
            }
        },
        Direction::Right => {
            let pen = b.radius - abs_int(difference.x as int);
            BallObject {
                obj: GameObject {
                    velocity: Vector2 { x: (-(b.obj.velocity.x as int)) as i64, y: b.obj.velocity.y },
                    position: Vector2 { x: (b.obj.position.x - pen) as i64, y: b.obj.position.y },
                    ..b.obj
                },
                ..b
            }
        },
        Direction::Up => {
            let pen = b.radius - abs_int(difference.y as int);
            BallObject {
                obj: GameObject {
                    velocity: Vector2 { x: b.obj.velocity.x, y: (-(b.obj.velocity.y as int)) as i64 },
                    position: Vector2 { x: b.obj.position.x, y: (b.obj.position.y - pen) as i64 },
                    ..b.obj
                },
                ..b
            }
        },
        Direction::Down => {
            let pen = b.radius - abs_int(difference.y as int);
            BallObject {
                obj: GameObject {
                    velocity: Vector2 { x: b.obj.velocity.x, y: (-(b.obj.velocity.y as int)) as i64 },
                    position: Vector2 { x: b.obj.position.x, y: (b.obj.position.y + pen) as i64 },
                    ..b.obj
                },
                ..b
            }
        },
    }
}

/// Applying the brick rebound twice with the same direction and
/// penetration vector flips the velocity back to its original value, but
/// the position displacement compounds: the ball ends twice the
/// penetration depth away along the pushed axis, not back where it was.
pub proof fn lemma_rebound_brick_twice(b: BallObject, direction: Direction, difference: Vector2)
    requires
        -2 * POS_LIMIT <= b.obj.position.x <= 2 * POS_LIMIT,
        -2 * POS_LIMIT <= b.obj.position.y <= 2 * POS_LIMIT,
        0 < b.radius <= DIM_LIMIT,
        abs_int(difference.x as int) <= b.radius,
        abs_int(difference.y as int) <= b.radius,
        mag2(b.obj.velocity) <= VEL_LIMIT * VEL_LIMIT,
    ensures
        rebound_brick_spec(
            rebound_brick_spec(b, direction, difference),
            direction,
            difference,
        ).obj.velocity == b.obj.velocity,
        ({
            let twice = rebound_brick_spec(
                rebound_brick_spec(b, direction, difference),
                direction,
                difference,
            );
            let pen_x = b.radius - abs_int(difference.x as int);
            let pen_y = b.radius - abs_int(difference.y as int);
            match direction {
                Direction::Left => twice.obj.position.x == b.obj.position.x + 2 * pen_x
                    && twice.obj.position.y == b.obj.position.y,
                Direction::Right => twice.obj.position.x == b.obj.position.x - 2 * pen_x
                    && twice.obj.position.y == b.obj.position.y,
                Direction::Up => twice.obj.position.y == b.obj.position.y - 2 * pen_y
                    && twice.obj.position.x == b.obj.position.x,
                Direction::Down => twice.obj.position.y == b.obj.position.y + 2 * pen_y
                    && twice.obj.position.x == b.obj.position.x,
            }
        }),
{
    lemma_component_bound(b.obj.velocity, VEL_LIMIT as int);
}

/// Scaling a magnitude `a` by `s / m` with integer division stays within
/// `[0, s]` whenever `a <= m`.
pub proof fn lemma_div_scale_le(a: int, s: int, m: int)
    requires
        0 <= a,
        0 <= s,
        1 <= m,
        a <= m,
    ensures
        0 <= a * s / m <= s,
{
    assert(0 <= a * s && a * s <= m * s) by (nonlinear_arith)
        requires
            0 <= a && 0 <= s && a <= m,
    ;
    let x = a * s / m;
    lemma_div_pos_is_pos(a * s, m);
    lemma_fundamental_div_mod(a * s, m);
    lemma_remainder(a * s, m);
    assert(m * x <= a * s);
    assert(x <= s) by (nonlinear_arith)
        requires
            m * x <= m * s && 1 <= m,
    ;
}

/// Rescaling the vector `(a, b)` to length `s` by integer arithmetic never
/// exceeds `s`: with `m` at least the true magnitude of `(a, b)`, the
/// components `a * s / m` and `b * s / m` have squared magnitude at most
/// `s * s`.
pub proof fn lemma_rescale_upper(a: int, b: int, s: int, m: int)
    requires
        0 <= a,
        0 <= b,
        0 <= s,
        1 <= m,
        a * a + b * b <= m * m,
    ensures
        (a * s / m) * (a * s / m) + (b * s / m) * (b * s / m) <= s * s,
{
    assert(a <= m && b <= m) by (nonlinear_arith)
        requires
            0 <= a && 0 <= b && 1 <= m && a * a + b * b <= m * m,
    ;
    let x = a * s / m;
    let y = b * s / m;
    lemma_div_scale_le(a, s, m);
    lemma_div_scale_le(b, s, m);
    lemma_fundamental_div_mod(a * s, m);
    lemma_remainder(a * s, m);
    lemma_fundamental_div_mod(b * s, m);
    lemma_remainder(b * s, m);
    assert(0 <= a * s && 0 <= b * s) by (nonlinear_arith)
        requires
            0 <= a && 0 <= b && 0 <= s,
    ;
    assert(m * x <= a * s);
    assert(m * y <= b * s);
    assert((m * x) * (m * x) <= (a * s) * (a * s)) by (nonlinear_arith)
        requires
            0 <= m * x && m * x <= a * s,
    ;
    assert((m * y) * (m * y) <= (b * s) * (b * s)) by (nonlinear_arith)
        requires
            0 <= m * y && m * y <= b * s,
    ;
    assert((m * x) * (m * x) + (m * y) * (m * y) == m * m * (x * x + y * y)) by (nonlinear_arith);
    assert((a * s) * (a * s) + (b * s) * (b * s) == s * s * (a * a + b * b)) by (nonlinear_arith);
    assert(m * m * (x * x + y * y) <= s * s * (a * a + b * b));
    assert(s * s * (a * a + b * b) <= s * s * (m * m)) by (nonlinear_arith)
        requires
            a * a + b * b <= m * m && 0 <= s * s,
    ;
    assert(x * x + y * y <= s * s) by (nonlinear_arith)
        requires
            m * m * (x * x + y * y) <= s * s * (m * m) && 1 <= m,
    ;
}

/// The integer rescaling also cannot fall far short of `s`: with `m` the
/// true magnitude of `(a, b)` rounded up, the squared magnitude of the
/// rescaled vector, scaled by `m * m`, is within `2 * s * s * m +
/// 4 * s * m * m` of `s * s * m * m` — a relative shortfall of roughly
/// `2 / m + 4 / s`.
pub proof fn lemma_rescale_lower(a: int, b: int, s: int, m: int)
    requires
        0 <= a,
        0 <= b,
        0 <= s,
        1 <= m,
        (m - 1) * (m - 1) < a * a + b * b,
        a * a + b * b <= m * m,
    ensures
        m * m * ((a * s / m) * (a * s / m) + (b * s / m) * (b * s / m)) + 2 * s * s * m + 4 * s * m
            * m >= s * s * m * m,
{
    assert(a <= m && b <= m) by (nonlinear_arith)
        requires
            0 <= a && 0 <= b && 1 <= m && a * a + b * b <= m * m,
    ;
    let x = a * s / m;
    let y = b * s / m;
    assert(0 <= a * s && 0 <= b * s) by (nonlinear_arith)
        requires
            0 <= a && 0 <= b && 0 <= s,
    ;
    lemma_rescale_lower_component(a, s, m);
    lemma_rescale_lower_component(b, s, m);
    assert((m * x) * (m * x) >= (a * s - m) * (a * s - m) - m * m);
    assert((m * y) * (m * y) >= (b * s - m) * (b * s - m) - m * m);
    assert((m * x) * (m * x) + (m * y) * (m * y) == m * m * (x * x + y * y)) by (nonlinear_arith);
    assert((a * s - m) * (a * s - m) == (a * s) * (a * s) - 2 * (a * s) * m + m * m)
        by (nonlinear_arith);
    assert((b * s - m) * (b * s - m) == (b * s) * (b * s) - 2 * (b * s) * m + m * m)
        by (nonlinear_arith);
    assert((a * s) * (a * s) + (b * s) * (b * s) == s * s * (a * a + b * b)) by (nonlinear_arith);
    assert(2 * (a * s) * m + 2 * (b * s) * m == 2 * m * s * (a + b)) by (nonlinear_arith);
    assert((a * s - m) * (a * s - m) + (b * s - m) * (b * s - m) == s * s * (a * a + b * b) - 2 * m
        * s * (a + b) + 2 * (m * m));
    assert(m * m * (x * x + y * y) >= s * s * (a * a + b * b) - 2 * m * s * (a + b));
    assert(2 * m * s * (a + b) <= 4 * s * m * m) by (nonlinear_arith)
        requires
            a <= m && b <= m && 0 <= s && 1 <= m,
    ;
    assert(s * s * (a * a + b * b) >= s * s * m * m - 2 * s * s * m) by (nonlinear_arith)
        requires
            (m - 1) * (m - 1) < a * a + b * b && 0 <= s,
    ;
}

/// One axis of the lower bound: `(m * (a * s / m))^2` is at least
/// `(a * s - m)^2 - m^2`.
pub proof fn lemma_rescale_lower_component(a: int, s: int, m: int)
    requires
        0 <= a,
        0 <= s,
        1 <= m,
    ensures
        (m * (a * s / m)) * (m * (a * s / m)) >= (a * s - m) * (a * s - m) - m * m,
{
    let x = a * s / m;
    assert(0 <= a * s) by (nonlinear_arith)
        requires
            0 <= a && 0 <= s,
    ;
    lemma_div_pos_is_pos(a * s, m);
    lemma_fundamental_div_mod(a * s, m);
    lemma_remainder(a * s, m);
    if a * s >= m {
        assert(m * x > a * s - m);
        assert((m * x) * (m * x) >= (a * s - m) * (a * s - m)) by (nonlinear_arith)
            requires
                m * x > a * s - m && a * s - m >= 0,
        ;
    } else {
        lemma_basic_div(a * s, m);
        assert(x == 0);
        assert((a * s - m) * (a * s - m) - m * m <= 0) by (nonlinear_arith)
            requires
                0 <= a * s && a * s < m,
        ;
    }
}

/// Half of the paddle's width, rounded down.
pub open spec fn paddle_half(p: GameObject) -> int {
    (p.size.x as int) / 2
}

/// How far the ball's center sits from the paddle's center, signed.
pub open spec fn paddle_distance(b: BallObject, p: GameObject) -> int {
    b.obj.position.x + b.radius - (p.position.x + paddle_half(p))
}

/// The magnitude of the new horizontal velocity before renormalization:
/// the canonical launch speed, scaled by the rebound strength of two and by
/// how far off-center the ball struck, as a fraction of the paddle's half
/// width.  The fraction is deliberately not clamped to one: a grazing hit
/// beyond the paddle's corner yields a proportionally larger pull.
pub open spec fn bounce_raw_x_mag(b: BallObject, p: GameObject) -> int {
    2 * BALL_VELOCITY_X * abs_int(paddle_distance(b, p)) / paddle_half(p)
}

/// The magnitude of the new vertical velocity before renormalization.
pub open spec fn bounce_raw_y_mag(b: BallObject) -> int {
    abs_int(b.obj.velocity.y as int)
}

/// Squared magnitude of the unnormalized rebound velocity.
pub open spec fn bounce_m2(b: BallObject, p: GameObject) -> int {
    bounce_raw_x_mag(b, p) * bounce_raw_x_mag(b, p) + bounce_raw_y_mag(b) * bounce_raw_y_mag(b)
}

/// How a paddle rebound changes the ball: the horizontal velocity is set
/// from how far off-center the ball struck, the vertical velocity is
/// redirected upward, and the result is rescaled to the speed the ball had
/// before (rounded down by the integer square roots, with the divisor
/// rounded up, so the speed never grows).  A degenerate strike whose
/// unnormalized velocity is the zero vector leaves the ball at rest.
pub open spec fn rebound_paddle_spec(b: BallObject, p: GameObject) -> BallObject {
    let s = sqrt_floor(mag2(b.obj.velocity) as nat) as int;
    let ax = bounce_raw_x_mag(b, p);
    let ay = bounce_raw_y_mag(b);
    let m2 = ax * ax + ay * ay;
    let v = if m2 == 0 {
        Vector2 { x: 0i64, y: 0i64 }
    } else {
        let m = sqrt_ceil(m2 as nat) as int;
        let mx = ax * s / m;
        let my = ay * s / m;
        Vector2 {
            x: (if paddle_distance(b, p) >= 0 {
                mx
            } else {
                -mx
            }) as i64,
            y: (-my) as i64,
        }
    };
    BallObject { obj: GameObject { velocity: v, ..b.obj }, ..b }
}

impl BallObject {
    /// Bounces the ball off a brick after a detected hit: flips the
    /// velocity along the hit axis and pushes the ball out of the brick by
    /// the penetration depth.
    pub fn rebound_brick(&mut self, direction: Direction, difference: Vector2)
        requires
            -2 * POS_LIMIT <= old(self).obj.position.x <= 2 * POS_LIMIT,
            -2 * POS_LIMIT <= old(self).obj.position.y <= 2 * POS_LIMIT,
            0 < old(self).radius <= DIM_LIMIT,
            abs_int(difference.x as int) <= old(self).radius,
            abs_int(difference.y as int) <= old(self).radius,
            mag2(old(self).obj.velocity) <= VEL_LIMIT * VEL_LIMIT,
        ensures
            *final(self) == rebound_brick_spec(*old(self), direction, difference),
            mag2(final(self).obj.velocity) == mag2(old(self).obj.velocity),
    {
        proof {
            lemma_component_bound(self.obj.velocity, VEL_LIMIT as int);
        }
        match direction {
            Direction::Left | Direction::Right => {
                self.obj.velocity.x = -self.obj.velocity.x;
                let penetration = self.radius - abs_i64(difference.x);
                if let Direction::Left = direction {
                    self.obj.position.x = self.obj.position.x + penetration;
                } else {
                    self.obj.position.x = self.obj.position.x - penetration;
                }
            },
            Direction::Up | Direction::Down => {
                self.obj.velocity.y = -self.obj.velocity.y;
                let penetration = self.radius - abs_i64(difference.y);
                if let Direction::Up = direction {
                    self.obj.position.y = self.obj.position.y - penetration;
                } else {
                    self.obj.position.y = self.obj.position.y + penetration;
                }
            },
        }
        proof {
            let a = old(self).obj.velocity;
            let c = self.obj.velocity;
            assert(mag2(c) == mag2(a)) by (nonlinear_arith)
                requires
                    c.x == a.x || c.x == -(a.x as int),
                    c.y == a.y || c.y == -(a.y as int),
            ;
        }
    }

    /// Bounces the ball off the paddle after a detected hit, redirecting it
    /// upward and sideways according to where it struck, at the speed it
    /// arrived with (up to the rounding of the integer renormalization,
    /// which never lets the speed grow).
    pub fn rebound_paddle(&mut self, paddle: &GameObject)
        requires
            mag2(old(self).obj.velocity) <= VEL_LIMIT * VEL_LIMIT,
            0 < old(self).radius <= DIM_LIMIT,
            2 <= paddle.size.x <= DIM_LIMIT,
            old(self).radius <= paddle.size.x,
            -2 * POS_LIMIT <= old(self).obj.position.x <= 2 * POS_LIMIT,
            -2 * POS_LIMIT <= paddle.position.x <= 2 * POS_LIMIT,
            abs_int(paddle_distance(*old(self), *paddle)) <= paddle_half(*paddle) + old(
                self,
            ).radius,
        ensures
            *final(self) == rebound_paddle_spec(*old(self), *paddle),
            mag2(final(self).obj.velocity) <= mag2(old(self).obj.velocity),
    {
        proof {
            lemma_component_bound(self.obj.velocity, VEL_LIMIT as int);
        }
        let half = paddle.size.x / 2;
        let center = paddle.position.x + half;
        let distance = (self.obj.position.x + self.radius) - center;
        let dmag = abs_i64(distance);
        proof {
            assert(half >= 1);
            assert(dmag <= half + self.radius);
            assert(2 * BALL_VELOCITY_X * (dmag as int) <= 600_000_000_000_000_000int)
                by (nonlinear_arith)
                requires
                    0 <= dmag <= 1_500_000_000_000int,
            ;
        }
        let num = 2 * BALL_VELOCITY_X * dmag;
        let ax = num / half;
        let ay = abs_i64(self.obj.velocity.y);
        proof {
            assert(0 <= ax <= num);
            assert((ax as i128) as int == ax as int && (ay as i128) as int == ay as int);
            assert(0 <= (ax as int) * (ax as int) <= 600_000_000_000_000_000int
                * 600_000_000_000_000_000int && 0 <= (ay as int) * (ay as int)
                <= 600_000_000_000_000_000int * 600_000_000_000_000_000int) by (nonlinear_arith)
                requires
                    0 <= ax <= 600_000_000_000_000_000int && 0 <= ay <= 600_000_000_000_000_000int,
            ;
        }
        let m2 = (ax as i128) * (ax as i128) + (ay as i128) * (ay as i128);
        proof {
            let vx = self.obj.velocity.x as int;
            let vy = self.obj.velocity.y as int;
            assert(0 <= vx * vx && 0 <= vy * vy) by (nonlinear_arith);
            assert(((self.obj.velocity.x as i128) as int) == vx
                && ((self.obj.velocity.y as i128) as int) == vy);
        }
        let speed2 = (self.obj.velocity.x as i128) * (self.obj.velocity.x as i128) + (
        self.obj.velocity.y as i128) * (self.obj.velocity.y as i128);
        let s = isqrt_u128(speed2 as u128);
        proof {
            assert((s as int) * (s as int) <= VEL_LIMIT * VEL_LIMIT);
            assert(s as int <= VEL_LIMIT) by (nonlinear_arith)
                requires
                    0 <= s as int && (s as int) * (s as int) <= VEL_LIMIT * VEL_LIMIT,
            ;
        }
        proof {
            let vx = old(self).obj.velocity.x as int;
            let vy = old(self).obj.velocity.y as int;
            assert(speed2 as int == mag2(old(self).obj.velocity));
            assert((speed2 as u128) as int == speed2 as int);
            assert((s as int) * (s as int) <= mag2(old(self).obj.velocity));
        }
        if m2 == 0 {
            self.obj.velocity = vec2(0, 0);
            proof {
                assert(mag2(self.obj.velocity) == 0);
                let w = old(self).obj.velocity;
                assert(0 <= mag2(w)) by (nonlinear_arith);
            }
        } else {
            let m = isqrt_ceil_u128(m2 as u128);
            proof {
                lemma_sqrt_ceil_bounds((m2 as u128) as nat);
                assert((m2 as u128) as int == m2 as int);
                assert(m2 as int >= 1);
                assert(m >= 1) by (nonlinear_arith)
                    requires
                        0 <= m as int,
                        1 <= (m2 as u128) as int,
                        (m2 as u128) as int <= (m as int) * (m as int),
                ;
                assert(ax as int <= m as int && ay as int <= m as int) by (nonlinear_arith)
                    requires
                        0 <= ax as int,
                        0 <= ay as int,
                        (ax as int) * (ax as int) + (ay as int) * (ay as int) <= (m as int) * (
                        m as int),
                ;
                assert((ax as u128) * s <= 600_000_000_000_000_000u128 * 10_000_000_000u128
                    && (ay as u128) * s <= 600_000_000_000_000_000u128 * 10_000_000_000u128)
                    by (nonlinear_arith)
                    requires
                        0 <= ax as int <= 600_000_000_000_000_000int,
                        0 <= ay as int <= 600_000_000_000_000_000int,
                        0 <= s as int <= 10_000_000_000int,
                ;
                lemma_div_scale_le(ax as int, s as int, m as int);
                lemma_div_scale_le(ay as int, s as int, m as int);
            }
            let mx = ((ax as u128) * s) / m;
            let my = ((ay as u128) * s) / m;
            let mxi = mx as i64;
            let myi = my as i64;
            let vx = if distance >= 0 {
                mxi
            } else {
                -mxi
            };
            let vy = -myi;
            self.obj.velocity = vec2(vx, vy);
            proof {
                let axi = ax as int;
                let ayi = ay as int;
                let si = s as int;
                let mi = m as int;
                lemma_rescale_upper(axi, ayi, si, mi);
                assert(mag2(self.obj.velocity) == (axi * si / mi) * (axi * si / mi) + (ayi * si
                    / mi) * (ayi * si / mi)) by (nonlinear_arith)
                    requires
                        (self.obj.velocity.x as int) == axi * si / mi || (
                        self.obj.velocity.x as int) == -(axi * si / mi),
                        (self.obj.velocity.y as int) == -(ayi * si / mi),
                ;
            }
        }
    }
}

/// The paddle rebound preserves the ball's speed up to the rounding of the
/// integer arithmetic.  The new squared speed never exceeds the old one,
/// and, when the unnormalized rebound velocity is not the zero vector, it
/// falls short of the bracketed square `s * s` of the old speed by a
/// relative margin of at most roughly `2 / m + 4 / s`, where `m` is the
/// magnitude of the unnormalized rebound velocity rounded up — far inside
/// any fixed tolerance at the speeds and subunit resolution the game runs
/// at.
pub proof fn lemma_rebound_paddle_speed(b: BallObject, p: GameObject)
    requires
        mag2(b.obj.velocity) <= VEL_LIMIT * VEL_LIMIT,
        0 < b.radius <= DIM_LIMIT,
        2 <= p.size.x <= DIM_LIMIT,
        b.radius <= p.size.x,
        -2 * POS_LIMIT <= b.obj.position.x <= 2 * POS_LIMIT,
        -2 * POS_LIMIT <= p.position.x <= 2 * POS_LIMIT,
        abs_int(paddle_distance(b, p)) <= paddle_half(p) + b.radius,
    ensures
        mag2(rebound_paddle_spec(b, p).obj.velocity) <= mag2(b.obj.velocity),
        bounce_m2(b, p) != 0 ==> ({
            let s = sqrt_floor(mag2(b.obj.velocity) as nat) as int;
            let m = sqrt_ceil(bounce_m2(b, p) as nat) as int;
            m * m * mag2(rebound_paddle_spec(b, p).obj.velocity) + 2 * s * s * m + 4 * s * m * m
                >= s * s * m * m
        }),
{
    let vx = b.obj.velocity.x as int;
    let vy = b.obj.velocity.y as int;
    assert(0 <= vx * vx && 0 <= vy * vy) by (nonlinear_arith);
    lemma_sqrt_floor_bounds(mag2(b.obj.velocity) as nat);
    let s = sqrt_floor(mag2(b.obj.velocity) as nat) as int;
    assert(s * s <= mag2(b.obj.velocity));
    let ax = bounce_raw_x_mag(b, p);
    let ay = bounce_raw_y_mag(b);
    assert(paddle_half(p) >= 1);
    assert(0 <= 2 * BALL_VELOCITY_X * abs_int(paddle_distance(b, p))) by (nonlinear_arith)
        requires
            0 <= abs_int(paddle_distance(b, p)),
    ;
    lemma_div_pos_is_pos(2 * BALL_VELOCITY_X * abs_int(paddle_distance(b, p)), paddle_half(p));
    assert(0 <= ax && 0 <= ay);
    let m2 = bounce_m2(b, p);
    if m2 == 0 {
        assert(rebound_paddle_spec(b, p).obj.velocity == (Vector2 { x: 0i64, y: 0i64 }));
        assert(mag2(Vector2 { x: 0i64, y: 0i64 }) == 0);
    } else {
        lemma_sqrt_ceil_bounds(m2 as nat);
        let m = sqrt_ceil(m2 as nat) as int;
        assert(0 <= m2) by (nonlinear_arith)
            requires
                0 <= ax && 0 <= ay && m2 == ax * ax + ay * ay,
        ;
        assert(m2 <= m * m);
        assert(m >= 1) by (nonlinear_arith)
            requires
                0 <= m && 1 <= m2 && m2 <= m * m,
        ;
        assert((m - 1) * (m - 1) < m2);
        lemma_rescale_upper(ax, ay, s, m);
        lemma_rescale_lower(ax, ay, s, m);
        let mx = ax * s / m;
        let my = ay * s / m;
        assert(ax <= m && ay <= m) by (nonlinear_arith)
            requires
                0 <= ax && 0 <= ay && ax * ax + ay * ay <= m * m && 1 <= m,
        ;
        lemma_div_scale_le(ax, s, m);
        lemma_div_scale_le(ay, s, m);
        assert(s <= VEL_LIMIT) by (nonlinear_arith)
            requires
                0 <= s && s * s <= VEL_LIMIT * VEL_LIMIT,
        ;
        assert(mag2(rebound_paddle_spec(b, p).obj.velocity) == mx * mx + my * my)
            by (nonlinear_arith)
            requires
                (rebound_paddle_spec(b, p).obj.velocity.x as int) == mx
                    || (rebound_paddle_spec(b, p).obj.velocity.x as int) == -mx,
                (rebound_paddle_spec(b, p).obj.velocity.y as int) == -my,
        ;
    }
}

} // verus!

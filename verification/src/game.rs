//! The game controller: owns the paddle, the ball, the levels and the
//! state, and drives the per-frame input pass and update tick.

use vstd::prelude::*;
use crate::collision::{Collision, nearest_from_spec};
use crate::game_level::{GameLevel, level_bricks_wf, live_commands};
use crate::game_object::{
    BALL_RADIUS,
    BALL_VELOCITY_X,
    BALL_VELOCITY_Y,
    BallObject,
    Colour,
    GameObject,
    PLAYER_SIZE_X,
    PLAYER_SIZE_Y,
    ball_move_spec,
    ball_wf,
    draw_command_of,
    hit_spec,
    initial_player_size,
    penetration_x,
    penetration_y,
    rebound_brick_spec,
    rebound_paddle_spec,
};
use crate::renderer::{DrawCommand, SpriteRenderer};
use crate::resource_manager::{ResourceManager, lookup_spec};
use crate::units::{DIM_LIMIT, DT_LIMIT, VEL_LIMIT};
use crate::vector::{Vector2, mag2, vec2};

verus! {

/// The paddle's constant horizontal speed: 500 pixels per second, in
/// subunits per millisecond.
pub const PLAYER_VELOCITY: i64 = 500_000;

/// The game's display state.  Only `Active` drives simulation and
/// collision; `Menu` and `Win` are display states whose update logic is out
/// of this engine's scope.
#[derive(Clone, Copy, PartialEq, Eq, Structural, Debug)]
pub enum GameState {
    Active,
    Menu,
    Win,
}

/// One frame's input: the held movement keys and the release signal.
#[derive(Clone, Copy, PartialEq, Eq, Structural, Debug)]
pub struct InputState {
    pub left: bool,
    pub right: bool,
    pub release: bool,
}

/// The untinted sprite colour.
pub open spec fn base_colour_spec() -> Colour {
    Colour { r: 1000, g: 1000, b: 1000 }
}

/// See `base_colour_spec`.
pub fn base_colour() -> (r: Colour)
    ensures
        r == base_colour_spec(),
{
    Colour { r: 1000, g: 1000, b: 1000 }
}

/// The game controller.
pub struct Game {
    pub width: i64,
    pub height: i64,
    pub state: GameState,
    pub resources: ResourceManager,
    pub levels: Vec<GameLevel>,
    pub level: usize,
    pub player: GameObject,
    pub ball: BallObject,
}

/// The controller's invariant, held at every method boundary: the viewport
/// accommodates the paddle, the level index is valid, every brick is
/// well-formed, the paddle sits on the bottom edge fully inside the
/// viewport, the ball is well-formed and within bounded reach of the
/// playing field (a stuck ball additionally rides within bounded offset of
/// the paddle), and the textures the controller itself draws with resolve.
pub open spec fn game_wf(g: Game) -> bool {
    &&& PLAYER_SIZE_X <= g.width <= DIM_LIMIT
    &&& PLAYER_SIZE_Y <= g.height <= DIM_LIMIT
    &&& 1 <= g.level <= g.levels@.len()
    &&& forall|li: int|
        0 <= li < g.levels@.len() ==> level_bricks_wf((#[trigger] g.levels@[li]).bricks@)
    &&& g.player.size == (Vector2 { x: PLAYER_SIZE_X, y: PLAYER_SIZE_Y })
    &&& 0 <= g.player.position.x <= g.width - PLAYER_SIZE_X
    &&& g.player.position.y == g.height - PLAYER_SIZE_Y
    &&& g.player.velocity == (Vector2 { x: 0i64, y: 0i64 })
    &&& ball_wf(g.ball)
    &&& g.ball.radius <= PLAYER_SIZE_X
    &&& -6 * DIM_LIMIT <= g.ball.obj.position.x <= 6 * DIM_LIMIT
    &&& -6 * DIM_LIMIT <= g.ball.obj.position.y <= g.height
    &&& (g.ball.stuck ==> -5 * DIM_LIMIT <= g.ball.obj.position.x - g.player.position.x <= 5
        * DIM_LIMIT)
    &&& lookup_spec(g.resources.textures@, "background"@) is Some
}

/// Where the paddle starts and returns to on reset: centered at the bottom.
pub open spec fn player_start_x(width: int) -> int {
    width / 2 - (PLAYER_SIZE_X as int) / 2
}

/// Where the ball starts and returns to on reset: resting centered on the
/// paddle.
pub open spec fn ball_start_pos(px: int, height: int) -> Vector2 {
    Vector2 {
        x: (px + (PLAYER_SIZE_X as int) / 2 - BALL_RADIUS) as i64,
        y: (height - PLAYER_SIZE_Y - 2 * BALL_RADIUS) as i64,
    }
}

/// The paddle's `x` after one input frame: each held key moves it by the
/// paddle speed times the frame delta, clamped so it stays fully inside the
/// viewport.
pub open spec fn paddle_x_after(g: Game, dt: int, left: bool, right: bool) -> int {
    let v = (PLAYER_VELOCITY as int) * dt;
    let x0 = g.player.position.x as int;
    let x1 = if left {
        if x0 - v < 0 {
            0
        } else {
            x0 - v
        }
    } else {
        x0
    };
    if right {
        if x1 + v + PLAYER_SIZE_X > g.width {
            g.width - PLAYER_SIZE_X
        } else {
            x1 + v
        }
    } else {
        x1
    }
}

/// Moving left from the left wall leaves the paddle at the wall, and moving
/// right from the right edge leaves it unchanged: the clamp holds at both
/// ends for every frame delta.
pub proof fn lemma_paddle_clamp(g: Game, dt: int, left: bool, right: bool)
    requires
        game_wf(g),
        0 <= dt <= DT_LIMIT,
    ensures
        left && !right && g.player.position.x == 0 ==> paddle_x_after(g, dt, left, right) == 0,
        right && !left && g.player.position.x == g.width - PLAYER_SIZE_X ==> paddle_x_after(
            g,
            dt,
            left,
            right,
        ) == g.width - PLAYER_SIZE_X,
{
    assert(0 <= (PLAYER_VELOCITY as int) * dt) by (nonlinear_arith)
        requires
            0 <= dt,
    ;
}

impl Game {
    /// A new controller for a `width` by `height` viewport over the given
    /// levels and resources: state active, first level current, paddle
    /// centered at the bottom, ball stuck on the paddle at the canonical
    /// launch velocity.
    pub fn new(width: i64, height: i64, levels: Vec<GameLevel>, resources: ResourceManager) -> (g:
        Game)
        requires
            PLAYER_SIZE_X <= width <= DIM_LIMIT,
            PLAYER_SIZE_Y <= height <= DIM_LIMIT,
            levels@.len() >= 1,
            forall|li: int|
                0 <= li < levels@.len() ==> level_bricks_wf((#[trigger] levels@[li]).bricks@),
            lookup_spec(resources.textures@, "paddle"@) is Some,
            lookup_spec(resources.textures@, "face"@) is Some,
            lookup_spec(resources.textures@, "background"@) is Some,
        ensures
            game_wf(g),
            g.width == width,
            g.height == height,
            g.state == GameState::Active,
            g.level == 1,
            g.levels == levels,
            g.resources == resources,
            g.player == (GameObject {
                position: Vector2 { x: player_start_x(width as int) as i64, y: (height
                    - PLAYER_SIZE_Y) as i64 },
                size: Vector2 { x: PLAYER_SIZE_X, y: PLAYER_SIZE_Y },
                velocity: Vector2 { x: 0, y: 0 },
                colour: base_colour_spec(),
                rotation: 0,
                is_solid: false,
                is_destroyed: false,
                sprite: lookup_spec(g.resources.textures@, "paddle"@).unwrap(),
            }),
            g.ball == (BallObject {
                obj: GameObject {
                    position: ball_start_pos(player_start_x(width as int), height as int),
                    size: Vector2 { x: (2 * BALL_RADIUS) as i64, y: (2 * BALL_RADIUS) as i64 },
                    velocity: Vector2 { x: BALL_VELOCITY_X, y: BALL_VELOCITY_Y },
                    colour: base_colour_spec(),
                    rotation: 0,
                    is_solid: false,
                    is_destroyed: false,
                    sprite: lookup_spec(g.resources.textures@, "face"@).unwrap(),
                },
                radius: BALL_RADIUS,
                stuck: true,
            }),
    {
        let paddle_sprite = match resources.texture("paddle") {
            Some(h) => h,
            None => vstd::pervasive::unreached(),
        };
        let face_sprite = match resources.texture("face") {
            Some(h) => h,
            None => vstd::pervasive::unreached(),
        };
        let player_size = initial_player_size();
        let player_pos = vec2(width / 2 - player_size.x / 2, height - player_size.y);
        let player = GameObject::new(player_pos, player_size, paddle_sprite, base_colour());

        let ball_radius = BallObject::initial_radius();
        let ball_pos = vec2(
            player_pos.x + player_size.x / 2 - ball_radius,
            player_pos.y - ball_radius * 2,
        );
        let ball = BallObject::new(
            ball_pos,
            ball_radius,
            BallObject::initial_velocity(),
            face_sprite,
            base_colour(),
        );

        proof {
            vstd::arithmetic::div_mod::lemma_div_is_ordered(
                PLAYER_SIZE_X as int,
                width as int,
                2,
            );
            vstd::arithmetic::div_mod::lemma_div_nonincreasing(width as int, 2);
            vstd::arithmetic::div_mod::lemma_fundamental_div_mod(width as int, 2);
            vstd::arithmetic::div_mod::lemma_remainder(width as int, 2);
            assert(0 <= player.position.x);
            assert(player.position.x <= width - PLAYER_SIZE_X);
            assert(mag2(ball.obj.velocity) <= VEL_LIMIT * VEL_LIMIT) by (nonlinear_arith)
                requires
                    ball.obj.velocity == (Vector2 { x: BALL_VELOCITY_X, y: BALL_VELOCITY_Y }),
            ;
        }
        Game {
            height,
            width,
            state: GameState::Active,
            resources,
            levels,
            level: 1,
            player,
            ball,
        }
    }

    /// One input frame while active: the held keys move the paddle at its
    /// constant speed, clamped inside the viewport; a stuck ball rides the
    /// paddle's realized movement; the release signal unsticks the ball.
    /// Outside the active state input is suppressed.
    pub fn process_input(&mut self, delta_time: i64, input: &InputState)
        requires
            0 <= delta_time <= DT_LIMIT,
            game_wf(*old(self)),
        ensures
            game_wf(*final(self)),
            final(self).width == old(self).width && final(self).height == old(self).height
                && final(self).state == old(self).state && final(self).resources == old(self).resources && final(self).levels == old(self).levels && final(self).level == old(self).level,
            old(self).state matches GameState::Active ==> ({
                let x2 = paddle_x_after(*old(self), delta_time as int, input.left, input.right);
                let dx = x2 - old(self).player.position.x;
                let b1 = if old(self).ball.stuck {
                    BallObject {
                        obj: GameObject {
                            position: Vector2 {
                                x: (old(self).ball.obj.position.x + dx) as i64,
                                y: old(self).ball.obj.position.y,
                            },
                            ..old(self).ball.obj
                        },
                        ..old(self).ball
                    }
                } else {
                    old(self).ball
                };
                &&& final(self).player == (GameObject {
                    position: Vector2 { x: x2 as i64, y: old(self).player.position.y },
                    ..old(self).player
                })
                &&& final(self).ball == (if input.release {
                    BallObject { stuck: false, ..b1 }
                } else {
                    b1
                })
            }),
            !(old(self).state matches GameState::Active) ==> final(self).player == old(self).player
                && final(self).ball == old(self).ball,
    {
        if let GameState::Active = self.state {
            proof {
                assert(0 <= (PLAYER_VELOCITY as int) * (delta_time as int) <= (
                PLAYER_VELOCITY as int) * (DT_LIMIT as int)) by (nonlinear_arith)
                    requires
                        0 <= delta_time <= DT_LIMIT,
                ;
            }
            let velocity = PLAYER_VELOCITY * delta_time;

            let old_x = self.player.position.x;
            if input.left {
                self.player.position.x = self.player.position.x - velocity;
                if self.player.position.x < 0 {
                    self.player.position.x = 0;
                }
            }
            if input.right {
                self.player.position.x = self.player.position.x + velocity;
                if self.player.position.x + self.player.size.x > self.width {
                    self.player.position.x = self.width - self.player.size.x;
                }
            }

            if self.ball.is_stuck() {
                let dx = self.player.position.x - old_x;
                self.ball.move_with_paddle(dx);
            }

            if input.release {
                self.ball.release();
            }
        }
    }
}

/// What one brick test does to ball and brick: nothing for a destroyed
/// brick or a miss; on a hit, a non-solid brick is destroyed and the ball
/// rebounds off the brick along the penetration vector's nearest direction.
pub open spec fn brick_step(ball: BallObject, brick: GameObject) -> (BallObject, GameObject) {
    if !brick.is_destroyed && hit_spec(ball, brick) {
        let p = Vector2 {
            x: penetration_x(ball, brick) as i64,
            y: penetration_y(ball, brick) as i64,
        };
        let d = nearest_from_spec(p);
        let brick2 = if !brick.is_solid {
            GameObject { is_destroyed: true, ..brick }
        } else {
            brick
        };
        (rebound_brick_spec(ball, d, p), brick2)
    } else {
        (ball, brick)
    }
}

/// The collision pass over the bricks from index `i` on, in storage order.
/// Each test reads the ball's current, possibly just-rebounded, state, so
/// the order matters and is fixed.
pub open spec fn bricks_pass(ball: BallObject, bricks: Seq<GameObject>, i: int) -> (
    BallObject,
    Seq<GameObject>,
)
    decreases bricks.len() - i,
{
    if 0 <= i < bricks.len() {
        let s = brick_step(ball, bricks[i]);
        bricks_pass(s.0, bricks.update(i, s.1), i + 1)
    } else {
        (ball, bricks)
    }
}

/// A solid brick survives every hit: the brick test never changes it.
pub proof fn lemma_solid_bricks_survive(ball: BallObject, brick: GameObject)
    requires
        brick.is_solid,
    ensures
        brick_step(ball, brick).1 == brick,
{
}

/// The paddle test after the brick pass: a free ball that touches the
/// paddle rebounds off it; a stuck ball is not tested.
pub open spec fn paddle_step(ball: BallObject, paddle: GameObject) -> BallObject {
    if !ball.stuck && hit_spec(ball, paddle) {
        rebound_paddle_spec(ball, paddle)
    } else {
        ball
    }
}

/// A brick rebound leaves the ball near the brick: each moved coordinate
/// ends within the playing field bounds.
proof fn lemma_rebound_position_bound(ball: BallObject, brick: GameObject, p: Vector2)
    requires
        hit_spec(ball, brick),
        0 <= brick.position.x <= DIM_LIMIT,
        0 <= brick.position.y <= DIM_LIMIT,
        0 <= brick.size.x <= DIM_LIMIT,
        0 <= brick.size.y <= DIM_LIMIT,
        0 < ball.radius,
        2 * ball.radius <= DIM_LIMIT,
        -2_000_000_000_000_000_0 <= ball.obj.position.x <= 2_000_000_000_000_000_0,
        -2_000_000_000_000_000_0 <= ball.obj.position.y <= 2_000_000_000_000_000_0,
        p.x == penetration_x(ball, brick),
        p.y == penetration_y(ball, brick),
    ensures
        ({
            let b2 = rebound_brick_spec(ball, nearest_from_spec(p), p);
            &&& (b2.obj.position.x == ball.obj.position.x || -4 * DIM_LIMIT <= b2.obj.position.x
                <= 4 * DIM_LIMIT)
            &&& (b2.obj.position.y == ball.obj.position.y || -4 * DIM_LIMIT <= b2.obj.position.y
                <= 4 * DIM_LIMIT)
        }),
{
    crate::game_object::lemma_pen_component_bounds(ball, brick);
    vstd::arithmetic::div_mod::lemma_div_nonincreasing(brick.size.x as int, 2);
    vstd::arithmetic::div_mod::lemma_div_pos_is_pos(brick.size.x as int, 2);
    vstd::arithmetic::div_mod::lemma_div_nonincreasing(brick.size.y as int, 2);
    vstd::arithmetic::div_mod::lemma_div_pos_is_pos(brick.size.y as int, 2);
}

impl Game {
    /// The collision pass of one tick: every non-destroyed brick of the
    /// current level is tested against the ball in storage order, each test
    /// reading the ball as the previous rebound left it; then, unless the
    /// ball is stuck, the paddle is tested once.
    fn do_collisions(&mut self)
        requires
            1 <= old(self).level <= old(self).levels@.len(),
            forall|li: int|
                0 <= li < old(self).levels@.len() ==> level_bricks_wf(
                    (#[trigger] old(self).levels@[li]).bricks@,
                ),
            PLAYER_SIZE_X <= old(self).width <= DIM_LIMIT,
            PLAYER_SIZE_Y <= old(self).height <= DIM_LIMIT,
            old(self).player.size == (Vector2 { x: PLAYER_SIZE_X, y: PLAYER_SIZE_Y }),
            0 <= old(self).player.position.x <= old(self).width - PLAYER_SIZE_X,
            old(self).player.position.y == old(self).height - PLAYER_SIZE_Y,
            ball_wf(old(self).ball),
            old(self).ball.radius <= PLAYER_SIZE_X,
            -6 * DIM_LIMIT <= old(self).ball.obj.position.x <= 6 * DIM_LIMIT,
            -6 * DIM_LIMIT <= old(self).ball.obj.position.y <= 2_000_000_000_000_000,
        ensures
            final(self).width == old(self).width && final(self).height == old(self).height
                && final(self).state == old(self).state && final(self).resources == old(self).resources && final(self).level == old(self).level && final(self).player == old(self).player,
            final(self).levels@.len() == old(self).levels@.len(),
            forall|k: int|
                0 <= k < old(self).levels@.len() && k != old(self).level - 1 ==> final(self).levels@[k] == old(self).levels@[k],
            ({
                let li = old(self).level - 1;
                let pass = bricks_pass(old(self).ball, old(self).levels@[li as int].bricks@, 0);
                &&& final(self).levels@[li as int].bricks@ == pass.1
                &&& final(self).ball == paddle_step(pass.0, old(self).player)
            }),
            level_bricks_wf(final(self).levels@[old(self).level - 1].bricks@),
            ball_wf(final(self).ball),
            final(self).ball.stuck == old(self).ball.stuck,
            final(self).ball.radius == old(self).ball.radius,
            final(self).ball.obj.position.x == old(self).ball.obj.position.x || -4 * DIM_LIMIT
                <= final(self).ball.obj.position.x <= 4 * DIM_LIMIT,
            final(self).ball.obj.position.y == old(self).ball.obj.position.y || -4 * DIM_LIMIT
                <= final(self).ball.obj.position.y <= 4 * DIM_LIMIT,
    {
        let li = self.level - 1;
        let mut lvl = self.levels.remove(li);
        let ghost levels1 = self.levels@;
        let ghost bricks0 = lvl.bricks@;
        let ghost ball0 = self.ball;
        let ghost fold = bricks_pass(ball0, bricks0, 0);
        let mut j: usize = 0;
        while j < lvl.bricks.len()
            invariant
                0 <= j <= lvl.bricks@.len(),
                lvl.bricks@.len() == bricks0.len(),
                fold == bricks_pass(ball0, bricks0, 0),
                bricks_pass(self.ball, lvl.bricks@, j as int) == fold,
                level_bricks_wf(lvl.bricks@),
                ball_wf(self.ball),
                self.ball.stuck == ball0.stuck,
                self.ball.radius == ball0.radius,
                self.ball.radius <= PLAYER_SIZE_X,
                self.ball.obj.position.x == ball0.obj.position.x || -4 * DIM_LIMIT
                    <= self.ball.obj.position.x <= 4 * DIM_LIMIT,
                self.ball.obj.position.y == ball0.obj.position.y || -4 * DIM_LIMIT
                    <= self.ball.obj.position.y <= 4 * DIM_LIMIT,
                -6 * DIM_LIMIT <= ball0.obj.position.x <= 6 * DIM_LIMIT,
                -6 * DIM_LIMIT <= ball0.obj.position.y <= 2_000_000_000_000_000,
                self.player == old(self).player,
                self.width == old(self).width,
                self.height == old(self).height,
                self.state == old(self).state,
                self.resources == old(self).resources,
                self.level == old(self).level,
                self.levels@ == levels1,
                PLAYER_SIZE_X <= old(self).width <= DIM_LIMIT,
                PLAYER_SIZE_Y <= old(self).height <= DIM_LIMIT,
                old(self).player.size == (Vector2 { x: PLAYER_SIZE_X, y: PLAYER_SIZE_Y }),
                0 <= old(self).player.position.x <= old(self).width - PLAYER_SIZE_X,
                old(self).player.position.y == old(self).height - PLAYER_SIZE_Y,
            decreases lvl.bricks@.len() - j,
        {
            let brick = lvl.bricks[j];
            let ghost ball_pre = self.ball;
            let ghost bricks_pre = lvl.bricks@;
            if !brick.is_destroyed {
                match self.ball.check_collision(&brick) {
                    Collision::Yes(direction, difference) => {
                        proof {
                            crate::game_object::lemma_pen_component_bounds(ball_pre, brick);
                        }
                        if !brick.is_solid {
                            let mut b2 = brick;
                            b2.is_destroyed = true;
                            lvl.bricks[j] = b2;
                        }
                        self.ball.rebound_brick(direction, difference);
                        proof {
                            lemma_rebound_position_bound(ball_pre, brick, difference);
                            let s = brick_step(ball_pre, brick);
                            assert(s.0 == self.ball);
                            assert(lvl.bricks@ =~= bricks_pre.update(j as int, s.1));
                        }
                    },
                    Collision::No => {
                        proof {
                            let s = brick_step(ball_pre, brick);
                            assert(s == (ball_pre, brick));
                            assert(bricks_pre.update(j as int, brick) =~= bricks_pre);
                        }
                    },
                }
            } else {
                proof {
                    let s = brick_step(ball_pre, brick);
                    assert(s == (ball_pre, brick));
                    assert(bricks_pre.update(j as int, brick) =~= bricks_pre);
                }
            }
            j = j + 1;
        }
        let ghost pass_ball = self.ball;
        if !self.ball.is_stuck() {
            match self.ball.check_collision(&self.player) {
                Collision::Yes(_, _) => {
                    proof {
                        crate::game_object::lemma_pen_component_bounds(pass_ball, self.player);
                        vstd::arithmetic::div_mod::lemma_div_nonincreasing(PLAYER_SIZE_X as int, 2);
                        vstd::arithmetic::div_mod::lemma_div_pos_is_pos(PLAYER_SIZE_X as int, 2);
                    }
                    self.ball.rebound_paddle(&self.player);
                },
                Collision::No => {},
            }
        }
        self.levels.insert(li, lvl);
        proof {
            assert(self.levels@ =~= old(self).levels@.update(li as int, lvl));
        }
    }

    /// Clears the destroyed flags of the current level's bricks.
    fn reset_level(&mut self)
        requires
            1 <= old(self).level <= old(self).levels@.len(),
        ensures
            final(self).width == old(self).width && final(self).height == old(self).height
                && final(self).state == old(self).state && final(self).resources == old(self).resources
                && final(self).level == old(self).level && final(self).player == old(self).player
                && final(self).ball == old(self).ball,
            final(self).levels@.len() == old(self).levels@.len(),
            forall|k: int|
                0 <= k < old(self).levels@.len() && k != old(self).level - 1 ==> final(self).levels@[k]
                    == old(self).levels@[k],
            ({
                let li = old(self).level - 1;
                &&& final(self).levels@[li as int].bricks@.len() == old(self).levels@[li as int].bricks@.len()
                &&& forall|t: int|
                    0 <= t < old(self).levels@[li as int].bricks@.len() ==> final(self).levels@[li as int].bricks@[t] == (GameObject {
                        is_destroyed: false,
                        ..old(self).levels@[li as int].bricks@[t]
                    })
            }),
    {
        let li = self.level - 1;
        let mut lvl = self.levels.remove(li);
        lvl.reset();
        self.levels.insert(li, lvl);
        proof {
            assert(self.levels@ =~= old(self).levels@.update(li as int, lvl));
        }
    }

    /// Re-centers the paddle at the bottom and sticks the ball back onto
    /// it at the canonical launch velocity.
    fn reset_player(&mut self)
        requires
            PLAYER_SIZE_X <= old(self).width <= DIM_LIMIT,
            PLAYER_SIZE_Y <= old(self).height <= DIM_LIMIT,
        ensures
            final(self).width == old(self).width && final(self).height == old(self).height
                && final(self).state == old(self).state && final(self).resources == old(self).resources
                && final(self).level == old(self).level && final(self).levels == old(self).levels,
            final(self).player == (GameObject {
                position: Vector2 {
                    x: player_start_x(old(self).width as int) as i64,
                    y: (old(self).height - PLAYER_SIZE_Y) as i64,
                },
                size: Vector2 { x: PLAYER_SIZE_X, y: PLAYER_SIZE_Y },
                ..old(self).player
            }),
            final(self).ball == (BallObject {
                obj: GameObject {
                    position: ball_start_pos(
                        player_start_x(old(self).width as int),
                        old(self).height as int,
                    ),
                    velocity: Vector2 { x: BALL_VELOCITY_X, y: BALL_VELOCITY_Y },
                    ..old(self).ball.obj
                },
                stuck: true,
                ..old(self).ball
            }),
    {
        let player_size = initial_player_size();
        self.player.size = player_size;
        self.player.position = vec2(
            self.width / 2 - player_size.x / 2,
            self.height - player_size.y,
        );
        let ball_radius = BallObject::initial_radius();
        let pos = vec2(
            self.player.position.x + player_size.x / 2 - ball_radius,
            self.player.position.y - ball_radius * 2,
        );
        self.ball.reset(pos, BallObject::initial_velocity());
    }

    /// One tick while the simulation runs: the ball moves and reflects off
    /// the walls, the collision pass runs against the current level's
    /// bricks and then the paddle, and if the ball has fallen past the
    /// bottom edge the level's bricks and the paddle and ball are reset.
    pub fn update(&mut self, delta_time: i64)
        requires
            0 <= delta_time <= DT_LIMIT,
            game_wf(*old(self)),
        ensures
            game_wf(*final(self)),
            final(self).width == old(self).width && final(self).height == old(self).height
                && final(self).state == old(self).state && final(self).resources == old(self).resources
                && final(self).level == old(self).level,
            final(self).levels@.len() == old(self).levels@.len(),
            forall|k: int|
                0 <= k < old(self).levels@.len() && k != old(self).level - 1 ==> final(self).levels@[k]
                    == old(self).levels@[k],
            ({
                let li = old(self).level - 1;
                let moved = ball_move_spec(
                    old(self).ball,
                    delta_time as int,
                    old(self).width as int,
                );
                let pass = bricks_pass(moved, old(self).levels@[li as int].bricks@, 0);
                let afterp = paddle_step(pass.0, old(self).player);
                if afterp.obj.position.y > old(self).height {
                    &&& final(self).player == (GameObject {
                        position: Vector2 {
                            x: player_start_x(old(self).width as int) as i64,
                            y: (old(self).height - PLAYER_SIZE_Y) as i64,
                        },
                        size: Vector2 { x: PLAYER_SIZE_X, y: PLAYER_SIZE_Y },
                        ..old(self).player
                    })
                    &&& final(self).ball == (BallObject {
                        obj: GameObject {
                            position: ball_start_pos(
                                player_start_x(old(self).width as int),
                                old(self).height as int,
                            ),
                            velocity: Vector2 { x: BALL_VELOCITY_X, y: BALL_VELOCITY_Y },
                            ..afterp.obj
                        },
                        stuck: true,
                        ..afterp
                    })
                    &&& final(self).levels@[li as int].bricks@.len() == pass.1.len()
                    &&& forall|t: int|
                        0 <= t < pass.1.len() ==> final(self).levels@[li as int].bricks@[t] == (
                        GameObject { is_destroyed: false, ..pass.1[t] })
                } else {
                    &&& final(self).player == old(self).player
                    &&& final(self).ball == afterp
                    &&& final(self).levels@[li as int].bricks@ == pass.1
                }
            }),
    {
        let w = self.width;
        self.ball.do_move(delta_time, w);
        self.do_collisions();
        if self.ball.is_below(self.height) {
            self.reset_level();
            self.reset_player();
            proof {
                lemma_player_start_x_range(self.width as int);
                assert(mag2(self.ball.obj.velocity) <= VEL_LIMIT * VEL_LIMIT) by (nonlinear_arith)
                    requires
                        self.ball.obj.velocity == (Vector2 {
                            x: BALL_VELOCITY_X,
                            y: BALL_VELOCITY_Y,
                        }),
                ;
            }
        }
    }

    /// Records one frame while active: the background, the live bricks of
    /// the current level in storage order, the paddle and the ball, in that
    /// order.  Outside the active state nothing is drawn.
    pub fn render(&self, renderer: &mut SpriteRenderer)
        requires
            game_wf(*self),
        ensures
            self.state matches GameState::Active ==> final(renderer).commands@ == old(renderer).commands@ + seq![background_command(*self)] + live_commands(
                self.levels@[self.level - 1].bricks@,
                0,
            ) + seq![draw_command_of(self.player)] + seq![draw_command_of(self.ball.obj)],
            !(self.state matches GameState::Active) ==> final(renderer).commands@ == old(renderer).commands@,
    {
        if let GameState::Active = self.state {
            let bg = match self.resources.texture("background") {
                Some(h) => h,
                None => vstd::pervasive::unreached(),
            };
            let ghost c0 = renderer.commands@;
            renderer.draw_sprite(bg, vec2(0, 0), vec2(self.width, self.height), 0, base_colour());
            proof {
                assert(renderer.commands@ =~= c0 + seq![background_command(*self)]);
            }
            let li = self.level - 1;
            let lvl = &self.levels[li];
            let ghost c1 = renderer.commands@;
            lvl.draw(renderer);
            let ghost c2 = renderer.commands@;
            self.player.draw(renderer);
            proof {
                assert(renderer.commands@ =~= c2 + seq![draw_command_of(self.player)]);
            }
            let ghost c3 = renderer.commands@;
            self.ball.draw(renderer);
            proof {
                assert(renderer.commands@ =~= c3 + seq![draw_command_of(self.ball.obj)]);
                assert(renderer.commands@ =~= c0 + seq![background_command(*self)]
                    + live_commands(self.levels@[self.level - 1].bricks@, 0) + seq![
                    draw_command_of(self.player),
                ] + seq![draw_command_of(self.ball.obj)]);
            }
        }
    }
}

/// The background sprite of one frame: the whole viewport, untinted.
pub open spec fn background_command(g: Game) -> DrawCommand {
    DrawCommand {
        sprite: lookup_spec(g.resources.textures@, "background"@).unwrap(),
        position: Vector2 { x: 0i64, y: 0i64 },
        size: Vector2 { x: g.width, y: g.height },
        rotation: 0i64,
        colour: base_colour_spec(),
    }
}

/// The paddle's start position sits inside the viewport.
pub proof fn lemma_player_start_x_range(width: int)
    requires
        PLAYER_SIZE_X <= width <= DIM_LIMIT,
    ensures
        0 <= player_start_x(width) <= width - PLAYER_SIZE_X,
{
    vstd::arithmetic::div_mod::lemma_div_is_ordered(PLAYER_SIZE_X as int, width, 2);
    vstd::arithmetic::div_mod::lemma_div_nonincreasing(width, 2);
    vstd::arithmetic::div_mod::lemma_fundamental_div_mod(width, 2);
    vstd::arithmetic::div_mod::lemma_remainder(width, 2);
}

} // verus!

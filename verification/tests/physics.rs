use breakout::collision::Direction;
use breakout::game_object::{BallObject, Colour, GameObject};
use breakout::units::UNITS_PER_PIXEL;
use breakout::vector::vec2;

const PX: i64 = UNITS_PER_PIXEL;

fn white() -> Colour {
    Colour { r: 1000, g: 1000, b: 1000 }
}

fn ball(x: i64, y: i64, radius: i64, vx: i64, vy: i64) -> BallObject {
    BallObject::new(vec2(x, y), radius, vec2(vx, vy), 1, white())
}

fn speed(b: &BallObject) -> f64 {
    let vx = b.obj.velocity.x as f64;
    let vy = b.obj.velocity.y as f64;
    (vx * vx + vy * vy).sqrt()
}

#[test]
fn rebound_off_brick_left() {
    // Direction Left: flip the horizontal velocity and push the ball out
    // along +x by radius minus the penetration vector's x magnitude.
    let mut b = ball(100, 200, 10, 7, -3);
    b.rebound_brick(Direction::Left, vec2(-4, 1));
    assert_eq!(b.obj.velocity.x, -7);
    assert_eq!(b.obj.velocity.y, -3);
    assert_eq!(b.obj.position.x, 106); // pushed by 10 - 4
    assert_eq!(b.obj.position.y, 200);
}

#[test]
fn rebound_off_brick_up_and_down() {
    let mut up = ball(0, 50, 10, 7, 9);
    up.rebound_brick(Direction::Up, vec2(0, 6));
    assert_eq!(up.obj.velocity.y, -9);
    assert_eq!(up.obj.velocity.x, 7);
    assert_eq!(up.obj.position.y, 46); // pulled up by 10 - 6

    let mut down = ball(0, 50, 10, 7, -9);
    down.rebound_brick(Direction::Down, vec2(0, -6));
    assert_eq!(down.obj.velocity.y, 9);
    assert_eq!(down.obj.position.y, 54);
}

#[test]
fn rebound_off_brick_twice_compounds_displacement() {
    // Applying the rebound twice with the same inputs restores the
    // velocity sign but displaces the position twice over: it is not a
    // fixed point.
    let mut b = ball(100, 200, 10, 7, -3);
    b.rebound_brick(Direction::Left, vec2(-4, 1));
    b.rebound_brick(Direction::Left, vec2(-4, 1));
    assert_eq!(b.obj.velocity.x, 7);
    assert_eq!(b.obj.velocity.y, -3);
    assert_eq!(b.obj.position.x, 112); // two pushes of 6
    assert_eq!(b.obj.position.y, 200);
}

#[test]
fn rebound_off_paddle_preserves_speed() {
    // The paddle: 100 by 20 pixels.
    let paddle = GameObject::new(
        vec2(0, 580 * PX),
        vec2(100 * PX, 20 * PX),
        2,
        white(),
    );
    // Strike at several offsets, including beyond the paddle's half width
    // (an unclamped percentage beyond +-1).  The rebound must preserve
    // the speed magnitude within a relative tolerance of 1e-4.
    let offsets_px: [i64; 5] = [0, 20, -35, 55, -60];
    for &off in offsets_px.iter() {
        let center_x = 50 * PX + off * PX;
        let radius = 12 * PX + PX / 2;
        let mut b = ball(center_x - radius, 570 * PX, radius, 100_000, 350_000);
        let before = speed(&b);
        b.rebound_paddle(&paddle);
        let after = speed(&b);
        assert!(
            (after - before).abs() / before < 1e-4,
            "speed {} became {} at offset {}",
            before,
            after,
            off
        );
        // Always redirected upward.
        assert!(b.obj.velocity.y <= 0);
        // The horizontal pull follows the side that was struck.
        if off > 0 {
            assert!(b.obj.velocity.x > 0);
        }
        if off < 0 {
            assert!(b.obj.velocity.x < 0);
        }
    }
}

#[test]
fn rebound_off_paddle_never_gains_speed() {
    let paddle = GameObject::new(vec2(0, 0), vec2(100 * PX, 20 * PX), 2, white());
    let mut b = ball(30 * PX, -(25 * PX), 12 * PX, 100_000, 350_000);
    let before = speed(&b);
    b.rebound_paddle(&paddle);
    assert!(speed(&b) <= before);
}

#[test]
fn move_advances_by_velocity_times_delta() {
    let mut b = ball(100 * PX, 100 * PX, 12 * PX, 100_000, -350_000);
    b.release();
    b.do_move(16, 800 * PX);
    // 16 ms at 100 px/s is 1.6 px; at -350 px/s it is -5.6 px.
    assert_eq!(b.obj.position.x, 100 * PX + 1_600_000);
    assert_eq!(b.obj.position.y, 100 * PX - 5_600_000);
}

#[test]
fn stuck_ball_does_not_move() {
    let mut b = ball(100, 100, 10, 5_000, 5_000);
    b.do_move(16, 800 * PX);
    assert_eq!(b.obj.position.x, 100);
    assert_eq!(b.obj.position.y, 100);
    assert!(b.is_stuck());
    b.release();
    assert!(!b.is_stuck());
}

#[test]
fn walls_reflect_left_right_top_but_not_bottom() {
    // Left wall: position clamps to zero and the velocity flips.
    let mut l = ball(PX, 100 * PX, 10 * PX, -500_000, 0);
    l.release();
    l.do_move(16, 800 * PX);
    assert_eq!(l.obj.position.x, 0);
    assert_eq!(l.obj.velocity.x, 500_000);

    // Right wall: the ball's right edge stops at the viewport edge.
    let mut r = ball(779 * PX, 100 * PX, 10 * PX, 500_000, 0);
    r.release();
    r.do_move(16, 800 * PX);
    assert_eq!(r.obj.position.x, 780 * PX);
    assert_eq!(r.obj.velocity.x, -500_000);

    // Top wall.
    let mut t = ball(100 * PX, PX, 10 * PX, 0, -500_000);
    t.release();
    t.do_move(16, 800 * PX);
    assert_eq!(t.obj.position.y, 0);
    assert_eq!(t.obj.velocity.y, 500_000);

    // No bottom wall: the ball keeps falling past any depth.
    let mut d = ball(100 * PX, 1000 * PX, 10 * PX, 0, 500_000);
    d.release();
    d.do_move(16, 800 * PX);
    assert_eq!(d.obj.position.y, 1008 * PX);
    assert_eq!(d.obj.velocity.y, 500_000);
}

#[test]
fn is_below_is_strict() {
    let b = ball(0, 600 * PX - 12 * PX * 2, 12 * PX, 0, 0);
    // Top edge at 576 px: not below a 600 px viewport.
    assert!(!b.is_below(600 * PX));
    assert!(!b.is_below(b.obj.position.y));
    assert!(b.is_below(b.obj.position.y - 1));
}

#[test]
fn move_with_paddle_shifts_horizontally() {
    let mut b = ball(100, 200, 10, 0, 0);
    b.move_with_paddle(35);
    assert_eq!(b.obj.position.x, 135);
    assert_eq!(b.obj.position.y, 200);
    b.move_with_paddle(-70);
    assert_eq!(b.obj.position.x, 65);
}

use breakout::collision::{Collision, Direction};
use breakout::game_object::{BallObject, Colour, GameObject};
use breakout::vector::{Vector2, vec2};

fn ball_at(x: i64, y: i64, radius: i64) -> BallObject {
    BallObject::new(
        vec2(x, y),
        radius,
        vec2(0, 0),
        1,
        Colour { r: 1000, g: 1000, b: 1000 },
    )
}

fn rect_at(x: i64, y: i64, w: i64, h: i64) -> GameObject {
    GameObject::new(vec2(x, y), vec2(w, h), 2, Colour { r: 1000, g: 1000, b: 1000 })
}

#[test]
fn direction_vectors() {
    assert_eq!(Direction::Up.vec(), Vector2 { x: 0, y: 1 });
    assert_eq!(Direction::Right.vec(), Vector2 { x: 1, y: 0 });
    assert_eq!(Direction::Down.vec(), Vector2 { x: 0, y: -1 });
    assert_eq!(Direction::Left.vec(), Vector2 { x: -1, y: 0 });
}

#[test]
fn nearest_from_tie_is_up() {
    // A penetration vector of exactly (1, 1) pulls equally toward Up and
    // Right; the earlier-scanned direction wins.
    assert_eq!(Direction::nearest_from(&vec2(1, 1)), Direction::Up);
}

#[test]
fn nearest_from_cardinals() {
    assert_eq!(Direction::nearest_from(&vec2(0, 3)), Direction::Up);
    assert_eq!(Direction::nearest_from(&vec2(5, -1)), Direction::Right);
    assert_eq!(Direction::nearest_from(&vec2(0, -3)), Direction::Down);
    assert_eq!(Direction::nearest_from(&vec2(-2, 0)), Direction::Left);
}

#[test]
fn nearest_from_zero_vector_is_up() {
    assert_eq!(Direction::nearest_from(&vec2(0, 0)), Direction::Up);
}

#[test]
fn nearest_from_other_ties() {
    // (1, -1): Right and Down tie; Right is scanned earlier.
    assert_eq!(Direction::nearest_from(&vec2(1, -1)), Direction::Right);
    // (-1, -1): Down and Left tie; Down is scanned earlier.
    assert_eq!(Direction::nearest_from(&vec2(-1, -1)), Direction::Down);
}

#[test]
fn detect_tangent_counts_as_hit() {
    // Ball center (0, 0), radius 10; rectangle spans x 10..20, y -5..5.
    // The closest point is (10, 0), exactly one radius away: a hit, and
    // the penetration vector (10, 0) classifies Right.
    let ball = ball_at(-10, -10, 10);
    let rect = rect_at(10, -5, 10, 10);
    match ball.check_collision(&rect) {
        Collision::Yes(direction, difference) => {
            assert_eq!(direction, Direction::Right);
            assert_eq!(difference, Vector2 { x: 10, y: 0 });
        }
        Collision::No => panic!("tangent contact must count as a hit"),
    }
}

#[test]
fn detect_miss_just_outside() {
    // Same geometry one unit farther: distance 11 > radius 10.
    let ball = ball_at(-11, -10, 10);
    let rect = rect_at(10, -5, 10, 10);
    assert!(matches!(ball.check_collision(&rect), Collision::No));
}

#[test]
fn detect_center_inside_rectangle() {
    // Ball center inside the rectangle: the clamped point is the center
    // itself, penetration (0, 0), and the tie rule yields Up.
    let ball = ball_at(5, 5, 10);
    let rect = rect_at(0, 0, 30, 30);
    match ball.check_collision(&rect) {
        Collision::Yes(direction, difference) => {
            assert_eq!(difference, Vector2 { x: 0, y: 0 });
            assert_eq!(direction, Direction::Up);
        }
        Collision::No => panic!("a contained circle must count as a hit"),
    }
}

#[test]
fn detect_euclidean_distance_rule() {
    // Diagonal case: ball center (0, 0), rectangle corner at (6, 8),
    // distance exactly 10.
    let ball = ball_at(-10, -10, 10);
    let rect = rect_at(6, 8, 4, 4);
    assert!(matches!(ball.check_collision(&rect), Collision::Yes(_, _)));
    // One unit farther on x: distance sqrt(49 + 64) > 10.
    let rect2 = rect_at(7, 8, 4, 4);
    assert!(matches!(ball.check_collision(&rect2), Collision::No));
}

use snake_arena::coordinate::{wrap_field, Coordinate, FIELD_SIZE};
use snake_arena::steering::{isqrt, steer};

#[test]
fn distance2_is_squared_euclidean() {
    let a = Coordinate { x: 3, y: 4 };
    let b = Coordinate { x: 0, y: 0 };
    assert_eq!(a.distance2(&b), 25);
    assert_eq!(b.distance2(&a), 25);
    assert_eq!(a.distance2(&a), 0);
}

#[test]
fn distance2_ignores_wrap_around() {
    let a = Coordinate { x: 1, y: 0 };
    let b = Coordinate { x: FIELD_SIZE - 1, y: 0 };
    assert_eq!(a.distance2(&b), (FIELD_SIZE - 2) * (FIELD_SIZE - 2));
}

#[test]
fn wrap_field_reduces_onto_field() {
    assert_eq!(wrap_field(0), 0);
    assert_eq!(wrap_field(FIELD_SIZE), 0);
    assert_eq!(wrap_field(-1), FIELD_SIZE - 1);
    assert_eq!(wrap_field(FIELD_SIZE + 7), 7);
    assert_eq!(wrap_field(-FIELD_SIZE), 0);
    assert_eq!(wrap_field(-3 * FIELD_SIZE - 5), FIELD_SIZE - 5);
}

#[test]
fn rectangle_inside_field() {
    let c = Coordinate { x: 150, y: 250 };
    assert!(c.is_in_rectangle(100, 200, 100, 100));
    assert!(!c.is_in_rectangle(160, 200, 100, 100));
    assert!(!c.is_in_rectangle(100, 260, 100, 100));
}

#[test]
fn rectangle_boundary_is_inclusive() {
    let c = Coordinate { x: 200, y: 300 };
    assert!(c.is_in_rectangle(100, 200, 100, 100));
    assert!(!c.is_in_rectangle(100, 200, 99, 100));
    let corner = Coordinate { x: 100, y: 200 };
    assert!(corner.is_in_rectangle(100, 200, 100, 100));
}

#[test]
fn rectangle_wrapping_left_and_top_edges() {
    let near_right = Coordinate { x: FIELD_SIZE - 10, y: 5 };
    assert!(near_right.is_in_rectangle(-50, -50, 100, 100));
    let near_bottom = Coordinate { x: 20, y: FIELD_SIZE - 1 };
    assert!(near_bottom.is_in_rectangle(-50, -50, 100, 100));
    let far = Coordinate { x: FIELD_SIZE / 2, y: FIELD_SIZE / 2 };
    assert!(!far.is_in_rectangle(-50, -50, 100, 100));
    let past_end = Coordinate { x: FIELD_SIZE - 60, y: 0 };
    assert!(!past_end.is_in_rectangle(-50, -50, 100, 100));
}

#[test]
fn rectangle_wrapping_right_edge() {
    let c = Coordinate { x: 30, y: 500 };
    assert!(c.is_in_rectangle(FIELD_SIZE - 20, 450, 100, 100));
    let d = Coordinate { x: 81, y: 500 };
    assert!(!d.is_in_rectangle(FIELD_SIZE - 20, 450, 100, 100));
}

#[test]
fn isqrt_exact_values() {
    assert_eq!(isqrt(0), 0);
    assert_eq!(isqrt(1), 1);
    assert_eq!(isqrt(15), 3);
    assert_eq!(isqrt(16), 4);
    assert_eq!(isqrt(17_000_000), 4123);
    assert_eq!(isqrt(1_000_000_000_000), 1_000_000);
}

#[test]
fn steer_turns_a_fifth_of_the_way() {
    let r = steer(Coordinate { x: 1000, y: 0 }, Coordinate { x: 0, y: 1000 });
    assert_eq!(r, Coordinate { x: 970, y: 242 });
}

#[test]
fn steer_keeps_heading_when_blend_vanishes() {
    let r = steer(Coordinate { x: 0, y: 0 }, Coordinate { x: 0, y: 0 });
    assert_eq!(r, Coordinate { x: 0, y: 0 });
}

#[test]
fn steer_along_same_heading_keeps_it() {
    let r = steer(Coordinate { x: 0, y: -1000 }, Coordinate { x: 0, y: -1000 });
    assert_eq!(r, Coordinate { x: 0, y: -1000 });
}

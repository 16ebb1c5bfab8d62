use snake_arena::coordinate::{Coordinate, FIELD_SIZE};
use snake_arena::engine::GameEngine;
use snake_arena::pellet::Pellet;

fn one_snake_at(at: Coordinate) -> GameEngine {
    let mut e = GameEngine::new();
    e.add_snake(1);
    for b in e.get_snake_mut(1).unwrap().bodies.iter_mut() {
        *b = at;
    }
    e
}

#[test]
fn view_reports_liveness() {
    let e = one_snake_at(Coordinate { x: 500, y: 500 });
    assert!(e.view(1, 500, 500, 200, 100).is_alive);
    assert!(!e.view(2, 500, 500, 200, 100).is_alive);
}

#[test]
fn view_rebases_visible_segments() {
    let e = one_snake_at(Coordinate { x: 500, y: 500 });
    let v = e.view(1, 500, 500, 200, 100);
    assert_eq!(v.snakes.len(), 1);
    assert_eq!(v.snakes[0].bodies.len(), 10);
    assert!(v.snakes[0].bodies.iter().all(|c| *c == Coordinate { x: 100, y: 50 }));
    assert!(v.snakes[0].is_visible_head);
}

#[test]
fn segment_on_the_viewport_edge_is_included() {
    let e = one_snake_at(Coordinate { x: 600, y: 550 });
    let v = e.view(1, 500, 500, 200, 100);
    assert_eq!(v.snakes[0].bodies.len(), 10);
    assert_eq!(v.snakes[0].bodies[0], Coordinate { x: 200, y: 100 });
    let c = Coordinate { x: 600, y: 550 };
    assert!(c.is_in_rectangle(400, 450, 200, 100));
}

#[test]
fn segment_just_past_the_edge_is_left_out() {
    let e = one_snake_at(Coordinate { x: 601, y: 550 });
    let v = e.view(1, 500, 500, 200, 100);
    assert_eq!(v.snakes.len(), 1);
    assert!(v.snakes[0].bodies.is_empty());
    assert!(!v.snakes[0].is_visible_head);
}

#[test]
fn far_segment_is_left_out() {
    let e = one_snake_at(Coordinate { x: 5000, y: 5000 });
    let v = e.view(1, 100, 100, 200, 200);
    assert!(v.snakes[0].bodies.is_empty());
}

#[test]
fn view_wraps_across_the_field_edge() {
    let e = one_snake_at(Coordinate { x: FIELD_SIZE - 10, y: 20 });
    let v = e.view(1, 30, 30, 200, 200);
    assert_eq!(v.snakes[0].bodies[0], Coordinate { x: 60, y: 90 });
}

#[test]
fn view_coordinates_stay_in_viewport() {
    let mut e = GameEngine::new();
    e.add_snake(1);
    e.add_snake(2);
    e.forward();
    let (w, h) = (1200, 800);
    let head = *e.get_snake(1).unwrap().get_head();
    let v = e.view(1, head.x, head.y, w, h);
    let ok = |c: &Coordinate| c.x >= 0 && c.x <= w && c.y >= 0 && c.y <= h;
    assert!(v.snakes.iter().all(|s| s.bodies.iter().all(ok)));
    assert!(v.pellets.iter().all(|p| ok(&p.position)));
    assert!(v.background_dots.iter().all(ok));
}

#[test]
fn view_pellets_and_dots() {
    let mut e = GameEngine::new();
    e.pellets.insert(Pellet::new(Coordinate { x: 150, y: 160 }));
    e.pellets.insert(Pellet::new(Coordinate { x: 900, y: 900 }));
    let v = e.view(9, 150, 150, 100, 100);
    assert!(!v.is_alive);
    assert_eq!(v.pellets.len(), 1);
    assert_eq!(v.pellets[0].position, Coordinate { x: 50, y: 60 });
    assert_eq!(v.pellets[0].center, Coordinate { x: 150, y: 160 });
    assert_eq!(v.background_dots, vec![
        Coordinate { x: 0, y: 0 },
        Coordinate { x: 0, y: 100 },
        Coordinate { x: 100, y: 0 },
        Coordinate { x: 100, y: 100 },
    ]);
}

#[test]
fn map_counts_segments_and_pellets() {
    let mut e = one_snake_at(Coordinate { x: 250, y: 9999 });
    e.pellets.insert(Pellet::new(Coordinate { x: 299, y: 9900 }));
    e.pellets.insert(Pellet::new(Coordinate { x: 0, y: 0 }));
    let m = e.map(250, 9999);
    assert_eq!(m.map.len(), 100);
    assert!(m.map.iter().all(|row| row.len() == 100));
    assert_eq!(m.map[2][99], 11);
    assert_eq!(m.map[0][0], 1);
    let total: u32 = m.map.iter().map(|r| r.iter().sum::<u32>()).sum();
    assert_eq!(total, 12);
    assert_eq!(m.self_coordinate, (2, 99));
    assert_eq!(e.map(-5, 150).self_coordinate, (0, 1));
}

#[test]
fn view_carries_the_map() {
    let e = one_snake_at(Coordinate { x: 250, y: 350 });
    let v = e.view(1, 250, 350, 100, 100);
    assert_eq!(v.map.map[2][3], 10);
    assert_eq!(v.map.self_coordinate, (2, 3));
}

use snake_arena::coordinate::Coordinate;
use snake_arena::palette::palette_hue;
use snake_arena::pellet::Pellet;
use snake_arena::snake::Snake;

fn in_palette(h: u16) -> bool {
    [8u16, 120, 240, 60, 30, 300, 330].contains(&h)
}

#[test]
fn palette_hues_in_order() {
    let hues: Vec<u16> = (0..7).map(palette_hue).collect();
    assert_eq!(hues, vec![8, 120, 240, 60, 30, 300, 330]);
}

#[test]
fn new_snake_has_ten_segments_at_spawn() {
    let p = Coordinate { x: 1234, y: 5678 };
    let s = Snake::new(p, 5);
    assert_eq!(s.bodies.len(), 10);
    assert!(s.bodies.iter().all(|b| *b == p));
    assert_eq!(s.size, 15);
    assert_eq!(s.speed, 5);
    assert_eq!(s.acceleration_time_left, 0);
    assert_eq!(s.velocity, Coordinate { x: 1000, y: 0 });
    assert_eq!(s.frame_count_offset, 0);
    assert!(s.is_visible_head);
    assert!(in_palette(s.color));
    assert_eq!(*s.get_head(), p);
    assert_eq!(*s.get_tail(), p);
}

#[test]
fn head_and_tail_are_first_and_last() {
    let mut s = Snake::new(Coordinate { x: 0, y: 0 }, 5);
    s.bodies[0] = Coordinate { x: 1, y: 2 };
    s.bodies[9] = Coordinate { x: 3, y: 4 };
    assert_eq!(*s.get_head(), Coordinate { x: 1, y: 2 });
    assert_eq!(*s.get_tail(), Coordinate { x: 3, y: 4 });
}

#[test]
fn short_snake_cannot_boost() {
    let mut s = Snake::new(Coordinate { x: 10, y: 10 }, 5);
    s.accelerate();
    assert_eq!(s.acceleration_time_left, 0);
}

#[test]
fn long_snake_boosts_for_sixty_frames() {
    let mut s = Snake::new(Coordinate { x: 10, y: 10 }, 5);
    for _ in 0..10 {
        s.bodies.push(Coordinate { x: 10, y: 10 });
    }
    assert_eq!(s.bodies.len(), 20);
    s.accelerate();
    assert_eq!(s.acceleration_time_left, 60);
}

#[test]
fn new_pellet_rests_at_its_center() {
    let p = Coordinate { x: 42, y: 4242 };
    for _ in 0..50 {
        let q = Pellet::new(p);
        assert_eq!(q.center, p);
        assert_eq!(q.position, p);
        assert!(q.radius >= 5 && q.radius < 50);
        assert!(q.size >= 1 && q.size <= 3);
        assert!(in_palette(q.color));
        assert_eq!(q.frame_count_offset, 0);
        assert!(!q.pulled);
    }
}

#[test]
fn feed_pellet_keeps_color_and_size() {
    let p = Coordinate { x: 7, y: 9 };
    let q = Pellet::new_with_color_and_size(p, 240, 3);
    assert_eq!(q.color, 240);
    assert_eq!(q.size, 3);
    assert_eq!(q.center, p);
    assert!(q.radius >= 5 && q.radius < 50);
}

#[test]
fn pellet_orbit_positions() {
    let mut q = Pellet::new_with_color_and_size(Coordinate { x: 500, y: 500 }, 8, 1);
    q.radius = 10;
    q.update();
    assert_eq!(q.position, Coordinate { x: 501, y: 500 });
    q.frame_count_offset = 18;
    q.update();
    assert_eq!(q.position, Coordinate { x: 500, y: 501 });
    q.frame_count_offset = 36;
    q.update();
    assert_eq!(q.position, Coordinate { x: 499, y: 500 });
    q.frame_count_offset = 54;
    q.update();
    assert_eq!(q.position, Coordinate { x: 500, y: 499 });
    q.frame_count_offset = 72 + 18;
    q.update();
    assert_eq!(q.position, Coordinate { x: 500, y: 501 });
}

#[test]
fn pellet_orbit_wraps_at_field_edge() {
    let mut q = Pellet::new_with_color_and_size(Coordinate { x: 0, y: 0 }, 8, 1);
    q.radius = 49;
    q.frame_count_offset = 36;
    q.update();
    assert_eq!(q.position, Coordinate { x: 9995, y: 0 });
    assert_eq!(q.center, Coordinate { x: 0, y: 0 });
}

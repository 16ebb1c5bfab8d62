use snake_arena::collision::collision_deaths;
use snake_arena::coordinate::{Coordinate, FIELD_SIZE};
use snake_arena::engine::{GameEngine, MAX_PELLET_COUNT};
use snake_arena::feed::{drop_feed, feed_centers};
use snake_arena::pellet_table::PelletTable;
use snake_arena::pellet::Pellet;
use snake_arena::snake::Snake;

fn place(engine: &mut GameEngine, id: u128, at: Coordinate) {
    let s = engine.get_snake_mut(id).unwrap();
    for b in s.bodies.iter_mut() {
        *b = at;
    }
}

fn all_in_field(engine: &GameEngine) -> bool {
    let inside = |c: &Coordinate| c.x >= 0 && c.x < FIELD_SIZE && c.y >= 0 && c.y < FIELD_SIZE;
    engine.snakes.iter().all(|(_, s)| s.bodies.iter().all(inside))
        && engine.pellets.entries.iter().all(|(_, p)| inside(&p.position) && inside(&p.center))
}

fn size_for(len: usize) -> usize {
    (15 + len / 50).min(40)
}

#[test]
fn new_engine_is_empty() {
    let e = GameEngine::new();
    assert_eq!(e.frame_count, 0);
    assert!(e.snakes.is_empty());
    assert_eq!(e.pellets.len(), 0);
}

#[test]
fn random_coordinates_lie_in_field() {
    let e = GameEngine::new();
    for _ in 0..1000 {
        let c = e.get_random_coordinate();
        assert!(c.x >= 0 && c.x < FIELD_SIZE && c.y >= 0 && c.y < FIELD_SIZE);
    }
}

#[test]
fn add_and_get_snake() {
    let mut e = GameEngine::new();
    assert!(e.get_snake(7).is_none());
    e.add_snake(7);
    let s = e.get_snake(7).unwrap();
    assert_eq!(s.bodies.len(), 10);
    assert_eq!(s.speed, 5);
    assert!(e.get_snake(8).is_none());
}

#[test]
fn adding_a_present_player_replaces_its_snake() {
    let mut e = GameEngine::new();
    e.add_snake(1);
    e.get_snake_mut(1).unwrap().speed = 9;
    e.add_snake(1);
    assert_eq!(e.snakes.len(), 1);
    assert_eq!(e.get_snake(1).unwrap().speed, 5);
}

#[test]
fn removing_an_absent_player_changes_nothing() {
    let mut e = GameEngine::new();
    e.add_snake(1);
    e.remove_snake(2);
    assert_eq!(e.snakes.len(), 1);
    assert_eq!(e.pellets.len(), 0);
}

#[test]
fn removed_snake_leaves_at_most_one_pellet_per_segment() {
    let mut e = GameEngine::new();
    e.add_snake(3);
    let at = Coordinate { x: 5, y: 5 };
    place(&mut e, 3, at);
    let color = e.get_snake(3).unwrap().color;
    e.remove_snake(3);
    assert!(e.get_snake(3).is_none());
    assert!(e.pellets.len() <= 10);
    for (_, p) in e.pellets.entries.iter() {
        assert_eq!(p.size, 3);
        assert_eq!(p.color, color);
        let dx = (p.center.x - at.x + 10).rem_euclid(FIELD_SIZE);
        let dy = (p.center.y - at.y + 10).rem_euclid(FIELD_SIZE);
        assert!(dx < 20 && dy < 20);
    }
    assert!(all_in_field(&e));
}

#[test]
fn fill_from_empty_reaches_the_cap_exactly() {
    let mut e = GameEngine::new();
    e.fill_pellet();
    assert_eq!(e.pellets.len(), MAX_PELLET_COUNT);
    e.fill_pellet();
    assert_eq!(e.pellets.len(), MAX_PELLET_COUNT);
}

#[test]
fn fresh_engine_after_one_frame_has_the_cap_of_pellets() {
    let mut e = GameEngine::new();
    e.forward();
    assert_eq!(e.pellets.len(), MAX_PELLET_COUNT);
    assert_eq!(e.frame_count, 1);
}

#[test]
fn pellet_ids_stay_unique() {
    let mut e = GameEngine::new();
    e.add_snake(1);
    for _ in 0..3 {
        e.forward();
    }
    let mut ids: Vec<u64> = e.pellets.entries.iter().map(|(id, _)| *id).collect();
    let n = ids.len();
    ids.sort();
    ids.dedup();
    assert_eq!(ids.len(), n);
}

#[test]
fn idle_snake_keeps_its_length() {
    let mut e = GameEngine::new();
    e.add_snake(1);
    place(&mut e, 1, Coordinate { x: 100, y: 100 });
    e.forward();
    let s = e.get_snake(1).unwrap();
    assert_eq!(s.bodies.len(), 10);
    assert_eq!(s.bodies[0], Coordinate { x: 105, y: 100 });
    assert_eq!(s.bodies[1], Coordinate { x: 100, y: 100 });
}

#[test]
fn head_wraps_across_the_field_edge() {
    let mut e = GameEngine::new();
    e.add_snake(1);
    place(&mut e, 1, Coordinate { x: FIELD_SIZE - 2, y: 300 });
    e.forward();
    assert_eq!(e.get_snake(1).unwrap().bodies[0], Coordinate { x: 3, y: 300 });
    assert!(all_in_field(&e));
}

#[test]
fn eating_a_pellet_grows_by_one_and_removes_it() {
    let mut e = GameEngine::new();
    e.add_snake(1);
    place(&mut e, 1, Coordinate { x: 100, y: 100 });
    e.pellets.insert(Pellet::new(Coordinate { x: 105, y: 100 }));
    let id = e.pellets.entries[0].0;
    e.forward();
    let s = e.get_snake(1).unwrap();
    assert_eq!(s.bodies.len(), 11);
    assert_eq!(s.bodies[10], s.bodies[9]);
    assert!(e.pellets.entries.iter().all(|(pid, _)| *pid != id));
}

#[test]
fn pellet_in_reach_is_drawn_toward_the_head() {
    let mut e = GameEngine::new();
    e.add_snake(1);
    place(&mut e, 1, Coordinate { x: 100, y: 100 });
    e.pellets.insert(Pellet::new(Coordinate { x: 105, y: 120 }));
    let id = e.pellets.entries[0].0;
    e.forward();
    let (_, p) = e.pellets.entries.iter().find(|(pid, _)| *pid == id).unwrap();
    assert_eq!(p.position, Coordinate { x: 105, y: 116 });
    assert_eq!(p.frame_count_offset, 1);
    assert!(!p.pulled);
}

#[test]
fn size_follows_length_after_a_frame() {
    let mut e = GameEngine::new();
    e.add_snake(1);
    {
        let s = e.get_snake_mut(1).unwrap();
        for _ in 0..100 {
            s.bodies.push(Coordinate { x: 500, y: 500 });
        }
        s.size = size_for(s.bodies.len());
        for b in s.bodies.iter_mut() {
            *b = Coordinate { x: 500, y: 500 };
        }
    }
    e.forward();
    for (_, s) in e.snakes.iter() {
        assert_eq!(s.size, size_for(s.bodies.len()));
    }
    assert_eq!(e.get_snake(1).unwrap().size, 17);
}

#[test]
fn boosting_snake_sheds_its_tail_as_food() {
    let mut e = GameEngine::new();
    e.add_snake(1);
    {
        let s = e.get_snake_mut(1).unwrap();
        for _ in 0..10 {
            s.bodies.push(Coordinate { x: 0, y: 0 });
        }
        for (k, b) in s.bodies.iter_mut().enumerate() {
            *b = Coordinate { x: 2000 - 5 * k as i64, y: 2000 };
        }
    }
    e.accelerate(1);
    e.forward();
    let s = e.get_snake(1).unwrap();
    assert_eq!(s.acceleration_time_left, 59);
    assert_eq!(s.bodies.len(), 19);
    assert_eq!(s.bodies[0], Coordinate { x: 2010, y: 2000 });
    assert!(e.pellets.entries.iter().any(|(_, p)| p.size == 3 && p.center == Coordinate { x: 1905, y: 2000 }));
}

#[test]
fn steering_through_the_engine() {
    let mut e = GameEngine::new();
    e.add_snake(1);
    e.change_velocity(1, Coordinate { x: 0, y: 1000 });
    assert_eq!(e.get_snake(1).unwrap().velocity, Coordinate { x: 970, y: 242 });
    e.change_velocity(2, Coordinate { x: 0, y: 1000 });
    assert_eq!(e.snakes.len(), 1);
}

#[test]
fn population_never_drops_below_the_cap() {
    let mut e = GameEngine::new();
    e.add_snake(1);
    e.add_snake(2);
    for _ in 0..5 {
        e.forward();
        assert!(e.pellets.len() >= MAX_PELLET_COUNT);
        assert!(all_in_field(&e));
    }
}

#[test]
fn level_head_on_clash_kills_exactly_one() {
    for _ in 0..20 {
        let mut e = GameEngine::new();
        e.fill_pellet();
        e.add_snake(1);
        e.add_snake(2);
        place(&mut e, 1, Coordinate { x: 3000, y: 3000 });
        place(&mut e, 2, Coordinate { x: 3001, y: 3000 });
        let before = e.pellets.len();
        e.forward();
        assert_eq!(e.snakes.len(), 1);
        assert!(e.pellets.len() >= MAX_PELLET_COUNT);
        assert!(e.pellets.len() <= before + 10);
    }
}

#[test]
fn smaller_snake_loses_head_on() {
    let mut big = Snake::new(Coordinate { x: 100, y: 100 }, 5);
    for _ in 0..90 {
        big.bodies.push(Coordinate { x: 100, y: 100 });
    }
    big.size = size_for(big.bodies.len());
    let small = Snake::new(Coordinate { x: 120, y: 100 }, 5);
    let snakes = vec![(1u128, small), (2u128, big)];
    for coin in [true, false] {
        let dead = collision_deaths(&snakes, &vec![coin, coin]);
        assert_eq!(dead, vec![true, false]);
    }
}

#[test]
fn boosting_snake_wins_head_on() {
    let mut a = Snake::new(Coordinate { x: 100, y: 100 }, 5);
    a.acceleration_time_left = 3;
    let b = Snake::new(Coordinate { x: 110, y: 100 }, 5);
    let snakes = vec![(1u128, a), (2u128, b)];
    assert_eq!(collision_deaths(&snakes, &vec![true, true]), vec![false, true]);
}

#[test]
fn level_clash_follows_the_coin() {
    let a = Snake::new(Coordinate { x: 100, y: 100 }, 5);
    let b = Snake::new(Coordinate { x: 101, y: 100 }, 5);
    let snakes = vec![(1u128, a), (2u128, b)];
    assert_eq!(collision_deaths(&snakes, &vec![true, false]), vec![true, false]);
    assert_eq!(collision_deaths(&snakes, &vec![false, true]), vec![false, true]);
}

#[test]
fn head_into_body_kills_only_the_mover() {
    let mut a = Snake::new(Coordinate { x: 100, y: 100 }, 5);
    for (k, s) in a.bodies.iter_mut().enumerate() {
        *s = Coordinate { x: 100 + 10 * k as i64, y: 100 };
    }
    let b = Snake::new(Coordinate { x: 190, y: 120 }, 5);
    let snakes = vec![(1u128, a), (2u128, b)];
    assert_eq!(collision_deaths(&snakes, &vec![false, false]), vec![false, true]);
}

#[test]
fn distant_snakes_survive() {
    let a = Snake::new(Coordinate { x: 100, y: 100 }, 5);
    let b = Snake::new(Coordinate { x: 1000, y: 1000 }, 5);
    let snakes = vec![(1u128, a), (2u128, b)];
    assert_eq!(collision_deaths(&snakes, &vec![true, true]), vec![false, false]);
}

#[test]
fn feed_centers_follow_the_draws() {
    let bodies = vec![
        Coordinate { x: 5, y: 5 },
        Coordinate { x: 100, y: 100 },
        Coordinate { x: 9995, y: 0 },
    ];
    let r = feed_centers(&bodies, &vec![4, 5, 0], &vec![(0, 19), (3, 3), (15, 10)]);
    assert_eq!(r, vec![
        Some(Coordinate { x: 9995, y: 14 }),
        None,
        Some(Coordinate { x: 0, y: 0 }),
    ]);
}

#[test]
fn drop_feed_appends_under_fresh_ids() {
    let mut t = PelletTable::new();
    t.insert(Pellet::new(Coordinate { x: 1, y: 1 }));
    let s = Snake::new(Coordinate { x: 500, y: 500 }, 5);
    drop_feed(&mut t, &s);
    assert!(t.len() >= 1 && t.len() <= 11);
    assert_eq!(t.entries[0].0, 0);
    for (k, (id, p)) in t.entries.iter().enumerate().skip(1) {
        assert_eq!(*id, k as u64);
        assert_eq!(p.size, 3);
        assert_eq!(p.color, s.color);
        assert_eq!(p.center, p.position);
        assert!((p.center.x - 490).abs() <= 20 && p.center.x >= 490 && p.center.y >= 490 && p.center.y < 510);
    }
    assert_eq!(t.next_id, t.len() as u64);
}

use vstd::prelude::*;

use crate::coordinate::{in_field, in_rect, rebase, wrap, wrap_field, Coordinate, COORD_LIMIT, FIELD_SIZE};
use crate::engine::GameEngine;
use crate::map::{count_in, occupied_points, saturated, GRID_SIDE};
use crate::pellet::Pellet;
use crate::snake::Snake;

verus! {

/// Spacing of the background dots, in field units, on both axes.
pub const DOT_SPACING: i64 = 100;

/// Dots per row and per column of the background grid.
pub const DOTS_PER_SIDE: i64 = 100;

/// The points of `pts` inside the (wrapping) rectangle, re-expressed relative to its
/// corner, in their order.
pub open spec fn crop(pts: Seq<Coordinate>, x0: int, y0: int, w: int, h: int) -> Seq<Coordinate>
    decreases pts.len(),
{
    if pts.len() == 0 {
        Seq::empty()
    } else {
        let rest = crop(pts.drop_last(), x0, y0, w, h);
        if in_rect(pts.last(), x0, y0, w, h) {
            rest.push(rebase(pts.last(), x0, y0))
        } else {
            rest
        }
    }
}

/// The pellets of `ps` whose position is inside the rectangle, moved into its coordinates.
pub open spec fn crop_pellets(ps: Seq<(u64, Pellet)>, x0: int, y0: int, w: int, h: int) -> Seq<Pellet>
    decreases ps.len(),
{
    if ps.len() == 0 {
        Seq::empty()
    } else {
        let rest = crop_pellets(ps.drop_last(), x0, y0, w, h);
        let p = ps.last().1;
        if in_rect(p.position, x0, y0, w, h) {
            rest.push(Pellet { position: rebase(p.position, x0, y0), ..p })
        } else {
            rest
        }
    }
}

/// Whether `v` is what a viewer sees of snake `s`: its segments inside the rectangle, whether
/// its head is, and all else as it is.
pub open spec fn shows_snake(v: Snake, s: Snake, x0: int, y0: int, w: int, h: int) -> bool {
    &&& v.bodies@ == crop(s.bodies@, x0, y0, w, h)
    &&& v.is_visible_head == in_rect(s.bodies@[0], x0, y0, w, h)
    &&& v.acceleration_time_left == s.acceleration_time_left
    &&& v.speed == s.speed
    &&& v.color == s.color
    &&& v.velocity == s.velocity
    &&& v.size == s.size
    &&& v.frame_count_offset == s.frame_count_offset
}

/// The background grid: dot `k` stands at `(DOT_SPACING * (k / DOTS_PER_SIDE), DOT_SPACING * (k % DOTS_PER_SIDE))`.
pub open spec fn grid_dots() -> Seq<Coordinate> {
    Seq::new(
        (DOTS_PER_SIDE * DOTS_PER_SIDE) as nat,
        |k: int| Coordinate { x: (DOT_SPACING * (k / DOTS_PER_SIDE as int)) as i64, y: (DOT_SPACING * (k % DOTS_PER_SIDE as int)) as i64 },
    )
}

/// Every point a crop keeps lies in `[0, w] x [0, h]` of the viewport.
pub proof fn lemma_crop_within(pts: Seq<Coordinate>, x0: int, y0: int, w: int, h: int)
    ensures
        forall|k: int| 0 <= k < crop(pts, x0, y0, w, h).len() ==> {
            let c = #[trigger] crop(pts, x0, y0, w, h)[k];
            0 <= c.x <= w && 0 <= c.y <= h
        },
    decreases pts.len(),
{
    if pts.len() > 0 {
        lemma_crop_within(pts.drop_last(), x0, y0, w, h);
        let rest = crop(pts.drop_last(), x0, y0, w, h);
        let l = pts.last();
        if in_rect(l, x0, y0, w, h) {
            let c = rebase(l, x0, y0);
            assert(0 <= wrap(l.x - x0) < FIELD_SIZE);
            assert(0 <= wrap(l.y - y0) < FIELD_SIZE);
            assert forall|k: int| 0 <= k < crop(pts, x0, y0, w, h).len() implies {
                let c = #[trigger] crop(pts, x0, y0, w, h)[k];
                0 <= c.x <= w && 0 <= c.y <= h
            } by {
                if k < rest.len() {
                    assert(crop(pts, x0, y0, w, h)[k] == rest[k]);
                }
            }
        }
    }
}

/// Every pellet a crop keeps lies in `[0, w] x [0, h]` of the viewport.
pub proof fn lemma_crop_pellets_within(ps: Seq<(u64, Pellet)>, x0: int, y0: int, w: int, h: int)
    ensures
        forall|k: int| 0 <= k < crop_pellets(ps, x0, y0, w, h).len() ==> {
            let c = (#[trigger] crop_pellets(ps, x0, y0, w, h)[k]).position;
            0 <= c.x <= w && 0 <= c.y <= h
        },
    decreases ps.len(),
{
    if ps.len() > 0 {
        lemma_crop_pellets_within(ps.drop_last(), x0, y0, w, h);
        let rest = crop_pellets(ps.drop_last(), x0, y0, w, h);
        let l = ps.last().1.position;
        if in_rect(l, x0, y0, w, h) {
            assert(0 <= wrap(l.x - x0) < FIELD_SIZE);
            assert(0 <= wrap(l.y - y0) < FIELD_SIZE);
            assert forall|k: int| 0 <= k < crop_pellets(ps, x0, y0, w, h).len() implies {
                let c = (#[trigger] crop_pellets(ps, x0, y0, w, h)[k]).position;
                0 <= c.x <= w && 0 <= c.y <= h
            } by {
                if k < rest.len() {
                    assert(crop_pellets(ps, x0, y0, w, h)[k] == rest[k]);
                }
            }
        }
    }
}

/// A point makes it into a crop exactly when `is_in_rectangle` holds of it.
pub proof fn lemma_crop_single(c: Coordinate, x0: int, y0: int, w: int, h: int)
    ensures
        crop(seq![c], x0, y0, w, h).len() == (if in_rect(c, x0, y0, w, h) { 1int } else { 0int }),
        in_rect(c, x0, y0, w, h) ==> crop(seq![c], x0, y0, w, h)[0] == rebase(c, x0, y0),
{
    assert(seq![c].drop_last() =~= Seq::<Coordinate>::empty());
    assert(crop(Seq::<Coordinate>::empty(), x0, y0, w, h) =~= Seq::<Coordinate>::empty());
}

proof fn lemma_prefix_last<T>(s: Seq<T>, i: int)
    requires
        0 <= i < s.len(),
    ensures
        s.subrange(0, i + 1).drop_last() == s.subrange(0, i),
        s.subrange(0, i + 1).last() == s[i],
{
    assert(s.subrange(0, i + 1).drop_last() =~= s.subrange(0, i));
}

/// The points of `pts` inside the rectangle, moved into its coordinates.
pub fn crop_points(pts: &Vec<Coordinate>, x0: i64, y0: i64, width: i64, height: i64) -> (r: Vec<Coordinate>)
    requires
        forall|i: int| 0 <= i < pts@.len() ==> in_field(#[trigger] pts@[i]),
        -COORD_LIMIT <= x0 <= COORD_LIMIT,
        -COORD_LIMIT <= y0 <= COORD_LIMIT,
    ensures
        r@ == crop(pts@, x0 as int, y0 as int, width as int, height as int),
{
    let mut r: Vec<Coordinate> = Vec::new();
    let mut i: usize = 0;
    while i < pts.len()
        invariant
            forall|k: int| 0 <= k < pts@.len() ==> in_field(#[trigger] pts@[k]),
            -COORD_LIMIT <= x0 <= COORD_LIMIT,
            -COORD_LIMIT <= y0 <= COORD_LIMIT,
            i <= pts@.len(),
            r@ == crop(pts@.subrange(0, i as int), x0 as int, y0 as int, width as int, height as int),
        decreases pts@.len() - i,
    {
        let c = pts[i];
        proof {
            lemma_prefix_last(pts@, i as int);
            assert(in_field(pts@[i as int]));
        }
        if c.is_in_rectangle(x0, y0, width, height) {
            r.push(Coordinate { x: wrap_field(c.x - x0), y: wrap_field(c.y - y0) });
        }
        i = i + 1;
    }
    proof {
        assert(pts@.subrange(0, pts@.len() as int) =~= pts@);
    }
    r
}

impl GameEngine {
    /// What the player `id` sees in a viewport of `width` by `height` centred on `(cx, cy)`:
    /// every snake with only its segments inside, every pellet inside, the background dots
    /// inside, all relative to the viewport's corner; the occupancy map of the whole field;
    /// and whether the player has a snake.
    pub fn view(&self, id: u128, cx: i64, cy: i64, width: i64, height: i64) -> (r: crate::view::View)
        requires
            self.wf(),
            -COORD_LIMIT / 2 <= cx <= COORD_LIMIT / 2,
            -COORD_LIMIT / 2 <= cy <= COORD_LIMIT / 2,
            0 <= width <= COORD_LIMIT,
            0 <= height <= COORD_LIMIT,
        ensures
            r.is_alive == self.has_snake(id),
            r.snakes@.len() == self.snakes@.len(),
            forall|i: int| 0 <= i < self.snakes@.len() ==> shows_snake(#[trigger] r.snakes@[i],
                self.snakes@[i].1, cx - width / 2, cy - height / 2, width as int, height as int),
            r.pellets@ == crop_pellets(self.pellets.entries@, cx - width / 2, cy - height / 2, width as int, height as int),
            r.background_dots@ == crop(grid_dots(), cx - width / 2, cy - height / 2, width as int, height as int),
            r.map.wf(),
            r.map.self_coordinate == crate::map::cell_of_center(cx as int, cy as int),
            forall|a: int, b: int| 0 <= a < GRID_SIDE && 0 <= b < GRID_SIDE ==>
                (#[trigger] r.map.map@[a]@[b]) == saturated(count_in(occupied_points(*self), a * GRID_SIDE as int + b)),
    {
        let x0 = cx - width / 2;
        let y0 = cy - height / 2;

        let mut snakes: Vec<Snake> = Vec::new();
        let mut i: usize = 0;
        while i < self.snakes.len()
            invariant
                self.wf(),
                x0 == cx - width / 2,
                y0 == cy - height / 2,
                -COORD_LIMIT <= x0 <= COORD_LIMIT,
                -COORD_LIMIT <= y0 <= COORD_LIMIT,
                i <= self.snakes@.len(),
                snakes@.len() == i,
                forall|k: int| 0 <= k < i ==> shows_snake(#[trigger] snakes@[k],
                    self.snakes@[k].1, x0 as int, y0 as int, width as int, height as int),
            decreases self.snakes@.len() - i,
        {
            let s = &self.snakes[i].1;
            proof {
                assert(self.snakes@[i as int].1.wf());
            }
            let ghost old_snakes = snakes@;
            let bodies = crop_points(&s.bodies, x0, y0, width, height);
            let is_visible_head = s.bodies[0].is_in_rectangle(x0, y0, width, height);
            let v = Snake {
                bodies,
                acceleration_time_left: s.acceleration_time_left,
                speed: s.speed,
                color: s.color,
                velocity: s.velocity,
                size: s.size,
                frame_count_offset: s.frame_count_offset,
                is_visible_head,
            };
            proof {
                assert(v.bodies@ == crop(s.bodies@, x0 as int, y0 as int, width as int, height as int));
                assert(shows_snake(v, *s, x0 as int, y0 as int, width as int, height as int));
            }
            snakes.push(v);
            proof {
                assert forall|k: int| 0 <= k < i + 1 implies shows_snake(#[trigger] snakes@[k],
                    self.snakes@[k].1, x0 as int, y0 as int, width as int, height as int) by {
                    if k < i {
                        assert(snakes@[k] == old_snakes[k]);
                    }
                }
            }
            i = i + 1;
        }

        let mut pellets: Vec<Pellet> = Vec::new();
        let mut j: usize = 0;
        let entries = &self.pellets.entries;
        while j < entries.len()
            invariant
                self.wf(),
                *entries == self.pellets.entries,
                -COORD_LIMIT <= x0 <= COORD_LIMIT,
                -COORD_LIMIT <= y0 <= COORD_LIMIT,
                j <= entries@.len(),
                pellets@ == crop_pellets(entries@.subrange(0, j as int), x0 as int, y0 as int, width as int, height as int),
            decreases entries@.len() - j,
        {
            let p = entries[j].1;
            proof {
                lemma_prefix_last(entries@, j as int);
                assert(entries@[j as int].1.wf());
            }
            if p.position.is_in_rectangle(x0, y0, width, height) {
                pellets.push(Pellet {
                    position: Coordinate { x: wrap_field(p.position.x - x0), y: wrap_field(p.position.y - y0) },
                    ..p
                });
            }
            j = j + 1;
        }
        proof {
            assert(entries@.subrange(0, entries@.len() as int) =~= entries@);
        }

        let mut grid: Vec<Coordinate> = Vec::new();
        let mut a: i64 = 0;
        while a < DOTS_PER_SIDE
            invariant
                0 <= a <= DOTS_PER_SIDE,
                grid@ == grid_dots().subrange(0, a * DOTS_PER_SIDE),
            decreases DOTS_PER_SIDE - a,
        {
            let mut b: i64 = 0;
            while b < DOTS_PER_SIDE
                invariant
                    0 <= a < DOTS_PER_SIDE,
                    0 <= b <= DOTS_PER_SIDE,
                    grid@ == grid_dots().subrange(0, a * DOTS_PER_SIDE + b),
                decreases DOTS_PER_SIDE - b,
            {
                let ghost k = a * DOTS_PER_SIDE + b;
                proof {
                    vstd::arithmetic::div_mod::lemma_fundamental_div_mod_converse(k, DOTS_PER_SIDE as int, a as int, b as int);
                }
                grid.push(Coordinate { x: DOT_SPACING * a, y: DOT_SPACING * b });
                proof {
                    assert(grid@ =~= grid_dots().subrange(0, k + 1));
                }
                b = b + 1;
            }
            a = a + 1;
        }
        proof {
            assert(grid@ =~= grid_dots());
            assert forall|k: int| 0 <= k < grid@.len() implies in_field(#[trigger] grid@[k]) by {
                assert(0 <= k / 100 < 100) by {
                    vstd::arithmetic::div_mod::lemma_div_pos_is_pos(k, 100);
                    vstd::arithmetic::div_mod::lemma_div_is_ordered(k, 9999, 100);
                }
            }
        }
        let background_dots = crop_points(&grid, x0, y0, width, height);

        crate::view::View {
            is_alive: self.snake_index(id).is_some(),
            snakes,
            pellets,
            background_dots,
            map: self.map(cx, cy),
        }
    }
}

} // verus!

use vstd::prelude::*;

use crate::coordinate::{in_field, Coordinate, COORD_LIMIT};
use crate::engine::GameEngine;
use crate::snake::Snake;

verus! {

/// Cells per side of the occupancy grid.
pub const GRID_SIDE: usize = 100;

/// Side of one grid cell, in field units.
pub const CELL_SIZE: i64 = 100;

/// The occupancy grid: `map[a][b]` counts the snake segments and pellets in the cell of
/// column `a` and row `b`; `self_coordinate` is the viewer's own cell.
pub struct OccupancyMap {
    pub map: Vec<Vec<u32>>,
    pub self_coordinate: (usize, usize),
}

impl OccupancyMap {
    pub open spec fn wf(&self) -> bool {
        &&& self.map@.len() == GRID_SIDE
        &&& forall|a: int| 0 <= a < GRID_SIDE ==> (#[trigger] self.map@[a])@.len() == GRID_SIDE
    }
}

/// Index of the cell of `c` in the grid read column by column.
pub open spec fn cell_of(c: Coordinate) -> int {
    (c.x as int / CELL_SIZE as int) * GRID_SIDE as int + c.y as int / CELL_SIZE as int
}

/// The cell of the point `(cx, cy)`; a negative coordinate counts as cell 0.
pub open spec fn cell_of_center(cx: int, cy: int) -> (usize, usize) {
    (
        (if cx < 0 { 0 } else { cx / CELL_SIZE as int }) as usize,
        (if cy < 0 { 0 } else { cy / CELL_SIZE as int }) as usize,
    )
}

/// How many points of `pts` lie in cell `cell`.
pub open spec fn count_in(pts: Seq<Coordinate>, cell: int) -> nat
    decreases pts.len(),
{
    if pts.len() == 0 {
        0
    } else {
        count_in(pts.drop_last(), cell) + if cell_of(pts.last()) == cell { 1nat } else { 0nat }
    }
}

/// The segments of all snakes, snake after snake.
pub open spec fn snake_points(s: Seq<(u128, Snake)>) -> Seq<Coordinate>
    decreases s.len(),
{
    if s.len() == 0 {
        Seq::empty()
    } else {
        snake_points(s.drop_last()) + s.last().1.bodies@
    }
}

/// Every point the occupancy grid counts: all snake segments, then all pellet positions.
pub open spec fn occupied_points(e: GameEngine) -> Seq<Coordinate> {
    snake_points(e.snakes@) + e.pellets.entries@.map_values(|p: (u64, crate::pellet::Pellet)| p.1.position)
}

pub open spec fn saturated(n: nat) -> u32 {
    if n < u32::MAX { n as u32 } else { u32::MAX }
}

proof fn lemma_count_push(pts: Seq<Coordinate>, p: Coordinate, cell: int)
    ensures
        count_in(pts.push(p), cell) == count_in(pts, cell) + if cell_of(p) == cell { 1nat } else { 0nat },
{
    assert(pts.push(p).drop_last() =~= pts);
}

proof fn lemma_cell_in_grid(c: Coordinate)
    requires
        in_field(c),
    ensures
        0 <= cell_of(c) < 10000,
{
    vstd::arithmetic::div_mod::lemma_div_pos_is_pos(c.x as int, 100);
    vstd::arithmetic::div_mod::lemma_div_is_ordered(c.x as int, 9999, 100);
    vstd::arithmetic::div_mod::lemma_div_pos_is_pos(c.y as int, 100);
    vstd::arithmetic::div_mod::lemma_div_is_ordered(c.y as int, 9999, 100);
}

/// Counts `p` in the flat grid, stopping at the largest count a `u32` holds.
fn tally(counts: &mut Vec<u32>, p: Coordinate, pts: Ghost<Seq<Coordinate>>)
    requires
        in_field(p),
        old(counts)@.len() == 10000,
        forall|c: int| 0 <= c < 10000 ==> (#[trigger] old(counts)@[c]) == saturated(count_in(pts@, c)),
    ensures
        final(counts)@.len() == 10000,
        forall|c: int| 0 <= c < 10000 ==> (#[trigger] final(counts)@[c]) == saturated(count_in(pts@.push(p), c)),
{
    proof {
        lemma_cell_in_grid(p);
    }
    let cell = ((p.x / CELL_SIZE) * GRID_SIDE as i64 + p.y / CELL_SIZE) as usize;
    if counts[cell] < u32::MAX {
        counts.set(cell, counts[cell] + 1);
    }
    proof {
        assert forall|c: int| 0 <= c < 10000 implies (#[trigger] counts@[c]) == saturated(count_in(pts@.push(p), c)) by {
            lemma_count_push(pts@, p, c);
        }
    }
}

impl GameEngine {
    /// The occupancy grid of the whole field, with the cell of `(cx, cy)` as the viewer's own.
    pub fn map(&self, cx: i64, cy: i64) -> (r: OccupancyMap)
        requires
            self.wf(),
            -COORD_LIMIT <= cx <= COORD_LIMIT,
            -COORD_LIMIT <= cy <= COORD_LIMIT,
        ensures
            r.wf(),
            r.self_coordinate == cell_of_center(cx as int, cy as int),
            forall|a: int, b: int| 0 <= a < GRID_SIDE && 0 <= b < GRID_SIDE ==>
                (#[trigger] r.map@[a]@[b]) == saturated(count_in(occupied_points(*self), a * GRID_SIDE as int + b)),
    {
        let mut counts: Vec<u32> = Vec::new();
        let mut z: usize = 0;
        while z < 10000
            invariant
                z <= 10000,
                counts@.len() == z,
                forall|c: int| 0 <= c < z ==> (#[trigger] counts@[c]) == 0,
            decreases 10000 - z,
        {
            counts.push(0);
            z = z + 1;
        }
        let ghost pts: Seq<Coordinate> = Seq::empty();
        let mut i: usize = 0;
        while i < self.snakes.len()
            invariant
                self.wf(),
                i <= self.snakes@.len(),
                counts@.len() == 10000,
                pts == snake_points(self.snakes@.subrange(0, i as int)),
                forall|c: int| 0 <= c < 10000 ==> (#[trigger] counts@[c]) == saturated(count_in(pts, c)),
            decreases self.snakes@.len() - i,
        {
            let bodies = &self.snakes[i].1.bodies;
            proof {
                assert(self.snakes@[i as int].1.wf());
            }
            let ghost start = pts;
            let mut k: usize = 0;
            while k < bodies.len()
                invariant
                    *bodies == self.snakes@[i as int].1.bodies,
                    forall|q: int| 0 <= q < bodies@.len() ==> in_field(#[trigger] bodies@[q]),
                    k <= bodies@.len(),
                    counts@.len() == 10000,
                    pts == start + bodies@.subrange(0, k as int),
                    forall|c: int| 0 <= c < 10000 ==> (#[trigger] counts@[c]) == saturated(count_in(pts, c)),
                decreases bodies@.len() - k,
            {
                let p = bodies[k];
                tally(&mut counts, p, Ghost(pts));
                proof {
                    assert(start + bodies@.subrange(0, k + 1) =~= (start + bodies@.subrange(0, k as int)).push(p));
                    pts = pts.push(p);
                }
                k = k + 1;
            }
            proof {
                let pre = self.snakes@.subrange(0, i + 1);
                assert(pre.drop_last() =~= self.snakes@.subrange(0, i as int));
                assert(bodies@.subrange(0, bodies@.len() as int) =~= bodies@);
            }
            i = i + 1;
        }
        proof {
            assert(self.snakes@.subrange(0, self.snakes@.len() as int) =~= self.snakes@);
        }
        let ghost base = pts;
        let entries = &self.pellets.entries;
        let mut j: usize = 0;
        while j < entries.len()
            invariant
                self.wf(),
                *entries == self.pellets.entries,
                j <= entries@.len(),
                counts@.len() == 10000,
                base == snake_points(self.snakes@),
                pts == base + entries@.subrange(0, j as int).map_values(|p: (u64, crate::pellet::Pellet)| p.1.position),
                forall|c: int| 0 <= c < 10000 ==> (#[trigger] counts@[c]) == saturated(count_in(pts, c)),
            decreases entries@.len() - j,
        {
            let p = entries[j].1.position;
            proof {
                assert(entries@[j as int].1.wf());
            }
            tally(&mut counts, p, Ghost(pts));
            proof {
                assert(base + entries@.subrange(0, j + 1).map_values(|p: (u64, crate::pellet::Pellet)| p.1.position)
                    =~= (base + entries@.subrange(0, j as int).map_values(|p: (u64, crate::pellet::Pellet)| p.1.position)).push(p));
                pts = pts.push(p);
            }
            j = j + 1;
        }
        proof {
            assert(entries@.subrange(0, entries@.len() as int) =~= entries@);
            assert(pts == occupied_points(*self));
        }

        let mut grid: Vec<Vec<u32>> = Vec::new();
        let mut a: usize = 0;
        while a < GRID_SIDE
            invariant
                a <= GRID_SIDE,
                counts@.len() == 10000,
                grid@.len() == a,
                forall|x: int| 0 <= x < a ==> (#[trigger] grid@[x])@.len() == GRID_SIDE,
                forall|x: int, y: int| 0 <= x < a && 0 <= y < GRID_SIDE ==>
                    (#[trigger] grid@[x]@[y]) == counts@[x * GRID_SIDE as int + y],
            decreases GRID_SIDE - a,
        {
            let mut row: Vec<u32> = Vec::new();
            let mut b: usize = 0;
            while b < GRID_SIDE
                invariant
                    a < GRID_SIDE,
                    b <= GRID_SIDE,
                    counts@.len() == 10000,
                    row@.len() == b,
                    forall|y: int| 0 <= y < b ==> (#[trigger] row@[y]) == counts@[a * GRID_SIDE as int + y],
                decreases GRID_SIDE - b,
            {
                row.push(counts[a * GRID_SIDE + b]);
                b = b + 1;
            }
            grid.push(row);
            a = a + 1;
        }
        let sx: usize = if cx < 0 { 0 } else { (cx / CELL_SIZE) as usize };
        let sy: usize = if cy < 0 { 0 } else { (cy / CELL_SIZE) as usize };
        OccupancyMap { map: grid, self_coordinate: (sx, sy) }
    }
}

} // verus!

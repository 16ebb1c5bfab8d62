use vstd::prelude::*;

use crate::collision::{collision_deaths, dies, heads_clash, lemma_level_clash_kills_one, lemma_smaller_dies, level};
use crate::coordinate::{in_field, Coordinate, FIELD_SIZE};
use crate::feed::{drop_feed, dropped_centers, drops_exact, feed_centers_of, min, valid_draws};
use crate::motion::{advance, eaten_count, moved_body, next_head, shed_into, stepped, survivors};
use crate::pellet::{orbit_position, Pellet, ORBIT_STEPS};
use crate::pellet_table::PelletTable;
use crate::random::random_below;
use crate::snake::{size_for_length, unit_heading, Snake, INITIAL_LENGTH, MIN_SIZE, VELOCITY_SCALE};
use crate::steering::{steer, steered};

verus! {

/// The pellet count that each frame tops the table up to.
pub const MAX_PELLET_COUNT: usize = 5000;

/// Speed of a newly spawned snake, in field units per frame.
pub const SNAKE_SPEED: i64 = 5;

/// Whether `after` is `before` with the food that snake `s` leaves behind: for some draws the
/// dice can give, one pellet at each centre `feed_center_of` yields (see `drop_feed`).
pub open spec fn dropped_by(before: PelletTable, after: PelletTable, s: Snake) -> bool {
    exists|coins: Seq<u64>, jitter: Seq<(u64, u64)>|
        #[trigger] valid_draws(s.bodies@.len() as int, coins, jitter)
            && drops_exact(before, after, s, dropped_centers(feed_centers_of(s.bodies@, coins, jitter)))
}

/// A pellet as it is spawned: at rest on its center, newborn, not drawn in.
pub open spec fn fresh_pellet(p: Pellet) -> bool {
    p.position == p.center && p.frame_count_offset == 0 && !p.pulled
}

/// Whether snake `s` took the pellet table `a` to `b` in its move, ending as `m`: `b` is what
/// `survivors` leaves of `a` with the tail `s` shed added (see `shed_into`), and `m` grew one
/// segment for each pellet it ate.
pub open spec fn fed_step(a: PelletTable, b: PelletTable, s: Snake, m: Snake) -> bool {
    exists|t: PelletTable| {
        &&& #[trigger] shed_into(a, t, s)
        &&& b.next_id == t.next_id
        &&& b.entries@ == survivors(t.entries@, next_head(s), s.size as int)
        &&& m.bodies@.len() == moved_body(s).len() + eaten_count(t.entries@, next_head(s), s.size as int)
    }
}

/// Whether `tables` starts at `before` and steps through the moves of `snakes`, in order, each
/// ending as the snake of `moved` at the same place.
pub open spec fn fed_by(
    before: PelletTable,
    snakes: Seq<(u128, Snake)>,
    moved: Seq<(u128, Snake)>,
    tables: Seq<PelletTable>,
) -> bool {
    &&& tables.len() == snakes.len() + 1
    &&& moved.len() == snakes.len()
    &&& tables[0] == before
    &&& forall|k: int| 0 <= k < snakes.len() ==> fed_step(#[trigger] tables[k], tables[k + 1], snakes[k].1, moved[k].1)
}

/// Which snakes of `moved` die, judged with the tie-breaking `coins`.
pub open spec fn deaths(moved: Seq<(u128, Snake)>, coins: Seq<bool>) -> Seq<bool> {
    Seq::new(moved.len(), |k: int| dies(moved, coins, k))
}

/// The entries of `s` whose flag in `dead` is off, in order.
pub open spec fn keep(s: Seq<(u128, Snake)>, dead: Seq<bool>) -> Seq<(u128, Snake)>
    decreases s.len(),
{
    if s.len() == 0 {
        Seq::empty()
    } else {
        let r = keep(s.drop_last(), dead.subrange(0, s.len() - 1));
        if dead[s.len() - 1] { r } else { r.push(s.last()) }
    }
}

/// Whether the death of `s` (when `dead`) took the table `a` to `b` (see `dropped_by`).
pub open spec fn drop_step(a: PelletTable, b: PelletTable, s: Snake, dead: bool) -> bool {
    if dead { dropped_by(a, b, s) } else { b == a }
}

/// Whether `dtables` starts at `fed` and steps through the food each dead snake leaves.
pub open spec fn drops_by(fed: PelletTable, moved: Seq<(u128, Snake)>, dead: Seq<bool>, dtables: Seq<PelletTable>) -> bool {
    &&& dtables.len() == moved.len() + 1
    &&& dead.len() == moved.len()
    &&& dtables[0] == fed
    &&& forall|k: int| 0 <= k < moved.len() ==> drop_step(#[trigger] dtables[k], dtables[k + 1], moved[k].1, dead[k])
}

/// How many pellets a table of `base` holds once topped up: `MAX_PELLET_COUNT`, unless it held
/// more already or ids run out first.
pub open spec fn refilled_count(base: PelletTable) -> int {
    if base.entries@.len() >= MAX_PELLET_COUNT {
        base.entries@.len() as int
    } else {
        min(MAX_PELLET_COUNT as int, base.entries@.len() + base.ids_left())
    }
}

/// Pellet `q` one frame older: it moves on along its orbit unless a head drew it in this frame.
pub open spec fn pellet_aged(q: Pellet, p: Pellet) -> bool {
    &&& p.center == q.center
    &&& p.radius == q.radius
    &&& p.size == q.size
    &&& p.color == q.color
    &&& !p.pulled
    &&& p.frame_count_offset == (q.frame_count_offset + 1) % 0x1_0000_0000
    &&& p.position == if q.pulled {
        q.position
    } else {
        orbit_position(q.center, q.radius as int, q.frame_count_offset as int % ORBIT_STEPS as int)
    }
}

/// Whether `after` is `base` topped up (see `refilled_count`) under the next ids, every pellet
/// one frame older; the new ones are one frame into their orbit.
pub open spec fn pellets_after_frame(base: PelletTable, after: PelletTable) -> bool {
    let n = base.entries@.len() as int;
    &&& after.entries@.len() == refilled_count(base)
    &&& after.next_id == base.next_id + (after.entries@.len() - n)
    &&& forall|j: int| 0 <= j < n ==> (#[trigger] after.entries@[j]).0 == base.entries@[j].0
        && pellet_aged(base.entries@[j].1, after.entries@[j].1)
    &&& forall|j: int| n <= j < after.entries@.len() ==> {
        let e = #[trigger] after.entries@[j];
        &&& e.0 == base.next_id + (j - n)
        &&& e.1.frame_count_offset == 1
        &&& !e.1.pulled
        &&& e.1.position == orbit_position(e.1.center, e.1.radius as int, 0)
    }
}

/// `s` one frame older.
pub open spec fn aged(s: Snake) -> Snake {
    Snake { frame_count_offset: ((s.frame_count_offset + 1) % 0x1_0000_0000) as u32, ..s }
}

/// Whether a frame took the snake table `before` to `after`: `moved` holds every snake after
/// its move (see `stepped`), and `after` holds, in order and one frame older, exactly those
/// that `dies` spares when judged on `moved` with the tie-breaking `coins`.
pub open spec fn frame_outcome(
    before: Seq<(u128, Snake)>,
    after: Seq<(u128, Snake)>,
    moved: Seq<(u128, Snake)>,
    coins: Seq<bool>,
) -> bool {
    let kept = keep(moved, deaths(moved, coins));
    &&& moved.len() == before.len()
    &&& coins.len() == moved.len()
    &&& forall|k: int| 0 <= k < moved.len() ==> (#[trigger] moved[k]).0 == before[k].0 && stepped(before[k].1, moved[k].1)
    &&& after.len() == kept.len()
    &&& forall|j: int| 0 <= j < after.len() ==> #[trigger] after[j] == (kept[j].0, aged(kept[j].1))
}

/// Whether one frame took the world `before` to `after`: the snakes as `frame_outcome` says,
/// the pellets through every snake's move (`tables`), the food the dead leave (`dtables`), the
/// top-up and a frame of age.
pub open spec fn frame(
    before: GameEngine,
    after: GameEngine,
    moved: Seq<(u128, Snake)>,
    coins: Seq<bool>,
    tables: Seq<PelletTable>,
    dtables: Seq<PelletTable>,
) -> bool {
    &&& frame_outcome(before.snakes@, after.snakes@, moved, coins)
    &&& fed_by(before.pellets, before.snakes@, moved, tables)
    &&& drops_by(tables.last(), moved, deaths(moved, coins), dtables)
    &&& pellets_after_frame(dtables.last(), after.pellets)
}

proof fn lemma_keep_from(s: Seq<(u128, Snake)>, dead: Seq<bool>)
    requires
        dead.len() == s.len(),
    ensures
        forall|j: int| 0 <= j < keep(s, dead).len() ==> exists|k: int|
            0 <= k < s.len() && #[trigger] keep(s, dead)[j] == s[k] && !dead[k],
        forall|k: int| 0 <= k < s.len() && !dead[k] ==> keep(s, dead).contains(#[trigger] s[k]),
    decreases s.len(),
{
    if s.len() > 0 {
        let t = s.drop_last();
        let dt = dead.subrange(0, s.len() - 1);
        lemma_keep_from(t, dt);
        let r = keep(t, dt);
        assert forall|j: int| 0 <= j < keep(s, dead).len() implies exists|k: int|
            0 <= k < s.len() && #[trigger] keep(s, dead)[j] == s[k] && !dead[k] by {
            if j < r.len() {
                assert(keep(s, dead)[j] == r[j]);
                let k = choose|k: int| 0 <= k < t.len() && #[trigger] r[j] == t[k] && !dt[k];
                assert(s[k] == t[k]);
            } else {
                assert(keep(s, dead)[j] == s[s.len() - 1]);
            }
        }
        assert forall|k: int| 0 <= k < s.len() && !dead[k] implies keep(s, dead).contains(#[trigger] s[k]) by {
            if k < s.len() - 1 {
                assert(t[k] == s[k]);
                assert(!dt[k]);
                assert(r.contains(t[k]));
                let j = choose|j: int| 0 <= j < r.len() && r[j] == t[k];
                if !dead[s.len() - 1] {
                    assert(keep(s, dead)[j] == r[j]);
                }
            } else {
                assert(keep(s, dead)[r.len() as int] == s[k]);
            }
        }
    }
}

proof fn lemma_keep_unique(s: Seq<(u128, Snake)>, dead: Seq<bool>)
    requires
        dead.len() == s.len(),
        forall|a: int, b: int| 0 <= a < b < s.len() ==> (#[trigger] s[a]).0 != (#[trigger] s[b]).0,
    ensures
        forall|a: int, b: int| 0 <= a < b < keep(s, dead).len() ==>
            (#[trigger] keep(s, dead)[a]).0 != (#[trigger] keep(s, dead)[b]).0,
    decreases s.len(),
{
    if s.len() > 0 {
        let t = s.drop_last();
        let dt = dead.subrange(0, s.len() - 1);
        lemma_keep_unique(t, dt);
        lemma_keep_from(t, dt);
        let r = keep(t, dt);
        assert forall|a: int, b: int| 0 <= a < b < keep(s, dead).len() implies
            (#[trigger] keep(s, dead)[a]).0 != (#[trigger] keep(s, dead)[b]).0 by {
            assert(keep(s, dead)[a] == r[a]);
            if b < r.len() {
                assert(keep(s, dead)[b] == r[b]);
            } else {
                let k = choose|k: int| 0 <= k < t.len() && #[trigger] r[a] == t[k] && !dt[k];
                assert(t[k] == s[k]);
                assert(keep(s, dead)[b] == s[s.len() - 1]);
            }
        }
    }
}

proof fn lemma_keep_push(s: Seq<(u128, Snake)>, dead: Seq<bool>, k: int)
    requires
        dead.len() == s.len(),
        0 <= k < s.len(),
    ensures
        keep(s.subrange(0, k + 1), dead.subrange(0, k + 1)) == if dead[k] {
            keep(s.subrange(0, k), dead.subrange(0, k))
        } else {
            keep(s.subrange(0, k), dead.subrange(0, k)).push(s[k])
        },
{
    assert(s.subrange(0, k + 1).drop_last() =~= s.subrange(0, k));
    assert(dead.subrange(0, k + 1).subrange(0, k) =~= dead.subrange(0, k));
}

/// In a frame, a snake whose head clashed with a larger one's, both boosting or both not,
/// is gone afterwards.
pub proof fn lemma_frame_smaller_dies(
    before: Seq<(u128, Snake)>,
    after: Seq<(u128, Snake)>,
    moved: Seq<(u128, Snake)>,
    coins: Seq<bool>,
    a: int,
    b: int,
)
    requires
        frame_outcome(before, after, moved, coins),
        forall|x: int, y: int| 0 <= x < y < before.len() ==> (#[trigger] before[x]).0 != (#[trigger] before[y]).0,
        0 <= a < moved.len(),
        0 <= b < moved.len(),
        a != b,
        heads_clash(moved[a].1, moved[b].1),
        moved[a].1.is_boosting() == moved[b].1.is_boosting(),
        moved[a].1.size < moved[b].1.size,
    ensures
        forall|j: int| 0 <= j < after.len() ==> (#[trigger] after[j]).0 != moved[a].0,
{
    lemma_smaller_dies(moved, coins, a, b);
    let d = deaths(moved, coins);
    lemma_keep_from(moved, d);
    assert forall|j: int| 0 <= j < after.len() implies (#[trigger] after[j]).0 != moved[a].0 by {
        let kept = keep(moved, d);
        assert(after[j] == (kept[j].0, aged(kept[j].1)));
        let k = choose|k: int| 0 <= k < moved.len() && #[trigger] kept[j] == moved[k] && !d[k];
        if k != a {
            assert(moved[k].0 == before[k].0 && moved[a].0 == before[a].0);
            if k < a {
                assert(before[k].0 != before[a].0);
            } else {
                assert(before[a].0 != before[k].0);
            }
        }
    }
}

/// In a frame with two snakes whose heads clashed, both boosting or both not and of one size,
/// exactly one of them is left afterwards.
pub proof fn lemma_frame_level_clash_leaves_one(
    before: Seq<(u128, Snake)>,
    after: Seq<(u128, Snake)>,
    moved: Seq<(u128, Snake)>,
    coins: Seq<bool>,
)
    requires
        frame_outcome(before, after, moved, coins),
        moved.len() == 2,
        heads_clash(moved[0].1, moved[1].1),
        level(moved[0].1, moved[1].1),
    ensures
        after.len() == 1,
{
    lemma_level_clash_kills_one(moved, coins);
    let d = deaths(moved, coins);
    assert(d[0] != d[1]);
    let t = moved.drop_last();
    assert(t.drop_last() =~= Seq::<(u128, Snake)>::empty());
    assert(keep(t.drop_last(), d.subrange(0, 1).subrange(0, 0)) =~= Seq::<(u128, Snake)>::empty());
    assert(d.subrange(0, 1).subrange(0, 0) =~= d.subrange(0, 0));
    assert(keep(t, d.subrange(0, 1)).len() == if d[0] { 0int } else { 1int });
    assert(keep(moved, d).len() == 1);
}

/// The whole game world: the snakes by player id and the pellets by pellet id.
pub struct GameEngine {
    pub frame_count: u32,
    pub snakes: Vec<(u128, Snake)>,
    pub pellets: PelletTable,
}

impl GameEngine {
    /// Every snake is kept as `Snake::wf` says, no player has two, and the pellet table is
    /// kept as `PelletTable::wf` says.
    pub open spec fn wf(&self) -> bool {
        &&& forall|i: int| 0 <= i < self.snakes@.len() ==> (#[trigger] self.snakes@[i]).1.wf()
        &&& forall|i: int, j: int|
            0 <= i < j < self.snakes@.len() ==> (#[trigger] self.snakes@[i]).0 != (#[trigger] self.snakes@[j]).0
        &&& self.pellets.wf()
    }

    pub open spec fn has_snake(&self, id: u128) -> bool {
        exists|i: int| 0 <= i < self.snakes@.len() && (#[trigger] self.snakes@[i]).0 == id
    }

    /// An empty world.
    pub fn new() -> (r: GameEngine)
        ensures
            r.wf(),
            r.frame_count == 0,
            r.snakes@.len() == 0,
            r.pellets.entries@.len() == 0,
            r.pellets.next_id == 0,
    {
        GameEngine { frame_count: 0, snakes: Vec::new(), pellets: PelletTable::new() }
    }

    /// A uniformly drawn point of the field.
    pub fn get_random_coordinate(&self) -> (r: Coordinate)
        ensures
            in_field(r),
    {
        let x = random_below(FIELD_SIZE as u64) as i64;
        let y = random_below(FIELD_SIZE as u64) as i64;
        Coordinate { x, y }
    }

    /// Where the snake of player `id` stands in the snake table.
    pub fn snake_index(&self, id: u128) -> (r: Option<usize>)
        ensures
            r.is_some() == self.has_snake(id),
            r.is_some() ==> r.unwrap() < self.snakes@.len() && self.snakes@[r.unwrap() as int].0 == id,
    {
        let mut i: usize = 0;
        while i < self.snakes.len()
            invariant
                i <= self.snakes@.len(),
                forall|k: int| 0 <= k < i ==> (#[trigger] self.snakes@[k]).0 != id,
            decreases self.snakes@.len() - i,
        {
            if self.snakes[i].0 == id {
                return Some(i);
            }
            i = i + 1;
        }
        None
    }

    pub fn get_snake(&self, id: u128) -> (r: Option<&Snake>)
        ensures
            r.is_some() == self.has_snake(id),
            r.is_some() ==> exists|i: int|
                0 <= i < self.snakes@.len() && self.snakes@[i] == (id, *r.unwrap()),
    {
        match self.snake_index(id) {
            Some(i) => Some(&self.snakes[i].1),
            None => None,
        }
    }

    /// Removes player `id`'s snake, leaving about half its segments behind as food.
    /// Nothing happens when the player has no snake.
    pub fn remove_snake(&mut self, id: u128)
        requires
            old(self).wf(),
        ensures
            final(self).wf(),
            !final(self).has_snake(id),
            !old(self).has_snake(id) ==> *final(self) == *old(self),
            old(self).has_snake(id) ==> exists|i: int|
                0 <= i < old(self).snakes@.len() && (#[trigger] old(self).snakes@[i]).0 == id
                    && final(self).snakes@ == old(self).snakes@.remove(i)
                    && dropped_by(old(self).pellets, final(self).pellets, old(self).snakes@[i].1),
            final(self).frame_count == old(self).frame_count,
            forall|x: u128| x != id ==> final(self).has_snake(x) == old(self).has_snake(x),
            forall|j: int| 0 <= j < final(self).snakes@.len() ==> old(self).snakes@.contains(#[trigger] final(self).snakes@[j]),
    {
        match self.snake_index(id) {
            None => {},
            Some(i) => {
                drop_feed(&mut self.pellets, &self.snakes[i].1);
                let ghost before = self.snakes@;
                self.snakes.remove(i);
                proof {
                    assert(before[i as int].0 == id);
                    assert forall|a: int, b: int| 0 <= a < b < self.snakes@.len() implies
                        (#[trigger] self.snakes@[a]).0 != (#[trigger] self.snakes@[b]).0 by {
                        let a2 = if a < i { a } else { a + 1 };
                        let b2 = if b < i { b } else { b + 1 };
                        assert(self.snakes@[a] == before[a2]);
                        assert(self.snakes@[b] == before[b2]);
                    }
                    assert forall|a: int| 0 <= a < self.snakes@.len() implies (#[trigger] self.snakes@[a]).1.wf() by {
                        let a2 = if a < i { a } else { a + 1 };
                        assert(self.snakes@[a] == before[a2]);
                    }
                    if self.has_snake(id) {
                        let a = choose|a: int| 0 <= a < self.snakes@.len() && (#[trigger] self.snakes@[a]).0 == id;
                        let a2 = if a < i { a } else { a + 1 };
                        assert(self.snakes@[a] == before[a2]);
                    }
                    assert forall|j: int| 0 <= j < self.snakes@.len() implies before.contains(#[trigger] self.snakes@[j]) by {
                        let j2 = if j < i { j } else { j + 1 };
                        assert(self.snakes@[j] == before[j2]);
                    }
                    assert forall|x: u128| x != id implies self.has_snake(x) == old(self).has_snake(x) by {
                        if self.has_snake(x) {
                            let a = choose|a: int| 0 <= a < self.snakes@.len() && (#[trigger] self.snakes@[a]).0 == x;
                            let a2 = if a < i { a } else { a + 1 };
                            assert(self.snakes@[a] == before[a2]);
                        }
                        if old(self).has_snake(x) {
                            let a = choose|a: int| 0 <= a < before.len() && (#[trigger] before[a]).0 == x;
                            assert(a != i);
                            let a2 = if a < i { a } else { a - 1 };
                            assert(self.snakes@[a2] == before[a]);
                        }
                    }
                }
            },
        }
    }

    /// Tops the pellet table up with pellets at random points until it holds
    /// `MAX_PELLET_COUNT`, or ids run out; pellets already there are kept.
    pub fn fill_pellet(&mut self)
        requires
            old(self).wf(),
        ensures
            final(self).wf(),
            final(self).snakes == old(self).snakes,
            final(self).frame_count == old(self).frame_count,
            final(self).pellets.entries@.len() == refilled_count(old(self).pellets),
            final(self).pellets.entries@.subrange(0, old(self).pellets.entries@.len() as int)
                == old(self).pellets.entries@,
            final(self).pellets.next_id == old(self).pellets.next_id
                + (final(self).pellets.entries@.len() - old(self).pellets.entries@.len()),
            forall|j: int| old(self).pellets.entries@.len() <= j < final(self).pellets.entries@.len() ==> {
                let e = #[trigger] final(self).pellets.entries@[j];
                &&& e.0 == old(self).pellets.next_id + (j - old(self).pellets.entries@.len())
                &&& fresh_pellet(e.1)
            },
    {
        proof {
            assert(self.pellets.entries@.subrange(0, (old(self).pellets.entries@.len() as int)) =~= self.pellets.entries@);
        }
        while self.pellets.len() < MAX_PELLET_COUNT
            invariant
                self.wf(),
                self.pellets.entries@.len() <= if (old(self).pellets.entries@.len() as int) > MAX_PELLET_COUNT { (old(self).pellets.entries@.len() as int) } else { MAX_PELLET_COUNT as int },
                self.pellets.entries@.len() + self.pellets.ids_left() == (old(self).pellets.entries@.len() as int) + old(self).pellets.ids_left(),
                self.snakes == old(self).snakes,
                self.frame_count == old(self).frame_count,
                self.pellets.entries@.len() >= (old(self).pellets.entries@.len() as int),
                self.pellets.entries@.subrange(0, (old(self).pellets.entries@.len() as int)) == old(self).pellets.entries@,
                self.pellets.next_id == old(self).pellets.next_id + (self.pellets.entries@.len() - (old(self).pellets.entries@.len() as int)),
                (old(self).pellets.entries@.len() as int) >= MAX_PELLET_COUNT ==> self.pellets == old(self).pellets,
                forall|j: int| (old(self).pellets.entries@.len() as int) <= j < self.pellets.entries@.len() ==> {
                    let e = #[trigger] self.pellets.entries@[j];
                    &&& e.0 == old(self).pellets.next_id + (j - (old(self).pellets.entries@.len() as int))
                    &&& fresh_pellet(e.1)
                },
            ensures
                self.pellets.entries@.len() >= MAX_PELLET_COUNT || self.pellets.ids_left() == 0,
            decreases MAX_PELLET_COUNT - self.pellets.entries@.len(),
        {
            let position = self.get_random_coordinate();
            let p = Pellet::new(position);
            let ghost mid = self.pellets;
            if !self.pellets.insert(p) {
                break;
            }
            proof {
                assert(self.pellets.entries@.subrange(0, (old(self).pellets.entries@.len() as int)) =~= old(self).pellets.entries@) by {
                    assert forall|j: int| 0 <= j < (old(self).pellets.entries@.len() as int) implies self.pellets.entries@.subrange(0, (old(self).pellets.entries@.len() as int))[j] == old(self).pellets.entries@[j] by {
                        assert(mid.entries@.subrange(0, (old(self).pellets.entries@.len() as int))[j] == old(self).pellets.entries@[j]);
                    }
                }
                assert forall|j: int| (old(self).pellets.entries@.len() as int) <= j < self.pellets.entries@.len() implies {
                    let e = #[trigger] self.pellets.entries@[j];
                    &&& e.0 == old(self).pellets.next_id + (j - (old(self).pellets.entries@.len() as int))
                    &&& fresh_pellet(e.1)
                } by {
                    if j < mid.entries@.len() {
                        assert(self.pellets.entries@[j] == mid.entries@[j]);
                    }
                }
            }
        }
        proof {
            assert(self.pellets.entries@.len() == refilled_count(old(self).pellets));
        }
    }

    /// Spawns a fresh snake for player `id` at a random point, replacing any it had.
    pub fn add_snake(&mut self, id: u128)
        requires
            old(self).wf(),
        ensures
            final(self).wf(),
            final(self).has_snake(id),
            forall|i: int| 0 <= i < final(self).snakes@.len() && (#[trigger] final(self).snakes@[i]).0 == id ==> {
                let s = final(self).snakes@[i].1;
                &&& exists|c: Coordinate| in_field(c) && s.bodies@ == Seq::new(INITIAL_LENGTH as nat, |k: int| c)
                &&& s.bodies@.len() == INITIAL_LENGTH
                &&& s.size == MIN_SIZE
                &&& s.acceleration_time_left == 0
                &&& s.speed == SNAKE_SPEED
                &&& s.velocity == (Coordinate { x: VELOCITY_SCALE, y: 0 })
            },
            forall|i: int| 0 <= i < old(self).snakes@.len() && (#[trigger] old(self).snakes@[i]).0 != id
                ==> final(self).snakes@.contains(old(self).snakes@[i]),
            forall|i: int| 0 <= i < final(self).snakes@.len() && (#[trigger] final(self).snakes@[i]).0 != id
                ==> old(self).snakes@.contains(final(self).snakes@[i]),
            final(self).pellets == old(self).pellets,
            final(self).frame_count == old(self).frame_count,
    {
        let position = self.get_random_coordinate();
        let snake = Snake::new(position, SNAKE_SPEED);
        assert(in_field(position) && snake.bodies@ == Seq::new(INITIAL_LENGTH as nat, |k: int| position));
        match self.snake_index(id) {
            Some(i) => {
                self.snakes.set(i, (id, snake));
                proof {
                    assert(self.snakes@[i as int].0 == id);
                    assert forall|k: int| 0 <= k < old(self).snakes@.len() && (#[trigger] old(self).snakes@[k]).0 != id
                        implies self.snakes@.contains(old(self).snakes@[k]) by {
                        assert(k != i);
                        assert(self.snakes@[k] == old(self).snakes@[k]);
                    }
                    assert forall|k: int| 0 <= k < self.snakes@.len() && (#[trigger] self.snakes@[k]).0 != id
                        implies old(self).snakes@.contains(self.snakes@[k]) by {
                        assert(k != i);
                        assert(self.snakes@[k] == old(self).snakes@[k]);
                    }
                }
            },
            None => {
                self.snakes.push((id, snake));
                proof {
                    let n = old(self).snakes@.len() as int;
                    assert(self.snakes@[n].0 == id);
                    assert forall|k: int| 0 <= k < old(self).snakes@.len() && (#[trigger] old(self).snakes@[k]).0 != id
                        implies self.snakes@.contains(old(self).snakes@[k]) by {
                        assert(self.snakes@[k] == old(self).snakes@[k]);
                    }
                    assert forall|k: int| 0 <= k < self.snakes@.len() && (#[trigger] self.snakes@[k]).0 != id
                        implies old(self).snakes@.contains(self.snakes@[k]) by {
                        assert(k != n);
                        assert(self.snakes@[k] == old(self).snakes@[k]);
                    }
                }
            },
        }
    }

    /// Advances the world one frame: every snake moves and feeds, collisions are judged on the
    /// positions all snakes then hold, the losers leave food and are removed, the pellet table
    /// is topped up, and every pellet not drawn in this frame moves on along its orbit.
    pub fn forward(&mut self)
        requires
            old(self).wf(),
        ensures
            final(self).wf(),
            exists|moved: Seq<(u128, Snake)>, coins: Seq<bool>, tables: Seq<PelletTable>, dtables: Seq<PelletTable>|
                #[trigger] frame(*old(self), *final(self), moved, coins, tables, dtables),
            forall|i: int, k: int| 0 <= i < final(self).snakes@.len() && 0 <= k < final(self).snakes@[i].1.bodies@.len()
                ==> in_field(#[trigger] final(self).snakes@[i].1.bodies@[k]),
            forall|i: int| 0 <= i < final(self).snakes@.len() ==> (#[trigger] final(self).snakes@[i]).1.size
                == size_for_length(final(self).snakes@[i].1.bodies@.len() as int),
            forall|j: int| 0 <= j < final(self).pellets.entries@.len() ==> in_field((#[trigger] final(self).pellets.entries@[j]).1.position),
            final(self).pellets.entries@.len() >= MAX_PELLET_COUNT || final(self).pellets.ids_left() == 0,
            final(self).frame_count == (old(self).frame_count + 1) % 0x1_0000_0000,
    {
        let n = self.snakes.len();
        let mut i: usize = 0;
        let ghost mut tables: Seq<PelletTable> = seq![self.pellets];
        while i < n
            invariant
                self.wf(),
                n == self.snakes@.len(),
                n == old(self).snakes@.len(),
                i <= n,
                forall|k: int| 0 <= k < n ==> (#[trigger] self.snakes@[k]).0 == old(self).snakes@[k].0,
                forall|k: int| 0 <= k < i ==> stepped(old(self).snakes@[k].1, (#[trigger] self.snakes@[k]).1),
                forall|k: int| i <= k < n ==> (#[trigger] self.snakes@[k]) == old(self).snakes@[k],
                self.frame_count == old(self).frame_count,
                tables.len() == i + 1,
                tables[0] == old(self).pellets,
                tables[i as int] == self.pellets,
                forall|k: int| 0 <= k < i ==> fed_step(#[trigger] tables[k], tables[k + 1], old(self).snakes@[k].1, self.snakes@[k].1),
            decreases n - i,
        {
            proof {
                assert(self.snakes@[i as int].1.wf());
            }
            let ghost before = self.snakes@;
            let ghost table_before = self.pellets;
            let entry = &mut self.snakes[i];
            advance(&mut entry.1, &mut self.pellets);
            proof {
                assert(fed_step(table_before, self.pellets, old(self).snakes@[i as int].1, self.snakes@[i as int].1));
                let prev_tables = tables;
                tables = tables.push(self.pellets);
                assert forall|k: int| 0 <= k < n && k != i implies self.snakes@[k] == before[k] by {}
                assert forall|k: int| 0 <= k < i + 1 implies fed_step(#[trigger] tables[k], tables[k + 1], old(self).snakes@[k].1, self.snakes@[k].1) by {
                    if k < i {
                        assert(tables[k] == prev_tables[k]);
                        assert(tables[k + 1] == prev_tables[k + 1]);
                        assert(self.snakes@[k] == before[k]);
                    }
                }
                assert forall|a: int, b: int| 0 <= a < b < self.snakes@.len() implies
                    (#[trigger] self.snakes@[a]).0 != (#[trigger] self.snakes@[b]).0 by {
                    assert(self.snakes@[a].0 == before[a].0);
                    assert(self.snakes@[b].0 == before[b].0);
                }
                assert forall|a: int| 0 <= a < self.snakes@.len() implies (#[trigger] self.snakes@[a]).1.wf() by {
                    if a != i {
                        assert(self.snakes@[a] == before[a]);
                    }
                }
            }
            i = i + 1;
        }
        let ghost moved = self.snakes@;
        let ghost fed = self.pellets;
        proof {
            assert(fed_by(old(self).pellets, old(self).snakes@, moved, tables));
        }

        let mut coins: Vec<bool> = Vec::new();
        let mut c: usize = 0;
        while c < n
            invariant
                c <= n,
                coins@.len() == c,
            decreases n - c,
        {
            coins.push(random_below(2) == 0);
            c = c + 1;
        }
        let dead = collision_deaths(&self.snakes, &coins);
        let ghost dseq = deaths(moved, coins@);
        proof {
            assert(dead@ =~= dseq);
        }

        let mut d: usize = 0;
        let ghost mut dtables: Seq<PelletTable> = seq![self.pellets];
        while d < n
            invariant
                self.wf(),
                self.snakes@ == moved,
                n == moved.len(),
                dead@ == dseq,
                dseq.len() == n,
                d <= n,
                dtables.len() == d + 1,
                dtables[0] == fed,
                dtables[d as int] == self.pellets,
                forall|k: int| 0 <= k < d ==> drop_step(#[trigger] dtables[k], dtables[k + 1], moved[k].1, dseq[k]),
                self.frame_count == old(self).frame_count,
            decreases n - d,
        {
            if dead[d] {
                proof {
                    assert(self.snakes@[d as int].1.wf());
                }
                drop_feed(&mut self.pellets, &self.snakes[d].1);
            }
            proof {
                let prev = dtables;
                dtables = dtables.push(self.pellets);
                assert forall|k: int| 0 <= k < d + 1 implies drop_step(#[trigger] dtables[k], dtables[k + 1], moved[k].1, dseq[k]) by {
                    if k < d {
                        assert(dtables[k] == prev[k]);
                        assert(dtables[k + 1] == prev[k + 1]);
                    }
                }
            }
            d = d + 1;
        }
        proof {
            assert(drops_by(fed, moved, dseq, dtables));
        }

        let mut rest: Vec<(u128, Snake)> = Vec::new();
        std::mem::swap(&mut self.snakes, &mut rest);
        let mut kept: Vec<(u128, Snake)> = Vec::new();
        let mut k: usize = 0;
        proof {
            assert(moved.subrange(0, 0) =~= Seq::<(u128, Snake)>::empty());
            assert(rest@.subrange(0, n as int) =~= rest@);
        }
        while k < n
            invariant
                n == moved.len(),
                dead@ == dseq,
                dseq.len() == n,
                k <= n,
                rest@ == moved.subrange(k as int, n as int),
                kept@ == keep(moved.subrange(0, k as int), dseq.subrange(0, k as int)),
            decreases n - k,
        {
            let e = rest.remove(0);
            proof {
                assert(e == moved[k as int]);
                lemma_keep_push(moved, dseq, k as int);
                assert(rest@ =~= moved.subrange(k + 1, n as int));
            }
            if !dead[k] {
                kept.push(e);
            }
            k = k + 1;
        }
        proof {
            assert(moved.subrange(0, n as int) =~= moved);
            assert(dseq.subrange(0, n as int) =~= dseq);
            lemma_keep_from(moved, dseq);
            lemma_keep_unique(moved, dseq);
            assert forall|a: int| 0 <= a < kept@.len() implies (#[trigger] kept@[a]).1.wf() by {
                let kk = choose|kk: int| 0 <= kk < moved.len() && #[trigger] keep(moved, dseq)[a] == moved[kk] && !dseq[kk];
            }
        }
        self.snakes = kept;
        let ghost trimmed = *self;
        let ghost base = self.pellets;

        self.fill_pellet();
        let ghost filled = self.pellets;

        let m = self.pellets.entries.len();
        let mut p: usize = 0;
        while p < m
            invariant
                self.wf(),
                self.snakes == trimmed.snakes,
                m == self.pellets.entries@.len(),
                m == filled.entries@.len(),
                self.pellets.next_id == filled.next_id,
                p <= m,
                self.frame_count == old(self).frame_count,
                forall|j: int| 0 <= j < p ==> (#[trigger] self.pellets.entries@[j]).0 == filled.entries@[j].0
                    && pellet_aged(filled.entries@[j].1, self.pellets.entries@[j].1),
                forall|j: int| p <= j < m ==> #[trigger] self.pellets.entries@[j] == filled.entries@[j],
            decreases m - p,
        {
            let ghost before = self.pellets.entries@;
            proof {
                assert(before[p as int].1.wf());
            }
            let entry = &mut self.pellets.entries[p];
            if !entry.1.pulled {
                entry.1.update();
            }
            entry.1.pulled = false;
            entry.1.frame_count_offset = entry.1.frame_count_offset.wrapping_add(1);
            proof {
                assert forall|k: int| 0 <= k < m && k != p implies self.pellets.entries@[k] == before[k] by {}
                assert(self.pellets.entries@[p as int].0 == before[p as int].0);
                assert(pellet_aged(filled.entries@[p as int].1, self.pellets.entries@[p as int].1));
                assert forall|a: int| 0 <= a < m implies (#[trigger] self.pellets.entries@[a]).1.wf()
                    && self.pellets.entries@[a].0 < self.pellets.next_id by {
                    assert(before[a].1.wf());
                    assert(before[a].0 < self.pellets.next_id);
                }
                assert forall|a: int, b: int| 0 <= a < b < m implies
                    (#[trigger] self.pellets.entries@[a]).0 != (#[trigger] self.pellets.entries@[b]).0 by {
                    assert(self.pellets.entries@[a].0 == before[a].0);
                    assert(self.pellets.entries@[b].0 == before[b].0);
                }
            }
            p = p + 1;
        }
        proof {
            let nb = base.entries@.len() as int;
            assert forall|j: int| 0 <= j < nb implies (#[trigger] self.pellets.entries@[j]).0 == base.entries@[j].0
                && pellet_aged(base.entries@[j].1, self.pellets.entries@[j].1) by {
                assert(filled.entries@.subrange(0, nb)[j] == base.entries@[j]);
            }
            assert forall|j: int| nb <= j < self.pellets.entries@.len() implies {
                let e = #[trigger] self.pellets.entries@[j];
                &&& e.0 == base.next_id + (j - nb)
                &&& e.1.frame_count_offset == 1
                &&& !e.1.pulled
                &&& e.1.position == orbit_position(e.1.center, e.1.radius as int, 0)
            } by {
                assert(fresh_pellet(filled.entries@[j].1));
                assert(pellet_aged(filled.entries@[j].1, self.pellets.entries@[j].1));
            }
            assert(pellets_after_frame(base, self.pellets));
        }
        let ghost aged_pellets = self.pellets;

        let sn = self.snakes.len();
        let mut q: usize = 0;
        while q < sn
            invariant
                self.wf(),
                sn == self.snakes@.len(),
                sn == trimmed.snakes@.len(),
                q <= sn,
                forall|k: int| 0 <= k < q ==> (#[trigger] self.snakes@[k]) == (trimmed.snakes@[k].0, aged(trimmed.snakes@[k].1)),
                forall|k: int| q <= k < sn ==> (#[trigger] self.snakes@[k]) == trimmed.snakes@[k],
                self.pellets == aged_pellets,
                self.frame_count == old(self).frame_count,
            decreases sn - q,
        {
            let ghost before = self.snakes@;
            proof {
                assert(before[q as int].1.wf());
            }
            let entry = &mut self.snakes[q];
            entry.1.frame_count_offset = entry.1.frame_count_offset.wrapping_add(1);
            proof {
                assert forall|k: int| 0 <= k < sn && k != q implies self.snakes@[k] == before[k] by {}
                assert(self.snakes@[q as int].0 == before[q as int].0);
                assert forall|a: int| 0 <= a < sn implies (#[trigger] self.snakes@[a]).1.wf() by {
                    assert(before[a].1.wf());
                }
                assert forall|a: int, b: int| 0 <= a < b < sn implies
                    (#[trigger] self.snakes@[a]).0 != (#[trigger] self.snakes@[b]).0 by {
                    assert(self.snakes@[a].0 == before[a].0);
                    assert(self.snakes@[b].0 == before[b].0);
                }
            }
            q = q + 1;
        }
        self.frame_count = self.frame_count.wrapping_add(1);
        proof {
            assert(frame_outcome(old(self).snakes@, self.snakes@, moved, coins@));
            assert(tables.last() == fed);
            assert(dtables.last() == base);
            assert(frame(*old(self), *self, moved, coins@, tables, dtables));
            assert forall|i: int, k: int| 0 <= i < self.snakes@.len() && 0 <= k < self.snakes@[i].1.bodies@.len()
                implies in_field(#[trigger] self.snakes@[i].1.bodies@[k]) by {
                assert(self.snakes@[i].1.wf());
            }
            assert forall|j: int| 0 <= j < self.pellets.entries@.len() implies in_field((#[trigger] self.pellets.entries@[j]).1.position) by {
                assert(self.pellets.entries@[j].1.wf());
            }
            if self.pellets.entries@.len() < MAX_PELLET_COUNT {
                assert(self.pellets.ids_left() == 0);
            }
        }
    }

    /// Mutable access to player `id`'s snake.
    pub fn get_snake_mut(&mut self, id: u128) -> (r: Option<&mut Snake>)
        ensures
            r.is_some() == old(self).has_snake(id),
            r.is_none() ==> *final(self) == *old(self),
            r.is_some() ==> exists|i: int|
                0 <= i < old(self).snakes@.len() && (#[trigger] old(self).snakes@[i]).0 == id
                    && *r.unwrap() == old(self).snakes@[i].1
                    && final(self).snakes@ == old(self).snakes@.update(i, (id, *final(r.unwrap()))),
            final(self).pellets == old(self).pellets,
            final(self).frame_count == old(self).frame_count,
    {
        match self.snake_index(id) {
            Some(i) => {
                let entry = &mut self.snakes[i];
                Some(&mut entry.1)
            },
            None => None,
        }
    }

    /// Turns player `id`'s snake part of the way toward `velocity` (see `steer`); a player
    /// without a snake is ignored.
    pub fn change_velocity(&mut self, id: u128, velocity: Coordinate)
        requires
            old(self).wf(),
            unit_heading(velocity),
        ensures
            final(self).wf(),
            !old(self).has_snake(id) ==> *final(self) == *old(self),
            old(self).has_snake(id) ==> exists|i: int|
                0 <= i < old(self).snakes@.len() && (#[trigger] old(self).snakes@[i]).0 == id
                    && steered(old(self).snakes@[i].1.velocity, velocity, final(self).snakes@[i].1.velocity)
                    && final(self).snakes@ == old(self).snakes@.update(i, (id, Snake {
                        velocity: final(self).snakes@[i].1.velocity,
                        ..old(self).snakes@[i].1
                    })),
            final(self).pellets == old(self).pellets,
            final(self).frame_count == old(self).frame_count,
    {
        match self.snake_index(id) {
            Some(i) => {
                proof {
                    assert(self.snakes@[i as int].1.wf());
                }
                let ghost before = self.snakes@;
                let entry = &mut self.snakes[i];
                let v = steer(entry.1.velocity, velocity);
                entry.1.velocity = v;
                proof {
                    assert forall|a: int| 0 <= a < self.snakes@.len() implies (#[trigger] self.snakes@[a]).1.wf() by {
                        if a != i {
                            assert(self.snakes@[a] == before[a]);
                        }
                    }
                    assert forall|a: int, b: int| 0 <= a < b < self.snakes@.len() implies
                        (#[trigger] self.snakes@[a]).0 != (#[trigger] self.snakes@[b]).0 by {
                        assert(self.snakes@[a].0 == before[a].0);
                        assert(self.snakes@[b].0 == before[b].0);
                    }
                    assert(self.snakes@ =~= before.update(i as int, (id, Snake { velocity: v, ..before[i as int].1 })));
                }
            },
            None => {},
        }
    }

    /// Opens a boost window on player `id`'s snake (see `Snake::accelerate`); a player without
    /// a snake is ignored.
    pub fn accelerate(&mut self, id: u128)
        requires
            old(self).wf(),
        ensures
            final(self).wf(),
            !old(self).has_snake(id) ==> *final(self) == *old(self),
            old(self).has_snake(id) ==> exists|i: int|
                0 <= i < old(self).snakes@.len() && (#[trigger] old(self).snakes@[i]).0 == id
                    && final(self).snakes@[i] == (id, Snake {
                        acceleration_time_left: if old(self).snakes@[i].1.bodies@.len() >= crate::snake::MIN_BOOST_LENGTH {
                            crate::snake::BOOST_FRAMES
                        } else {
                            old(self).snakes@[i].1.acceleration_time_left
                        },
                        ..old(self).snakes@[i].1
                    }),
            final(self).snakes@.len() == old(self).snakes@.len(),
            forall|i: int| 0 <= i < old(self).snakes@.len() && (#[trigger] old(self).snakes@[i]).0 != id
                ==> final(self).snakes@[i] == old(self).snakes@[i],
            final(self).pellets == old(self).pellets,
            final(self).frame_count == old(self).frame_count,
    {
        match self.snake_index(id) {
            Some(i) => {
                let ghost before = self.snakes@;
                let entry = &mut self.snakes[i];
                entry.1.accelerate();
                proof {
                    assert forall|a: int| 0 <= a < self.snakes@.len() implies (#[trigger] self.snakes@[a]).1.wf() by {
                        if a != i {
                            assert(self.snakes@[a] == before[a]);
                        }
                    }
                    assert forall|a: int, b: int| 0 <= a < b < self.snakes@.len() implies
                        (#[trigger] self.snakes@[a]).0 != (#[trigger] self.snakes@[b]).0 by {
                        assert(self.snakes@[a].0 == before[a].0);
                        assert(self.snakes@[b].0 == before[b].0);
                    }
                }
            },
            None => {},
        }
    }
}

impl Default for GameEngine {
    fn default() -> (r: GameEngine)
        ensures
            r.wf(),
            r.frame_count == 0,
            r.snakes@.len() == 0,
            r.pellets.entries@.len() == 0,
            r.pellets.next_id == 0,
    {
        GameEngine::new()
    }
}

} // verus!

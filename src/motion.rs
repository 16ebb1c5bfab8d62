use vstd::prelude::*;

use crate::coordinate::{dist2, floor_div, in_field, wrap, wrap_field, Coordinate};
use crate::pellet::{Pellet, FEED_SIZE};
use crate::pellet_table::PelletTable;
use crate::snake::{size_for_length, Snake, MAX_SIZE, MIN_SIZE, SEGMENTS_PER_SIZE, VELOCITY_SCALE};

verus! {

/// While boosting, a snake sheds its tail on every frame of its life that is a multiple of this.
pub const SHED_PERIOD: u32 = 6;

/// A pellet in reach of a head moves this fraction (one over it) of the way toward it.
pub const PULL_DIVISOR: i64 = 5;

/// Distance, rounded down, covered along an axis whose heading component is `v` (thousandths).
pub open spec fn travel(v: int, speed: int, factor: int) -> int {
    (v * speed * factor) / (VELOCITY_SCALE as int)
}

pub open spec fn boost_factor(s: Snake) -> int {
    if s.acceleration_time_left > 0 { 2 } else { 1 }
}

/// Where the head of `s` goes this frame: along its heading, twice as far when boosting,
/// wrapped onto the field.
pub open spec fn next_head(s: Snake) -> Coordinate {
    let h = s.bodies@[0];
    Coordinate {
        x: wrap(h.x + travel(s.velocity.x as int, s.speed as int, boost_factor(s))) as i64,
        y: wrap(h.y + travel(s.velocity.y as int, s.speed as int, boost_factor(s))) as i64,
    }
}

/// Whether `s` sheds its tail as food this frame: its boost outlasts this frame's tick, the
/// frame is a multiple of `SHED_PERIOD` in its life, and it has a segment to spare.
pub open spec fn sheds_tail(s: Snake) -> bool {
    &&& s.acceleration_time_left > 1
    &&& s.frame_count_offset % SHED_PERIOD == 0
    &&& s.bodies@.len() > 1
}

/// The body after the move: the new head in front, the tail segment gone (two when shedding).
pub open spec fn moved_body(s: Snake) -> Seq<Coordinate> {
    let keep = if sheds_tail(s) { s.bodies@.len() - 2 } else { s.bodies@.len() - 1 };
    seq![next_head(s)] + s.bodies@.subrange(0, keep)
}

pub open spec fn pull_axis(p: int, h: int) -> int {
    p + (h - p) / (PULL_DIVISOR as int)
}

/// Whether a pellet is in reach of a head of hit radius `size`: closer than twice that.
pub open spec fn in_reach(p: Pellet, head: Coordinate, size: int) -> bool {
    dist2(p.position, head) < (2 * size) * (2 * size)
}

/// The pellet after a head of hit radius `size` had its pull on it.
pub open spec fn pulled_by(p: Pellet, head: Coordinate, size: int) -> Pellet {
    if in_reach(p, head, size) {
        Pellet {
            position: Coordinate {
                x: pull_axis(p.position.x as int, head.x as int) as i64,
                y: pull_axis(p.position.y as int, head.y as int) as i64,
            },
            pulled: true,
            ..p
        }
    } else {
        p
    }
}

/// Whether the head eats the pellet: after the pull it lies closer than `size`.
pub open spec fn is_eaten(p: Pellet, head: Coordinate, size: int) -> bool {
    dist2(pulled_by(p, head, size).position, head) < size * size
}

/// The pellet table after a head of hit radius `size` passed over it: eaten pellets gone,
/// the rest pulled, in their order.
pub open spec fn survivors(s: Seq<(u64, Pellet)>, head: Coordinate, size: int) -> Seq<(u64, Pellet)>
    decreases s.len(),
{
    if s.len() == 0 {
        Seq::empty()
    } else {
        let rest = survivors(s.drop_last(), head, size);
        let e = s.last();
        if is_eaten(e.1, head, size) {
            rest
        } else {
            rest.push((e.0, pulled_by(e.1, head, size)))
        }
    }
}

/// How many pellets of `s` a head of hit radius `size` eats.
pub open spec fn eaten_count(s: Seq<(u64, Pellet)>, head: Coordinate, size: int) -> nat
    decreases s.len(),
{
    if s.len() == 0 {
        0
    } else {
        eaten_count(s.drop_last(), head, size) + if is_eaten(s.last().1, head, size) { 1nat } else { 0nat }
    }
}

/// `after` is `before` with the tail that `s` sheds this frame added as a feed pellet, when it
/// sheds one and an id is left; else `before` itself.
pub open spec fn shed_into(before: PelletTable, after: PelletTable, s: Snake) -> bool {
    if sheds_tail(s) && before.next_id < u64::MAX {
        &&& after.next_id == before.next_id + 1
        &&& after.entries@.len() == before.entries@.len() + 1
        &&& after.entries@.drop_last() == before.entries@
        &&& after.entries@.last().0 == before.next_id
        &&& after.entries@.last().1.wf()
        &&& after.entries@.last().1.center == s.bodies@.last()
        &&& after.entries@.last().1.position == s.bodies@.last()
        &&& after.entries@.last().1.color == s.color
        &&& after.entries@.last().1.size == FEED_SIZE
        &&& !after.entries@.last().1.pulled
    } else {
        after == before
    }
}

/// Whether `b` is `a` after its move of this frame, whatever it ate: the moved body, then one
/// copy of the new tail for each pellet eaten; the boost ticked down; the hit radius following
/// the length; all else as it was.
pub open spec fn stepped(a: Snake, b: Snake) -> bool {
    let m = moved_body(a);
    &&& b.bodies@.len() >= m.len()
    &&& b.bodies@.subrange(0, m.len() as int) == m
    &&& forall|k: int| m.len() <= k < b.bodies@.len() ==> #[trigger] b.bodies@[k] == m.last()
    &&& b.acceleration_time_left == if a.acceleration_time_left > 0 { (a.acceleration_time_left - 1) as u32 } else { 0 }
    &&& b.size == size_for_length(b.bodies@.len() as int)
    &&& b.speed == a.speed
    &&& b.color == a.color
    &&& b.velocity == a.velocity
    &&& b.frame_count_offset == a.frame_count_offset
    &&& b.is_visible_head == a.is_visible_head
}

proof fn lemma_pull_between(p: int, h: int)
    ensures
        p <= h ==> p <= pull_axis(p, h) <= h,
        h <= p ==> h <= pull_axis(p, h) <= p,
{
    let d = h - p;
    vstd::arithmetic::div_mod::lemma_fundamental_div_mod(d, 5);
}

proof fn lemma_prefix_step(s: Seq<(u64, Pellet)>, i: int)
    requires
        0 <= i < s.len(),
    ensures
        s.subrange(0, i + 1).drop_last() == s.subrange(0, i),
        s.subrange(0, i + 1).last() == s[i],
{
    assert(s.subrange(0, i + 1).drop_last() =~= s.subrange(0, i));
}

proof fn lemma_survivors_wf(s: Seq<(u64, Pellet)>, head: Coordinate, size: int, bound: u64)
    requires
        in_field(head),
        forall|i: int| 0 <= i < s.len() ==> (#[trigger] s[i]).1.wf() && s[i].0 < bound,
        forall|i: int, j: int| 0 <= i < j < s.len() ==> (#[trigger] s[i]).0 != (#[trigger] s[j]).0,
    ensures
        forall|i: int| 0 <= i < survivors(s, head, size).len() ==> (#[trigger] survivors(s, head, size)[i]).1.wf()
            && survivors(s, head, size)[i].0 < bound,
        forall|i: int, j: int|
            0 <= i < j < survivors(s, head, size).len() ==> (#[trigger] survivors(s, head, size)[i]).0
                != (#[trigger] survivors(s, head, size)[j]).0,
        forall|k: int| 0 <= k < survivors(s, head, size).len() ==>
            exists|i: int| 0 <= i < s.len() && (#[trigger] survivors(s, head, size)[k]).0 == s[i].0 && !is_eaten(s[i].1, head, size),
        survivors(s, head, size).len() + eaten_count(s, head, size) == s.len(),
    decreases s.len(),
{
    if s.len() > 0 {
        let t = s.drop_last();
        lemma_survivors_wf(t, head, size, bound);
        let e = s.last();
        let r = survivors(t, head, size);
        assert forall|k: int| 0 <= k < r.len() implies exists|i: int| 0 <= i < s.len() && (#[trigger] r[k]).0 == s[i].0 && !is_eaten(s[i].1, head, size) by {
            let i = choose|i: int| 0 <= i < t.len() && (#[trigger] r[k]).0 == t[i].0 && !is_eaten(t[i].1, head, size);
            assert(s[i] == t[i]);
        }
        if !is_eaten(e.1, head, size) {
            let q = pulled_by(e.1, head, size);
            assert(e.1.wf());
            if in_reach(e.1, head, size) {
                lemma_pull_between(e.1.position.x as int, head.x as int);
                lemma_pull_between(e.1.position.y as int, head.y as int);
            }
            assert(q.wf());
            let r2 = survivors(s, head, size);
            assert(r2 == r.push((e.0, q)));
            assert forall|i: int, j: int| 0 <= i < j < r2.len() implies (#[trigger] r2[i]).0 != (#[trigger] r2[j]).0 by {
                if j == r.len() {
                    let ii = choose|ii: int| 0 <= ii < t.len() && (#[trigger] r[i]).0 == t[ii].0 && !is_eaten(t[ii].1, head, size);
                    assert(s[ii] == t[ii]);
                    assert(s[s.len() - 1] == e);
                } else {
                    assert(r2[i] == r[i]);
                    assert(r2[j] == r[j]);
                }
            }
            assert forall|k: int| 0 <= k < r2.len() implies exists|i: int| 0 <= i < s.len() && (#[trigger] r2[k]).0 == s[i].0 && !is_eaten(s[i].1, head, size) by {
                if k == r.len() {
                    assert(s[s.len() - 1] == e);
                } else {
                    assert(r2[k] == r[k]);
                    let i = choose|i: int| 0 <= i < s.len() && (#[trigger] r[k]).0 == s[i].0 && !is_eaten(s[i].1, head, size);
                }
            }
            assert forall|i: int| 0 <= i < r2.len() implies (#[trigger] r2[i]).1.wf() && r2[i].0 < bound by {
                if i < r.len() {
                    assert(r2[i] == r[i]);
                } else {
                    assert(s[s.len() - 1] == e);
                }
            }
        }
    }
}

/// Advances `snake` one frame: it moves (shedding its tail as food on the frames `sheds_tail`
/// names), then draws in the pellets in reach of its new head and eats those that end up
/// closer than its hit radius, growing one segment for each; its hit radius then follows its
/// new length.
#[verifier::rlimit(50)]
pub fn advance(snake: &mut Snake, pellets: &mut PelletTable)
    requires
        old(snake).wf(),
        old(pellets).wf(),
    ensures
        final(snake).wf(),
        final(pellets).wf(),
        stepped(*old(snake), *final(snake)),
        exists|t: PelletTable| {
            &&& #[trigger] shed_into(*old(pellets), t, *old(snake))
            &&& final(pellets).next_id == t.next_id
            &&& final(pellets).entries@ == survivors(t.entries@, next_head(*old(snake)), old(snake).size as int)
            &&& final(snake).bodies@ == moved_body(*old(snake)) + Seq::new(
                eaten_count(t.entries@, next_head(*old(snake)), old(snake).size as int),
                |k: int| moved_body(*old(snake)).last(),
            )
            &&& forall|j: int| 0 <= j < t.entries@.len()
                && is_eaten(#[trigger] t.entries@[j].1, next_head(*old(snake)), old(snake).size as int)
                ==> !final(pellets).contains_id(t.entries@[j].0)
            &&& final(snake).bodies@.len() == old(snake).bodies@.len() - (if sheds_tail(*old(snake)) { 1int } else { 0int })
                + eaten_count(t.entries@, next_head(*old(snake)), old(snake).size as int)
            &&& final(pellets).entries@.len() + eaten_count(t.entries@, next_head(*old(snake)), old(snake).size as int)
                == t.entries@.len()
            // a snake that neither boosts nor eats keeps its length
            &&& !old(snake).is_boosting() && eaten_count(t.entries@, next_head(*old(snake)), old(snake).size as int) == 0
                ==> final(snake).bodies@.len() == old(snake).bodies@.len()
            // a snake that eats one pellet and does not shed grows by exactly one segment
            &&& !sheds_tail(*old(snake)) && eaten_count(t.entries@, next_head(*old(snake)), old(snake).size as int) == 1
                ==> final(snake).bodies@.len() == old(snake).bodies@.len() + 1
        },
        final(snake).bodies@[0] == next_head(*old(snake)),
        final(snake).acceleration_time_left == if old(snake).acceleration_time_left > 0 {
            old(snake).acceleration_time_left - 1
        } else {
            0
        },
        final(snake).size == size_for_length(final(snake).bodies@.len() as int),
        final(snake).speed == old(snake).speed,
        final(snake).color == old(snake).color,
        final(snake).velocity == old(snake).velocity,
        final(snake).frame_count_offset == old(snake).frame_count_offset,
        final(snake).is_visible_head == old(snake).is_visible_head,
{
    let ghost s0 = *snake;
    let factor: i64 = if snake.acceleration_time_left > 0 { 2 } else { 1 };
    if snake.acceleration_time_left > 0 {
        snake.acceleration_time_left = snake.acceleration_time_left - 1;
    }
    let head = snake.bodies[0];
    proof {
        assert(in_field(s0.bodies@[0]));
        assert(-2000000 <= snake.velocity.x * snake.speed * factor <= 2000000) by (nonlinear_arith)
            requires -1000 <= snake.velocity.x <= 1000, 0 <= snake.speed <= 1000, 1 <= factor <= 2;
        assert(-2000000 <= snake.velocity.y * snake.speed * factor <= 2000000) by (nonlinear_arith)
            requires -1000 <= snake.velocity.y <= 1000, 0 <= snake.speed <= 1000, 1 <= factor <= 2;
    }
    let tx = floor_div(snake.velocity.x * snake.speed * factor, VELOCITY_SCALE);
    let ty = floor_div(snake.velocity.y * snake.speed * factor, VELOCITY_SCALE);
    proof {
        vstd::arithmetic::div_mod::lemma_div_is_ordered((snake.velocity.x * snake.speed * factor) as int, 2000000, 1000);
        vstd::arithmetic::div_mod::lemma_div_is_ordered(-2000000, (snake.velocity.x * snake.speed * factor) as int, 1000);
        vstd::arithmetic::div_mod::lemma_div_is_ordered((snake.velocity.y * snake.speed * factor) as int, 2000000, 1000);
        vstd::arithmetic::div_mod::lemma_div_is_ordered(-2000000, (snake.velocity.y * snake.speed * factor) as int, 1000);
    }
    let new_head = Coordinate { x: wrap_field(head.x + tx), y: wrap_field(head.y + ty) };
    assert(new_head == next_head(s0));

    if snake.acceleration_time_left > 0 && snake.frame_count_offset % SHED_PERIOD == 0 && snake.bodies.len() > 1 {
        match snake.bodies.pop() {
            Some(tail) => {
                proof {
                    assert(in_field(s0.bodies@[s0.bodies@.len() - 1]));
                }
                let p = Pellet::new_with_color_and_size(tail, snake.color, FEED_SIZE);
                let added = pellets.insert(p);
                proof {
                    assert(tail == s0.bodies@.last());
                    if added {
                        assert(pellets.entries@.drop_last() =~= old(pellets).entries@);
                    }
                }
            },
            None => {},
        }
    }
    let ghost t = *pellets;
    assert(shed_into(*old(pellets), t, s0));
    snake.bodies.pop();
    snake.bodies.insert(0, new_head);
    proof {
        assert(snake.bodies@ =~= moved_body(s0));
    }
    let ghost moved = snake.bodies@;
    let tail = snake.bodies[snake.bodies.len() - 1];

    proof {
        assert(s0.size == size_for_length(s0.bodies@.len() as int));
    }
    let size = snake.size as i64;
    proof {
        assert(15 <= size <= 40);
        assert((2 * size) * (2 * size) <= 6400) by (nonlinear_arith)
            requires 15 <= size <= 40;
        assert(size * size <= 1600) by (nonlinear_arith)
            requires 15 <= size <= 40;
    }
    let reach = (2 * size) * (2 * size);
    let eat = size * size;
    let mut kept: Vec<(u64, Pellet)> = Vec::new();
    let mut i: usize = 0;
    let n = pellets.entries.len();
    while i < n
        invariant
            n == t.entries@.len(),
            *pellets == t,
            t.wf(),
            i <= n,
            in_field(new_head),
            size == s0.size,
            1 <= size <= 40,
            reach == (2 * size) * (2 * size),
            eat == size * size,
            kept@ == survivors(t.entries@.subrange(0, i as int), new_head, size as int),
            snake.bodies@ == moved + Seq::new(
                eaten_count(t.entries@.subrange(0, i as int), new_head, size as int),
                |k: int| moved.last(),
            ),
            moved.len() >= 1,
            tail == moved.last(),
            snake.speed == s0.speed,
            snake.color == s0.color,
            snake.velocity == s0.velocity,
            snake.frame_count_offset == s0.frame_count_offset,
            snake.is_visible_head == s0.is_visible_head,
            snake.acceleration_time_left == if s0.acceleration_time_left > 0 {
                s0.acceleration_time_left - 1
            } else {
                0
            },
        decreases n - i,
    {
        let entry = pellets.entries[i];
        let mut p = entry.1;
        proof {
            lemma_prefix_step(t.entries@, i as int);
            assert(t.entries@[i as int].1.wf());
        }
        if p.position.distance2(&new_head) < reach {
            proof {
                lemma_pull_between(p.position.x as int, new_head.x as int);
                lemma_pull_between(p.position.y as int, new_head.y as int);
            }
            let nx = p.position.x + floor_div(new_head.x - p.position.x, PULL_DIVISOR);
            let ny = p.position.y + floor_div(new_head.y - p.position.y, PULL_DIVISOR);
            p.position = Coordinate { x: nx, y: ny };
            p.pulled = true;
        }
        assert(p == pulled_by(entry.1, new_head, size as int));
        if p.position.distance2(&new_head) < eat {
            snake.bodies.push(tail);
            proof {
                let e0 = eaten_count(t.entries@.subrange(0, i as int), new_head, size as int);
                assert(snake.bodies@ =~= moved + Seq::new(e0 + 1, |k: int| moved.last()));
            }
        } else {
            kept.push((entry.0, p));
        }
        i = i + 1;
    }
    proof {
        assert(t.entries@.subrange(0, n as int) =~= t.entries@);
        lemma_survivors_wf(t.entries@, new_head, size as int, t.next_id);
        assert forall|j: int| 0 <= j < t.entries@.len()
            && is_eaten(#[trigger] t.entries@[j].1, new_head, size as int)
            implies !(PelletTable { entries: kept, next_id: t.next_id }).contains_id(t.entries@[j].0) by {
            if exists|k: int| 0 <= k < kept@.len() && (#[trigger] kept@[k]).0 == t.entries@[j].0 {
                let k = choose|k: int| 0 <= k < kept@.len() && (#[trigger] kept@[k]).0 == t.entries@[j].0;
                let ii = choose|ii: int| 0 <= ii < t.entries@.len() && (#[trigger] kept@[k]).0 == t.entries@[ii].0
                    && !is_eaten(t.entries@[ii].1, new_head, size as int);
                assert(ii != j);
            }
        }
    }
    pellets.entries = kept;
    let len = snake.bodies.len();
    snake.size = if MIN_SIZE + len / SEGMENTS_PER_SIZE < MAX_SIZE {
        MIN_SIZE + len / SEGMENTS_PER_SIZE
    } else {
        MAX_SIZE
    };
    proof {
        assert forall|k: int| 0 <= k < snake.bodies@.len() implies in_field(#[trigger] snake.bodies@[k]) by {
            if k < moved.len() {
                if k > 0 {
                    assert(moved[k] == s0.bodies@[k - 1]);
                }
            } else {
                assert(moved.last() == moved[moved.len() - 1]);
                if moved.len() > 1 {
                    assert(moved[moved.len() - 1] == s0.bodies@[moved.len() - 2]);
                }
            }
        }
        assert(shed_into(*old(pellets), t, s0));
        assert(snake.bodies@.subrange(0, moved.len() as int) =~= moved);
    }
}

} // verus!

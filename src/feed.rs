use vstd::prelude::*;

use crate::coordinate::{in_field, wrap, wrap_field, Coordinate};
use crate::pellet::{Pellet, FEED_SIZE};
use crate::pellet_table::PelletTable;
use crate::random::random_below;
use crate::snake::Snake;

verus! {

/// A pellet dropped from a body segment lands up to this many units off it on each axis.
pub const FEED_JITTER: i64 = 10;

/// A segment drops food when its coin, drawn from `0..COIN_SIDES`, is below `DROP_BELOW`.
pub const COIN_SIDES: u64 = 10;

pub const DROP_BELOW: u64 = 5;

/// Where the food from segment `b` lands for the coin `coin` and the offset draws `jitter`
/// (each from `0..2 * FEED_JITTER`), if it drops at all.
pub open spec fn feed_center_of(b: Coordinate, coin: u64, jitter: (u64, u64)) -> Option<Coordinate> {
    if coin < DROP_BELOW {
        Some(Coordinate {
            x: wrap(b.x + jitter.0 - FEED_JITTER) as i64,
            y: wrap(b.y + jitter.1 - FEED_JITTER) as i64,
        })
    } else {
        None
    }
}

pub open spec fn feed_centers_of(bodies: Seq<Coordinate>, coins: Seq<u64>, jitter: Seq<(u64, u64)>) -> Seq<Option<Coordinate>> {
    Seq::new(bodies.len(), |i: int| feed_center_of(bodies[i], coins[i], jitter[i]))
}

/// The centres that do drop, in segment order.
pub open spec fn dropped_centers(opts: Seq<Option<Coordinate>>) -> Seq<Coordinate>
    decreases opts.len(),
{
    if opts.len() == 0 {
        Seq::empty()
    } else {
        let r = dropped_centers(opts.drop_last());
        match opts.last() {
            Some(c) => r.push(c),
            None => r,
        }
    }
}

/// Whether the draws are ones the dice can give for a body of `n` segments.
pub open spec fn valid_draws(n: int, coins: Seq<u64>, jitter: Seq<(u64, u64)>) -> bool {
    &&& coins.len() == n
    &&& jitter.len() == n
    &&& forall|i: int| 0 <= i < n ==> #[trigger] coins[i] < COIN_SIDES
    &&& forall|i: int| 0 <= i < n ==> (#[trigger] jitter[i]).0 < 2 * FEED_JITTER && jitter[i].1 < 2 * FEED_JITTER
}

pub open spec fn min(a: int, b: int) -> int {
    if a < b { a } else { b }
}

/// `after` is `before` with one food pellet of `s` at each of `centers` appended, in order and
/// under the next ids, as far as ids last.
pub open spec fn drops_exact(before: PelletTable, after: PelletTable, s: Snake, centers: Seq<Coordinate>) -> bool {
    let n = before.entries@.len() as int;
    let m = min(centers.len() as int, before.ids_left());
    &&& after.entries@.len() == n + m
    &&& after.entries@.subrange(0, n) == before.entries@
    &&& after.next_id == before.next_id + m
    &&& forall|j: int| 0 <= j < m ==> {
        let e = #[trigger] after.entries@[n + j];
        &&& e.0 == before.next_id + j
        &&& e.1.center == centers[j]
        &&& e.1.position == centers[j]
        &&& e.1.size == FEED_SIZE
        &&& e.1.color == s.color
        &&& e.1.frame_count_offset == 0
        &&& !e.1.pulled
    }
}

/// Where the food of each segment lands, for the given draws (see `feed_center_of`).
pub fn feed_centers(bodies: &Vec<Coordinate>, coins: &Vec<u64>, jitter: &Vec<(u64, u64)>) -> (r: Vec<Option<Coordinate>>)
    requires
        forall|i: int| 0 <= i < bodies@.len() ==> in_field(#[trigger] bodies@[i]),
        valid_draws(bodies@.len() as int, coins@, jitter@),
    ensures
        r@ == feed_centers_of(bodies@, coins@, jitter@),
{
    let mut r: Vec<Option<Coordinate>> = Vec::new();
    let mut i: usize = 0;
    while i < bodies.len()
        invariant
            forall|k: int| 0 <= k < bodies@.len() ==> in_field(#[trigger] bodies@[k]),
            valid_draws(bodies@.len() as int, coins@, jitter@),
            i <= bodies@.len(),
            r@ == feed_centers_of(bodies@, coins@, jitter@).subrange(0, i as int),
        decreases bodies@.len() - i,
    {
        let b = bodies[i];
        proof {
            assert(in_field(bodies@[i as int]));
            assert(coins@[i as int] < COIN_SIDES);
            assert(jitter@[i as int].0 < 20 && jitter@[i as int].1 < 20);
        }
        if coins[i] < DROP_BELOW {
            let (jx, jy) = jitter[i];
            r.push(Some(Coordinate {
                x: wrap_field(b.x + jx as i64 - FEED_JITTER),
                y: wrap_field(b.y + jy as i64 - FEED_JITTER),
            }));
        } else {
            r.push(None);
        }
        proof {
            assert(r@ =~= feed_centers_of(bodies@, coins@, jitter@).subrange(0, i + 1));
        }
        i = i + 1;
    }
    proof {
        assert(r@ =~= feed_centers_of(bodies@, coins@, jitter@));
    }
    r
}

proof fn lemma_prefix_last(s: Seq<Option<Coordinate>>, i: int)
    requires
        0 <= i < s.len(),
    ensures
        s.subrange(0, i + 1).drop_last() == s.subrange(0, i),
        s.subrange(0, i + 1).last() == s[i],
{
    assert(s.subrange(0, i + 1).drop_last() =~= s.subrange(0, i));
}

/// Appends to the table one food pellet of `s` for each segment whose coin comes up below
/// `DROP_BELOW`, centred on the segment moved by its offset draws (see `feed_center_of`).
pub fn drop_feed(pellets: &mut PelletTable, s: &Snake)
    requires
        old(pellets).wf(),
        s.wf(),
    ensures
        final(pellets).wf(),
        exists|coins: Seq<u64>, jitter: Seq<(u64, u64)>|
            #[trigger] valid_draws(s.bodies@.len() as int, coins, jitter)
                && drops_exact(*old(pellets), *final(pellets), *s, dropped_centers(feed_centers_of(s.bodies@, coins, jitter))),
{
    let n = s.bodies.len();
    let mut coins: Vec<u64> = Vec::new();
    let mut jitter: Vec<(u64, u64)> = Vec::new();
    let mut k: usize = 0;
    while k < n
        invariant
            k <= n,
            coins@.len() == k,
            jitter@.len() == k,
            forall|i: int| 0 <= i < k ==> #[trigger] coins@[i] < COIN_SIDES,
            forall|i: int| 0 <= i < k ==> (#[trigger] jitter@[i]).0 < 2 * FEED_JITTER && jitter@[i].1 < 2 * FEED_JITTER,
        decreases n - k,
    {
        coins.push(random_below(COIN_SIDES));
        let jx = random_below(2 * FEED_JITTER as u64);
        let jy = random_below(2 * FEED_JITTER as u64);
        jitter.push((jx, jy));
        k = k + 1;
    }
    let opts = feed_centers(&s.bodies, &coins, &jitter);
    let ghost before = *pellets;
    let mut i: usize = 0;
    proof {
        assert(opts@.subrange(0, 0) =~= Seq::<Option<Coordinate>>::empty());
        assert(pellets.entries@.subrange(0, pellets.entries@.len() as int) =~= pellets.entries@);
    }
    while i < opts.len()
        invariant
            pellets.wf(),
            s.wf(),
            opts@ == feed_centers_of(s.bodies@, coins@, jitter@),
            valid_draws(s.bodies@.len() as int, coins@, jitter@),
            i <= opts@.len(),
            drops_exact(before, *pellets, *s, dropped_centers(opts@.subrange(0, i as int))),
        decreases opts@.len() - i,
    {
        proof {
            lemma_prefix_last(opts@, i as int);
        }
        let ghost prev = *pellets;
        let ghost cs = dropped_centers(opts@.subrange(0, i as int));
        match opts[i] {
            Some(c) => {
                proof {
                    assert(in_field(s.bodies@[i as int]));
                }
                let p = Pellet::new_with_color_and_size(c, s.color, FEED_SIZE);
                let added = pellets.insert(p);
                proof {
                    let cs2 = cs.push(c);
                    assert(dropped_centers(opts@.subrange(0, i + 1)) == cs2);
                    let nb = before.entries@.len() as int;
                    let m = min(cs.len() as int, before.ids_left());
                    if added {
                        assert(m == cs.len());
                        assert(pellets.entries@.subrange(0, nb) =~= before.entries@) by {
                            assert forall|j: int| 0 <= j < nb implies pellets.entries@.subrange(0, nb)[j] == before.entries@[j] by {
                                assert(prev.entries@.subrange(0, nb)[j] == before.entries@[j]);
                            }
                        }
                        assert forall|j: int| 0 <= j < m + 1 implies {
                            let e = #[trigger] pellets.entries@[nb + j];
                            &&& e.0 == before.next_id + j
                            &&& e.1.center == cs2[j]
                            &&& e.1.position == cs2[j]
                            &&& e.1.size == FEED_SIZE
                            &&& e.1.color == s.color
                            &&& e.1.frame_count_offset == 0
                            &&& !e.1.pulled
                        } by {
                            if j < m {
                                assert(pellets.entries@[nb + j] == prev.entries@[nb + j]);
                            }
                        }
                    } else {
                        assert(m == before.ids_left());
                    }
                }
            },
            None => {
                proof {
                    assert(dropped_centers(opts@.subrange(0, i + 1)) == cs);
                }
            },
        }
        i = i + 1;
    }
    proof {
        assert(opts@.subrange(0, opts@.len() as int) =~= opts@);
        assert(valid_draws(s.bodies@.len() as int, coins@, jitter@));
    }
}

} // verus!

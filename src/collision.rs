use vstd::prelude::*;

use crate::coordinate::{dist2, in_field};
use crate::snake::Snake;

verus! {

/// Square of the distance within which two snakes touch: the sum of their hit radii.
pub open spec fn touch_range2(a: Snake, b: Snake) -> int {
    (a.size + b.size) * (a.size + b.size)
}

pub open spec fn heads_clash(a: Snake, b: Snake) -> bool {
    dist2(a.bodies@[0], b.bodies@[0]) <= touch_range2(a, b)
}

/// Whether `a` wins a head-on clash with `b` outright: when exactly one of them boosts, the
/// booster wins; otherwise the strictly larger one does.
pub open spec fn beats(a: Snake, b: Snake) -> bool {
    if a.is_boosting() != b.is_boosting() {
        a.is_boosting()
    } else {
        a.size > b.size
    }
}

/// Neither wins a head-on clash outright: both boost or neither does, and they are of one size.
pub open spec fn level(a: Snake, b: Snake) -> bool {
    a.is_boosting() == b.is_boosting() && a.size == b.size
}

/// Whether snake `i` dies in a head-on clash with snake `j`. A level clash is settled by the
/// coin of the lower of the two indices: heads, the lower index dies; tails, the other.
pub open spec fn loses_clash(s: Seq<(u128, Snake)>, coins: Seq<bool>, i: int, j: int) -> bool {
    &&& heads_clash(s[i].1, s[j].1)
    &&& (beats(s[j].1, s[i].1) || (level(s[i].1, s[j].1) && if i < j { coins[i] } else { !coins[j] }))
}

/// Whether the head of `a` runs into a segment of `b` without the two heads clashing.
pub open spec fn hits_body(a: Snake, b: Snake) -> bool {
    &&& !heads_clash(a, b)
    &&& exists|k: int| 0 <= k < b.bodies@.len() && dist2(a.bodies@[0], #[trigger] b.bodies@[k]) <= touch_range2(a, b)
}

pub open spec fn killed_by(s: Seq<(u128, Snake)>, coins: Seq<bool>, i: int, j: int) -> bool {
    j != i && (loses_clash(s, coins, i, j) || hits_body(s[i].1, s[j].1))
}

/// Whether snake `i` dies this frame: it loses a head-on clash, or runs into another's body.
pub open spec fn dies(s: Seq<(u128, Snake)>, coins: Seq<bool>, i: int) -> bool {
    exists|j: int| 0 <= j < s.len() && #[trigger] killed_by(s, coins, i, j)
}

/// For each snake, whether it dies in this frame's collisions, all judged on the positions as
/// they stand (no death changes another's outcome). `coins` settles level head-on clashes.
pub fn collision_deaths(snakes: &Vec<(u128, Snake)>, coins: &Vec<bool>) -> (dead: Vec<bool>)
    requires
        forall|i: int| 0 <= i < snakes@.len() ==> (#[trigger] snakes@[i]).1.wf(),
        coins@.len() == snakes@.len(),
    ensures
        dead@.len() == snakes@.len(),
        forall|i: int| 0 <= i < snakes@.len() ==> dead@[i] == dies(snakes@, coins@, i),
{
    let n = snakes.len();
    let mut dead: Vec<bool> = Vec::new();
    let mut i: usize = 0;
    while i < n
        invariant
            n == snakes@.len(),
            coins@.len() == n,
            forall|a: int| 0 <= a < snakes@.len() ==> (#[trigger] snakes@[a]).1.wf(),
            i <= n,
            dead@.len() == i,
            forall|a: int| 0 <= a < i ==> dead@[a] == dies(snakes@, coins@, a),
        decreases n - i,
    {
        let a = &snakes[i].1;
        let ha = a.bodies[0];
        proof {
            assert(snakes@[i as int].1.wf());
            assert(in_field(a.bodies@[0]));
        }
        let mut found = false;
        let mut j: usize = 0;
        while j < n
            invariant
                n == snakes@.len(),
                coins@.len() == n,
                forall|x: int| 0 <= x < snakes@.len() ==> (#[trigger] snakes@[x]).1.wf(),
                i < n,
                *a == snakes@[i as int].1,
                ha == a.bodies@[0],
                in_field(ha),
                j <= n,
                found == exists|b: int| 0 <= b < j && #[trigger] killed_by(snakes@, coins@, i as int, b),
            decreases n - j,
        {
            if j != i {
                let b = &snakes[j].1;
                proof {
                    assert(snakes@[j as int].1.wf());
                    assert(in_field(b.bodies@[0]));
                    assert(15 <= a.size <= 40 && 15 <= b.size <= 40);
                    assert((a.size + b.size) * (a.size + b.size) <= 6400) by (nonlinear_arith)
                        requires 15 <= a.size <= 40, 15 <= b.size <= 40;
                }
                let range2 = ((a.size + b.size) * (a.size + b.size)) as i64;
                let hb = b.bodies[0];
                let mut hit = false;
                if ha.distance2(&hb) <= range2 {
                    let a_boost = a.acceleration_time_left > 0;
                    let b_boost = b.acceleration_time_left > 0;
                    if a_boost == b_boost {
                        if a.size < b.size {
                            hit = true;
                        } else if a.size == b.size {
                            hit = if i < j { coins[i] } else { !coins[j] };
                        }
                    } else if b_boost {
                        hit = true;
                    }
                    assert(hit == killed_by(snakes@, coins@, i as int, j as int));
                } else {
                    let m = b.bodies.len();
                    let mut k: usize = 0;
                    while k < m
                        invariant
                            m == b.bodies@.len(),
                            b.wf(),
                            in_field(ha),
                            k <= m,
                            range2 == touch_range2(*a, *b),
                            hit == exists|kk: int| 0 <= kk < k && dist2(ha, #[trigger] b.bodies@[kk]) <= range2,
                        decreases m - k,
                    {
                        let c = b.bodies[k];
                        proof {
                            assert(in_field(b.bodies@[k as int]));
                        }
                        if ha.distance2(&c) <= range2 {
                            hit = true;
                        }
                        k = k + 1;
                    }
                    assert(hit == killed_by(snakes@, coins@, i as int, j as int));
                }
                if hit {
                    found = true;
                }
            }
            proof {
                assert(!killed_by(snakes@, coins@, i as int, i as int));
            }
            j = j + 1;
        }
        dead.push(found);
        i = i + 1;
    }
    dead
}

/// A head-on clash between two snakes that both boost or both do not, and differ in size,
/// always kills the smaller one.
pub proof fn lemma_smaller_dies(s: Seq<(u128, Snake)>, coins: Seq<bool>, i: int, j: int)
    requires
        0 <= i < s.len(),
        0 <= j < s.len(),
        i != j,
        heads_clash(s[i].1, s[j].1),
        s[i].1.is_boosting() == s[j].1.is_boosting(),
        s[i].1.size < s[j].1.size,
    ensures
        dies(s, coins, i),
{
    assert(killed_by(s, coins, i, j));
}

/// With two snakes alone on the field whose heads clash, both boosting or both not and of one
/// size, exactly one of them dies, whichever way the coin falls.
pub proof fn lemma_level_clash_kills_one(s: Seq<(u128, Snake)>, coins: Seq<bool>)
    requires
        s.len() == 2,
        coins.len() == 2,
        heads_clash(s[0].1, s[1].1),
        level(s[0].1, s[1].1),
    ensures
        dies(s, coins, 0) != dies(s, coins, 1),
{
    let a = s[0].1;
    let b = s[1].1;
    assert(dist2(b.bodies@[0], a.bodies@[0]) == dist2(a.bodies@[0], b.bodies@[0])) by (nonlinear_arith);
    assert(heads_clash(b, a));
    if coins[0] {
        assert(killed_by(s, coins, 0, 1));
        assert forall|j: int| 0 <= j < s.len() implies !#[trigger] killed_by(s, coins, 1, j) by {}
    } else {
        assert(killed_by(s, coins, 1, 0));
        assert forall|j: int| 0 <= j < s.len() implies !#[trigger] killed_by(s, coins, 0, j) by {}
    }
}

} // verus!

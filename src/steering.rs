use vstd::prelude::*;

use crate::coordinate::{floor_div, Coordinate};
use crate::snake::{unit_heading, VELOCITY_SCALE};

verus! {

/// Whether `r` is the integer square root of `n`.
pub open spec fn is_isqrt(r: int, n: int) -> bool {
    0 <= r && r * r <= n < (r + 1) * (r + 1)
}

/// Five times the blend `0.8 * old + 0.2 * target` of the old heading with the requested one.
pub open spec fn blend(old: Coordinate, target: Coordinate) -> Coordinate {
    Coordinate { x: (4 * old.x + target.x) as i64, y: (4 * old.y + target.y) as i64 }
}

pub open spec fn norm2(v: Coordinate) -> int {
    v.x * v.x + v.y * v.y
}

/// `v` scaled to length `VELOCITY_SCALE`, given its length `len` (rounded down).
pub open spec fn rescaled(v: Coordinate, len: int) -> Coordinate {
    Coordinate {
        x: ((v.x * VELOCITY_SCALE) / len) as i64,
        y: ((v.y * VELOCITY_SCALE) / len) as i64,
    }
}

/// Whether `r` is `old` turned toward `target`: the blend of the two rescaled to length
/// `VELOCITY_SCALE`, or `old` itself when the blend is the zero vector.
pub open spec fn steered(old: Coordinate, target: Coordinate, r: Coordinate) -> bool {
    &&& norm2(blend(old, target)) == 0 ==> r == old
    &&& norm2(blend(old, target)) > 0 ==> exists|len: int|
        is_isqrt(len, norm2(blend(old, target))) && len > 0 && r == rescaled(blend(old, target), len)
}

/// The integer square root of `n`.
pub fn isqrt(n: u64) -> (r: u64)
    requires
        n <= 1_000_000_000_000,
    ensures
        is_isqrt(r as int, n as int),
{
    let mut lo: u64 = 0;
    let mut hi: u64 = 1_000_001;
    assert(hi * hi > n) by (nonlinear_arith)
        requires hi == 1_000_001, n <= 1_000_000_000_000;
    while hi - lo > 1
        invariant
            lo < hi <= 1_000_001,
            lo * lo <= n,
            n < hi * hi,
        decreases hi - lo,
    {
        let mid = lo + (hi - lo) / 2;
        assert(mid * mid <= 1_000_001 * 1_000_001) by (nonlinear_arith)
            requires mid <= 1_000_001;
        if mid * mid <= n {
            lo = mid;
        } else {
            hi = mid;
        }
    }
    assert(hi == lo + 1);
    lo
}

/// Turns `old` part of the way toward `target`, keeping length `VELOCITY_SCALE`. When the
/// blend of the two comes out as the zero vector, `old` is kept.
pub fn steer(old: Coordinate, target: Coordinate) -> (r: Coordinate)
    requires
        unit_heading(old),
        unit_heading(target),
    ensures
        unit_heading(r),
        steered(old, target, r),
{
    let bx = 4 * old.x + target.x;
    let by = 4 * old.y + target.y;
    let b = Coordinate { x: bx, y: by };
    assert(b == blend(old, target));
    proof {
        assert(bx * bx <= 25_000_000 && by * by <= 25_000_000) by (nonlinear_arith)
            requires -5000 <= bx <= 5000, -5000 <= by <= 5000;
        assert(0 <= bx * bx && 0 <= by * by) by (nonlinear_arith);
    }
    let n2 = (bx * bx + by * by) as u64;
    if n2 == 0 {
        return old;
    }
    let root = isqrt(n2);
    proof {
        assert(root <= 7072) by (nonlinear_arith)
            requires is_isqrt(root as int, n2 as int), n2 <= 50_000_000;
    }
    let len = root as i64;
    proof {
        assert(len > 0) by (nonlinear_arith)
            requires is_isqrt(len as int, n2 as int), n2 > 0;
        assert(-len <= bx <= len) by (nonlinear_arith)
            requires is_isqrt(len as int, n2 as int), n2 == bx * bx + by * by, 0 <= by * by;
        assert(-len <= by <= len) by (nonlinear_arith)
            requires is_isqrt(len as int, n2 as int), n2 == bx * bx + by * by, 0 <= bx * bx;
        assert(len <= 7072) by (nonlinear_arith)
            requires is_isqrt(len as int, n2 as int), n2 <= 50_000_000;
        assert(-1000 * len <= bx * 1000 <= 1000 * len) by (nonlinear_arith)
            requires -len <= bx <= len;
        assert(-1000 * len <= by * 1000 <= 1000 * len) by (nonlinear_arith)
            requires -len <= by <= len;
    }
    let x = floor_div(bx * VELOCITY_SCALE, len);
    let y = floor_div(by * VELOCITY_SCALE, len);
    proof {
        vstd::arithmetic::div_mod::lemma_div_is_ordered((bx * 1000) as int, 1000 * len, len as int);
        vstd::arithmetic::div_mod::lemma_div_is_ordered(-1000 * len, (bx * 1000) as int, len as int);
        vstd::arithmetic::div_mod::lemma_div_is_ordered((by * 1000) as int, 1000 * len, len as int);
        vstd::arithmetic::div_mod::lemma_div_is_ordered(-1000 * len, (by * 1000) as int, len as int);
        let l = len as int;
        vstd::arithmetic::div_mod::lemma_div_by_multiple(1000, l);
        vstd::arithmetic::div_mod::lemma_fundamental_div_mod_converse(-1000 * l, l, -1000, 0);
        assert((1000 * l) / l == 1000) by {
            vstd::arithmetic::mul::lemma_mul_is_commutative(1000, l);
        }
        assert((-1000 * l) / l == -1000) by {
            vstd::arithmetic::mul::lemma_mul_is_commutative(-1000, l);
        }
    }
    let r = Coordinate { x, y };
    assert(r == rescaled(blend(old, target), len as int));
    r
}

} // verus!

use vstd::prelude::*;

verus! {

/// Side length of the square, wrap-around playing field, in field units.
pub const FIELD_SIZE: i64 = 10000;

/// Largest magnitude of a coordinate component that the arithmetic here accepts.
pub const COORD_LIMIT: i64 = 1_000_000_000;

/// A point (or a vector) on the field, in whole field units.
#[derive(Clone, Copy, Debug, PartialEq, Eq, Structural)]
pub struct Coordinate {
    pub x: i64,
    pub y: i64,
}

/// `v` reduced onto the field's circle: the unique value in `[0, FIELD_SIZE)` congruent to `v`.
pub open spec fn wrap(v: int) -> int {
    v % (FIELD_SIZE as int)
}

pub open spec fn in_field(c: Coordinate) -> bool {
    0 <= c.x < FIELD_SIZE && 0 <= c.y < FIELD_SIZE
}

pub open spec fn bounded(c: Coordinate) -> bool {
    -COORD_LIMIT <= c.x <= COORD_LIMIT && -COORD_LIMIT <= c.y <= COORD_LIMIT
}

pub open spec fn dist2(a: Coordinate, b: Coordinate) -> int {
    (a.x - b.x) * (a.x - b.x) + (a.y - b.y) * (a.y - b.y)
}

/// Whether `v` lies in the wrapped interval that starts at `lo` and spans `len` units.
pub open spec fn in_span(v: int, lo: int, len: int) -> bool {
    wrap(v - lo) <= len
}

pub open spec fn in_rect(c: Coordinate, x0: int, y0: int, width: int, height: int) -> bool {
    in_span(c.x as int, x0, width) && in_span(c.y as int, y0, height)
}

/// The point re-expressed relative to the origin `(x0, y0)`, on the field's circle.
pub open spec fn rebase(c: Coordinate, x0: int, y0: int) -> Coordinate {
    Coordinate { x: wrap(c.x - x0) as i64, y: wrap(c.y - y0) as i64 }
}

/// Reduces `v` onto the field: `(v + FIELD_SIZE) mod FIELD_SIZE`, for any `v` in range.
pub fn wrap_field(v: i64) -> (r: i64)
    requires
        -4 * COORD_LIMIT <= v <= 4 * COORD_LIMIT,
    ensures
        r == wrap(v as int),
        0 <= r < FIELD_SIZE,
{
    if v >= 0 {
        v % FIELD_SIZE
    } else {
        let m = (-v) % FIELD_SIZE;
        if m == 0 {
            0
        } else {
            proof {
                let n = -v;
                assert(n == (n / FIELD_SIZE as int) * FIELD_SIZE as int + m);
                assert(v as int == (-(n / FIELD_SIZE as int) - 1) * FIELD_SIZE as int + (FIELD_SIZE - m));
                vstd::arithmetic::div_mod::lemma_fundamental_div_mod_converse(
                    v as int,
                    FIELD_SIZE as int,
                    -(n / FIELD_SIZE as int) - 1,
                    FIELD_SIZE - m,
                );
            }
            FIELD_SIZE - m
        }
    }
}

/// `a / d` rounded down, for a positive `d`, where `a + 100000 * d` is not negative.
pub fn floor_div(a: i64, d: i64) -> (q: i64)
    requires
        0 < d <= 100000,
        -100000 * d <= a <= 1_000_000_000,
    ensures
        q == a as int / d as int,
{
    let shifted = a + 100000 * d;
    proof {
        vstd::arithmetic::div_mod::lemma_hoist_over_denominator(a as int, 100000, d as nat);
        assert(0 <= shifted / d <= shifted) by {
            vstd::arithmetic::div_mod::lemma_div_pos_is_pos(shifted as int, d as int);
            vstd::arithmetic::div_mod::lemma_div_is_ordered_by_denominator(shifted as int, 1, d as int);
        }
    }
    shifted / d - 100000
}

impl Coordinate {
    /// Squared Euclidean distance, not aware of the wrap-around.
    pub fn distance2(&self, other: &Coordinate) -> (r: i64)
        requires
            bounded(*self),
            bounded(*other),
        ensures
            r == dist2(*self, *other),
    {
        let dx = self.x - other.x;
        let dy = self.y - other.y;
        proof {
            assert(dx * dx <= 4 * COORD_LIMIT * COORD_LIMIT) by (nonlinear_arith)
                requires -2 * COORD_LIMIT <= dx <= 2 * COORD_LIMIT;
            assert(dy * dy <= 4 * COORD_LIMIT * COORD_LIMIT) by (nonlinear_arith)
                requires -2 * COORD_LIMIT <= dy <= 2 * COORD_LIMIT;
            assert(0 <= dx * dx) by (nonlinear_arith);
            assert(0 <= dy * dy) by (nonlinear_arith);
        }
        dx * dx + dy * dy
    }

    /// Whether the point lies in the rectangle whose top-left corner is `(x0, y0)` and whose
    /// sides are `width` and `height`, the rectangle itself wrapping around the field's edges.
    pub fn is_in_rectangle(&self, x0: i64, y0: i64, width: i64, height: i64) -> (r: bool)
        requires
            bounded(*self),
            -COORD_LIMIT <= x0 <= COORD_LIMIT,
            -COORD_LIMIT <= y0 <= COORD_LIMIT,
        ensures
            r == in_rect(*self, x0 as int, y0 as int, width as int, height as int),
    {
        wrap_field(self.x - x0) <= width && wrap_field(self.y - y0) <= height
    }
}

} // verus!

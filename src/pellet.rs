use vstd::prelude::*;

use crate::coordinate::{floor_div, in_field, wrap, wrap_field, Coordinate};
use crate::palette::{in_palette, palette_hue, PALETTE_LEN};
use crate::random::random_below;

verus! {

/// Steps in one full orbit: the angle advances five degrees a frame.
pub const ORBIT_STEPS: u32 = 72;

/// Smallest orbit radius, in tenths of a field unit.
pub const MIN_RADIUS: i64 = 5;

/// Bound (exclusive) on the orbit radius, in tenths of a field unit.
pub const MAX_RADIUS: i64 = 50;

/// Size of a pellet dropped by a snake.
pub const FEED_SIZE: u8 = 3;

/// `round(1000 * cos(5 * r degrees))` for `0 <= r <= 18`.
pub open spec fn quarter_cos(r: int) -> int {
    if r == 0 { 1000 }
    else if r == 1 { 996 }
    else if r == 2 { 985 }
    else if r == 3 { 966 }
    else if r == 4 { 940 }
    else if r == 5 { 906 }
    else if r == 6 { 866 }
    else if r == 7 { 819 }
    else if r == 8 { 766 }
    else if r == 9 { 707 }
    else if r == 10 { 643 }
    else if r == 11 { 574 }
    else if r == 12 { 500 }
    else if r == 13 { 423 }
    else if r == 14 { 342 }
    else if r == 15 { 259 }
    else if r == 16 { 174 }
    else if r == 17 { 87 }
    else { 0 }
}

/// The cosine, in thousandths, of the angle `5 * k` degrees, for `0 <= k < ORBIT_STEPS`.
pub open spec fn cos_milli(k: int) -> int {
    let q = k / 18;
    let r = k % 18;
    if q == 0 {
        quarter_cos(r)
    } else if q == 1 {
        -quarter_cos(18 - r)
    } else if q == 2 {
        -quarter_cos(r)
    } else {
        quarter_cos(18 - r)
    }
}

/// The sine, in thousandths, of the angle `5 * k` degrees: the cosine a quarter turn back.
pub open spec fn sin_milli(k: int) -> int {
    cos_milli((k + 54) % 72)
}

/// Offset along one axis of a pellet whose orbit has radius `radius` (tenths) at a point whose
/// cosine or sine is `unit` (thousandths), rounded down to whole field units.
pub open spec fn orbit_offset(radius: int, unit: int) -> int {
    (radius * unit) / 10000
}

/// Where a pellet orbiting `center` at `radius` stands at step `k` of its orbit.
pub open spec fn orbit_position(center: Coordinate, radius: int, k: int) -> Coordinate {
    Coordinate {
        x: wrap(center.x + orbit_offset(radius, cos_milli(k))) as i64,
        y: wrap(center.y + orbit_offset(radius, sin_milli(k))) as i64,
    }
}

fn quarter_cos_milli(r: u32) -> (c: i64)
    requires
        r <= 18,
    ensures
        c == quarter_cos(r as int),
        0 <= c <= 1000,
{
    if r == 0 { 1000 }
    else if r == 1 { 996 }
    else if r == 2 { 985 }
    else if r == 3 { 966 }
    else if r == 4 { 940 }
    else if r == 5 { 906 }
    else if r == 6 { 866 }
    else if r == 7 { 819 }
    else if r == 8 { 766 }
    else if r == 9 { 707 }
    else if r == 10 { 643 }
    else if r == 11 { 574 }
    else if r == 12 { 500 }
    else if r == 13 { 423 }
    else if r == 14 { 342 }
    else if r == 15 { 259 }
    else if r == 16 { 174 }
    else if r == 17 { 87 }
    else { 0 }
}

fn cosine_milli(k: u32) -> (c: i64)
    requires
        k < ORBIT_STEPS,
    ensures
        c == cos_milli(k as int),
        -1000 <= c <= 1000,
{
    let q = k / 18;
    let r = k % 18;
    if q == 0 {
        quarter_cos_milli(r)
    } else if q == 1 {
        -quarter_cos_milli(18 - r)
    } else if q == 2 {
        -quarter_cos_milli(r)
    } else {
        quarter_cos_milli(18 - r)
    }
}

/// Food: it circles its center, or is drawn toward a snake head that comes near.
#[derive(Clone, Copy, Debug)]
pub struct Pellet {
    pub center: Coordinate,
    /// Orbit radius, in tenths of a field unit.
    pub radius: i64,
    pub position: Coordinate,
    pub size: u8,
    /// Hue in degrees.
    pub color: u16,
    pub frame_count_offset: u32,
    /// Whether a snake head drew this pellet in during the current frame; its orbit then
    /// pauses for that frame.
    pub pulled: bool,
}

impl Pellet {
    /// The state that every pellet the engine owns is kept in.
    pub open spec fn wf(&self) -> bool {
        &&& in_field(self.center)
        &&& in_field(self.position)
        &&& MIN_RADIUS <= self.radius < MAX_RADIUS
        &&& 1 <= self.size <= 3
        &&& in_palette(self.color)
    }

    /// A pellet at rest at `initial_position`, of random radius, size and hue.
    pub fn new(initial_position: Coordinate) -> (r: Pellet)
        requires
            in_field(initial_position),
        ensures
            r.wf(),
            r.center == initial_position,
            r.position == initial_position,
            r.frame_count_offset == 0,
            !r.pulled,
    {
        let radius = random_below((MAX_RADIUS - MIN_RADIUS) as u64) as i64 + MIN_RADIUS;
        let size = random_below(3) as u8 + 1;
        let color = palette_hue(random_below(PALETTE_LEN));
        Pellet {
            center: initial_position,
            radius,
            position: initial_position,
            size,
            color,
            frame_count_offset: 0,
            pulled: false,
        }
    }

    /// A pellet at rest at `initial_position` in the given hue and size, of random radius.
    pub fn new_with_color_and_size(initial_position: Coordinate, color: u16, size: u8) -> (r: Pellet)
        requires
            in_field(initial_position),
            in_palette(color),
            1 <= size <= 3,
        ensures
            r.wf(),
            r.center == initial_position,
            r.position == initial_position,
            r.color == color,
            r.size == size,
            r.frame_count_offset == 0,
            !r.pulled,
    {
        let radius = random_below((MAX_RADIUS - MIN_RADIUS) as u64) as i64 + MIN_RADIUS;
        Pellet {
            center: initial_position,
            radius,
            position: initial_position,
            size,
            color,
            frame_count_offset: 0,
            pulled: false,
        }
    }

    /// Puts the pellet where its orbit stands at its current age: the angle advances five
    /// degrees a frame and comes round every `ORBIT_STEPS` frames.
    pub fn update(&mut self)
        requires
            old(self).wf(),
        ensures
            final(self).wf(),
            final(self).position == orbit_position(
                old(self).center,
                old(self).radius as int,
                old(self).frame_count_offset as int % ORBIT_STEPS as int,
            ),
            final(self).center == old(self).center,
            final(self).radius == old(self).radius,
            final(self).size == old(self).size,
            final(self).color == old(self).color,
            final(self).frame_count_offset == old(self).frame_count_offset,
            final(self).pulled == old(self).pulled,
    {
        let k = self.frame_count_offset % ORBIT_STEPS;
        let c = cosine_milli(k);
        let s = cosine_milli((k + 54) % ORBIT_STEPS);
        proof {
            assert(-50000 <= self.radius * c <= 50000) by (nonlinear_arith)
                requires 5 <= self.radius < 50, -1000 <= c <= 1000;
            assert(-50000 <= self.radius * s <= 50000) by (nonlinear_arith)
                requires 5 <= self.radius < 50, -1000 <= s <= 1000;
        }
        let dx = floor_div(self.radius * c, 10000);
        let dy = floor_div(self.radius * s, 10000);
        proof {
            vstd::arithmetic::div_mod::lemma_div_is_ordered((self.radius * c) as int, 50000, 10000);
            vstd::arithmetic::div_mod::lemma_div_is_ordered(-50000, (self.radius * c) as int, 10000);
            vstd::arithmetic::div_mod::lemma_div_is_ordered((self.radius * s) as int, 50000, 10000);
            vstd::arithmetic::div_mod::lemma_div_is_ordered(-50000, (self.radius * s) as int, 10000);
        }
        self.position = Coordinate {
            x: wrap_field(self.center.x + dx),
            y: wrap_field(self.center.y + dy),
        };
    }
}

} // verus!

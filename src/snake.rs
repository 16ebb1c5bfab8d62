use vstd::prelude::*;

use crate::coordinate::{in_field, Coordinate};
use crate::palette::{in_palette, palette_hue, PALETTE_LEN};
use crate::random::random_below;

verus! {

/// Number of segments a newly spawned snake has.
pub const INITIAL_LENGTH: usize = 10;

/// Hit radius of a snake whatever its length.
pub const MIN_SIZE: usize = 15;

/// Largest hit radius a snake can reach.
pub const MAX_SIZE: usize = 40;

/// Segments of body that add one unit to the hit radius.
pub const SEGMENTS_PER_SIZE: usize = 50;

/// Length a snake needs before it may boost.
pub const MIN_BOOST_LENGTH: usize = 20;

/// Frames a boost lasts.
pub const BOOST_FRAMES: u32 = 60;

/// Length of a unit heading vector: headings are kept in thousandths of a field unit.
pub const VELOCITY_SCALE: i64 = 1000;

/// Largest speed, in field units per frame, that a snake may be given.
pub const MAX_SPEED: i64 = 1000;

/// The hit radius of a snake whose body has `len` segments.
pub open spec fn size_for_length(len: int) -> int {
    if 15 + len / 50 < 40 {
        15 + len / 50
    } else {
        40
    }
}

pub open spec fn unit_heading(v: Coordinate) -> bool {
    -VELOCITY_SCALE <= v.x <= VELOCITY_SCALE && -VELOCITY_SCALE <= v.y <= VELOCITY_SCALE
}

/// A player's trail: its body runs from the head (first) to the tail (last).
#[derive(Clone, Debug)]
pub struct Snake {
    pub bodies: Vec<Coordinate>,
    pub acceleration_time_left: u32,
    /// Field units travelled per frame at a heading of unit length.
    pub speed: i64,
    /// Hue in degrees.
    pub color: u16,
    /// Heading, in thousandths of a field unit.
    pub velocity: Coordinate,
    pub size: usize,
    pub frame_count_offset: u32,
    /// Whether the head lies in the viewport a view was cut for.
    pub is_visible_head: bool,
}

impl Snake {
    /// The state that every snake the engine owns is kept in.
    pub open spec fn wf(&self) -> bool {
        &&& self.bodies@.len() >= 1
        &&& forall|i: int| 0 <= i < self.bodies@.len() ==> in_field(#[trigger] self.bodies@[i])
        &&& 0 <= self.speed <= MAX_SPEED
        &&& unit_heading(self.velocity)
        &&& self.size == size_for_length(self.bodies@.len() as int)
        &&& in_palette(self.color)
    }

    pub open spec fn is_boosting(&self) -> bool {
        self.acceleration_time_left > 0
    }

    pub open spec fn head(&self) -> Coordinate {
        self.bodies@[0]
    }

    /// A snake of `INITIAL_LENGTH` segments all at `initial_position`, heading along +x,
    /// in a random hue of the palette.
    pub fn new(initial_position: Coordinate, initial_speed: i64) -> (r: Snake)
        requires
            in_field(initial_position),
            0 <= initial_speed <= MAX_SPEED,
        ensures
            r.wf(),
            r.bodies@ == Seq::new(INITIAL_LENGTH as nat, |i: int| initial_position),
            r.acceleration_time_left == 0,
            r.speed == initial_speed,
            r.velocity == (Coordinate { x: VELOCITY_SCALE, y: 0 }),
            r.size == MIN_SIZE,
            r.frame_count_offset == 0,
            r.is_visible_head,
    {
        let mut bodies: Vec<Coordinate> = Vec::new();
        let mut i: usize = 0;
        while i < INITIAL_LENGTH
            invariant
                i <= INITIAL_LENGTH,
                bodies@ == Seq::new(i as nat, |k: int| initial_position),
            decreases INITIAL_LENGTH - i,
        {
            bodies.push(initial_position);
            i = i + 1;
            assert(bodies@ =~= Seq::new(i as nat, |k: int| initial_position));
        }
        let color = palette_hue(random_below(PALETTE_LEN));
        Snake {
            bodies,
            acceleration_time_left: 0,
            speed: initial_speed,
            color,
            velocity: Coordinate { x: VELOCITY_SCALE, y: 0 },
            size: MIN_SIZE,
            frame_count_offset: 0,
            is_visible_head: true,
        }
    }

    pub fn get_head(&self) -> (r: &Coordinate)
        requires
            self.bodies@.len() >= 1,
        ensures
            *r == self.bodies@[0],
    {
        &self.bodies[0]
    }

    pub fn get_tail(&self) -> (r: &Coordinate)
        requires
            self.bodies@.len() >= 1,
        ensures
            *r == self.bodies@.last(),
    {
        &self.bodies[self.bodies.len() - 1]
    }

    /// Opens a boost window of `BOOST_FRAMES` frames, for a snake of at least
    /// `MIN_BOOST_LENGTH` segments; a shorter snake is left as it is.
    pub fn accelerate(&mut self)
        ensures
            final(self).acceleration_time_left == if old(self).bodies@.len() >= MIN_BOOST_LENGTH {
                BOOST_FRAMES
            } else {
                old(self).acceleration_time_left
            },
            final(self).bodies == old(self).bodies,
            final(self).speed == old(self).speed,
            final(self).color == old(self).color,
            final(self).velocity == old(self).velocity,
            final(self).size == old(self).size,
            final(self).frame_count_offset == old(self).frame_count_offset,
            final(self).is_visible_head == old(self).is_visible_head,
    {
        if self.bodies.len() < MIN_BOOST_LENGTH {
            return;
        }
        self.acceleration_time_left = BOOST_FRAMES;
    }
}

} // verus!

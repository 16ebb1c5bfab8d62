use vstd::prelude::*;

use crate::coordinate::Coordinate;
use crate::map::OccupancyMap;
use crate::pellet::Pellet;
use crate::snake::Snake;

verus! {

/// What one player is sent for one frame: the snakes and pellets of its viewport, in
/// viewport coordinates, the background dots there, and the field-wide occupancy map.
pub struct View {
    pub is_alive: bool,
    pub snakes: Vec<Snake>,
    pub pellets: Vec<Pellet>,
    pub background_dots: Vec<Coordinate>,
    pub map: OccupancyMap,
}

} // verus!

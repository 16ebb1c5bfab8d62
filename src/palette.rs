use vstd::prelude::*;

verus! {

/// Number of hues in the palette that snakes and pellets are drawn in.
pub const PALETTE_LEN: u64 = 7;

/// The hue, in degrees, of palette entry `i`: red, green, blue, yellow, orange, purple, pink.
pub open spec fn palette(i: int) -> u16 {
    if i == 0 {
        8
    } else if i == 1 {
        120
    } else if i == 2 {
        240
    } else if i == 3 {
        60
    } else if i == 4 {
        30
    } else if i == 5 {
        300
    } else {
        330
    }
}

pub open spec fn in_palette(hue: u16) -> bool {
    hue == 8 || hue == 120 || hue == 240 || hue == 60 || hue == 30 || hue == 300 || hue == 330
}

/// The hue of palette entry `i`.
pub fn palette_hue(i: u64) -> (r: u16)
    requires
        i < PALETTE_LEN,
    ensures
        r == palette(i as int),
        in_palette(r),
{
    if i == 0 {
        8
    } else if i == 1 {
        120
    } else if i == 2 {
        240
    } else if i == 3 {
        60
    } else if i == 4 {
        30
    } else if i == 5 {
        300
    } else {
        330
    }
}

} // verus!

use vstd::prelude::*;

verus! {

/// The Nord colour palette, each colour written as `0xRRGGBB`.
pub struct Nord;

/// The sixteen Nord colours in their canonical order.
pub open spec fn nord_palette(i: int) -> u32 {
    if i == 0 { 0x2e3440 }
    else if i == 1 { 0x3b4252 }
    else if i == 2 { 0x434c5e }
    else if i == 3 { 0x4c566a }
    else if i == 4 { 0xd8dee9 }
    else if i == 5 { 0xe5e9f0 }
    else if i == 6 { 0xeceff4 }
    else if i == 7 { 0xeceff4 }
    else if i == 8 { 0x88c0d0 }
    else if i == 9 { 0x88c0d0 }
    else if i == 10 { 0x5e81ac }
    else if i == 11 { 0xbf616a }
    else if i == 12 { 0xd08770 }
    else if i == 13 { 0xebcb8b }
    else if i == 14 { 0xa3be8c }
    else { 0xb48ead }
}

impl Nord {
    pub const RED: u32 = 0xbf616a;
    pub const ORANGE: u32 = 0xd08770;
    pub const YELLOW: u32 = 0xebcb8b;
    pub const GREEN: u32 = 0xa3be8c;
    pub const PURPLE: u32 = 0xb48ead;

    /// Colour `i` of the sixteen-colour palette.
    pub fn palette(i: usize) -> (r: u32)
        requires
            i < 16,
        ensures
            r == nord_palette(i as int),
    {
        if i == 0 { 0x2e3440 }
        else if i == 1 { 0x3b4252 }
        else if i == 2 { 0x434c5e }
        else if i == 3 { 0x4c566a }
        else if i == 4 { 0xd8dee9 }
        else if i == 5 { 0xe5e9f0 }
        else if i == 6 { 0xeceff4 }
        else if i == 7 { 0xeceff4 }
        else if i == 8 { 0x88c0d0 }
        else if i == 9 { 0x88c0d0 }
        else if i == 10 { 0x5e81ac }
        else if i == 11 { 0xbf616a }
        else if i == 12 { 0xd08770 }
        else if i == 13 { 0xebcb8b }
        else if i == 14 { 0xa3be8c }
        else { 0xb48ead }
    }

    /// The dark background shades, darkest first.
    pub fn night(i: usize) -> (r: u32)
        requires
            i < 4,
        ensures
            r == nord_palette(i as int),
    {
        Self::palette(i)
    }

    /// The light foreground shades.
    pub fn snow(i: usize) -> (r: u32)
        requires
            i < 3,
        ensures
            r == nord_palette(i + 4),
    {
        Self::palette(i + 4)
    }

    /// The bluish accent shades.
    pub fn frost(i: usize) -> (r: u32)
        requires
            i < 4,
        ensures
            r == nord_palette(i + 7),
    {
        Self::palette(i + 7)
    }

    /// The red, orange, yellow, green and purple accents, in that order.
    pub fn aurora(i: usize) -> (r: u32)
        requires
            i < 5,
        ensures
            r == nord_palette(i + 11),
    {
        Self::palette(i + 11)
    }

    /// The red, green and blue bytes of a colour written as `0xRRGGBB`.
    pub fn channels(hex: u32) -> (r: (u8, u8, u8))
        ensures
            r.0 as int == (hex as int / 0x10000) % 0x100,
            r.1 as int == (hex as int / 0x100) % 0x100,
            r.2 as int == hex as int % 0x100,
    {
        let red = (hex >> 16) & 0xff;
        let green = (hex >> 8) & 0xff;
        let blue = hex & 0xff;
        assert((hex >> 16) & 0xff == (hex / 0x10000) % 0x100) by (bit_vector);
        assert((hex >> 8) & 0xff == (hex / 0x100) % 0x100) by (bit_vector);
        assert(hex & 0xff == hex % 0x100) by (bit_vector);
        (red as u8, green as u8, blue as u8)
    }
}

} // verus!

use vstd::prelude::*;

verus! {

/// A color as a triple of 8-bit channel values, compared by value.
#[derive(Debug, Copy, Clone, PartialEq, Eq, Structural)]
pub struct Rgb {
    pub r: u8,
    pub g: u8,
    pub b: u8,
}

impl Rgb {
    pub fn new(r: u8, g: u8, b: u8) -> (c: Rgb)
        ensures
            c == (Rgb { r, g, b }),
    {
        Rgb { r, g, b }
    }
}

/// One selectable color scheme: the two background-gradient endpoints and
/// the foreground color used for the annotation text.
#[derive(Debug, Copy, Clone, PartialEq, Eq, Structural)]
pub struct PaletteEntry {
    pub back_start: Rgb,
    pub back_end: Rgb,
    pub fore: Rgb,
}

/// Number of entries in the built-in palette table.
pub const PALETTE_LEN: usize = 7;

/// The built-in palette table: background gradients run from a saturated
/// start color toward the same near-white end color, with a dark foreground.
pub open spec fn spec_palette(i: int) -> PaletteEntry {
    let back_end = Rgb { r: 0xc5, g: 0xc8, b: 0xc6 };
    let fore = Rgb { r: 0x3c, g: 0x3e, b: 0x3f };
    if i == 1 {
        PaletteEntry { back_start: Rgb { r: 0xc3, g: 0x97, b: 0xd8 }, back_end, fore }
    } else if i == 2 {
        PaletteEntry { back_start: Rgb { r: 0x7a, g: 0xa6, b: 0xda }, back_end, fore }
    } else if i == 3 {
        PaletteEntry { back_start: Rgb { r: 0xe7, g: 0xc5, b: 0x47 }, back_end, fore }
    } else if i == 4 {
        PaletteEntry { back_start: Rgb { r: 0xb9, g: 0xca, b: 0x4a }, back_end, fore }
    } else if i == 5 {
        PaletteEntry { back_start: Rgb { r: 0xd5, g: 0x4e, b: 0x53 }, back_end, fore }
    } else if i == 6 {
        PaletteEntry { back_start: Rgb { r: 0x8a, g: 0xbe, b: 0x87 }, back_end, fore }
    } else {
        PaletteEntry { back_start: Rgb { r: 0x70, g: 0xc0, b: 0xb1 }, back_end, fore }
    }
}

/// Looks up a palette entry by index; an out-of-range index wraps to entry 0.
pub fn palette(idx: usize) -> (e: PaletteEntry)
    ensures
        e == spec_palette(if idx < PALETTE_LEN { idx as int } else { 0 }),
{
    let sel: usize = if idx < PALETTE_LEN {
        idx
    } else {
        0
    };
    let back_end = Rgb { r: 0xc5, g: 0xc8, b: 0xc6 };
    let fore = Rgb { r: 0x3c, g: 0x3e, b: 0x3f };
    if sel == 1 {
        PaletteEntry { back_start: Rgb { r: 0xc3, g: 0x97, b: 0xd8 }, back_end, fore }
    } else if sel == 2 {
        PaletteEntry { back_start: Rgb { r: 0x7a, g: 0xa6, b: 0xda }, back_end, fore }
    } else if sel == 3 {
        PaletteEntry { back_start: Rgb { r: 0xe7, g: 0xc5, b: 0x47 }, back_end, fore }
    } else if sel == 4 {
        PaletteEntry { back_start: Rgb { r: 0xb9, g: 0xca, b: 0x4a }, back_end, fore }
    } else if sel == 5 {
        PaletteEntry { back_start: Rgb { r: 0xd5, g: 0x4e, b: 0x53 }, back_end, fore }
    } else if sel == 6 {
        PaletteEntry { back_start: Rgb { r: 0x8a, g: 0xbe, b: 0x87 }, back_end, fore }
    } else {
        PaletteEntry { back_start: Rgb { r: 0x70, g: 0xc0, b: 0xb1 }, back_end, fore }
    }
}

} // verus!

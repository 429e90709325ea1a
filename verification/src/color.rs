//! Packed 24-bit RGB pixels.

use vstd::prelude::*;

verus! {

/// The pixel whose red, green and blue channels are `r`, `g` and `b`:
/// red in bits 16 to 23, green in bits 8 to 15, blue in bits 0 to 7.
pub open spec fn packed(r: u8, g: u8, b: u8) -> u32 {
    ((r as u32) << 16) | ((g as u32) << 8) | (b as u32)
}

/// Packs three quantised channels into one pixel.
pub fn pack_rgb(r: u8, g: u8, b: u8) -> (pixel: u32)
    ensures
        pixel == packed(r, g, b),
        pixel == r as int * 65536 + g as int * 256 + b as int,
{
    let pixel: u32 = ((r as u32) << 16) | ((g as u32) << 8) | (b as u32);
    proof {
        lemma_packed_is_positional(r, g, b);
    }
    pixel
}

/// The grey pixel of one quantised level: all three channels equal.
pub fn pack_gray(level: u8) -> (pixel: u32)
    ensures
        pixel == packed(level, level, level),
        pixel == level as int * 65793,
{
    pack_rgb(level, level, level)
}

/// Packing is positional notation in base 256: the channels do not overlap,
/// so the bitwise form and the arithmetic form agree and each channel can be
/// read back from the pixel.
pub proof fn lemma_packed_is_positional(r: u8, g: u8, b: u8)
    ensures
        packed(r, g, b) == r as int * 65536 + g as int * 256 + b as int,
        packed(r, g, b) < 0x100_0000,
        (packed(r, g, b) >> 16) == r,
        ((packed(r, g, b) >> 8) & 0xff) == g,
        (packed(r, g, b) & 0xff) == b,
{
    let p: u32 = ((r as u32) << 16) | ((g as u32) << 8) | (b as u32);
    assert(p == (r as u32) * 65536 + (g as u32) * 256 + (b as u32)) by (bit_vector)
        requires
            p == ((r as u32) << 16) | ((g as u32) << 8) | (b as u32),
    ;
    assert(p < 0x100_0000u32 && (p >> 16) == r as u32 && ((p >> 8) & 0xff) == g as u32 && (p
        & 0xff) == b as u32) by (bit_vector)
        requires
            p == ((r as u32) << 16) | ((g as u32) << 8) | (b as u32),
    ;
}

} // verus!

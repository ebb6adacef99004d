//! Packed 32-bit colours, laid out as `0xAARRGGBB`.

use vstd::prelude::*;

verus! {

/// The opaque colour with the given channels, as a number: alpha `0xFF`,
/// then red, green and blue, eight bits each.
pub open spec fn packed(r: u8, g: u8, b: u8) -> int {
    0xFF00_0000 + r * 0x1_0000 + g * 0x100 + b
}

/// The red, green and blue channel of a packed colour.
pub open spec fn channels(pixel: u32) -> (u8, u8, u8) {
    (
        ((pixel / 0x1_0000) % 0x100) as u8,
        ((pixel / 0x100) % 0x100) as u8,
        (pixel % 0x100) as u8,
    )
}

/// Packs three channels into an opaque pixel.
pub fn pack_rgb(r: u8, g: u8, b: u8) -> (pixel: u32)
    ensures
        pixel == packed(r, g, b),
{
    let pixel: u32 = 0xFF00_0000u32 | ((r as u32) << 16) | ((g as u32) << 8) | (b as u32);
    assert(pixel == 0xFF00_0000 + r * 0x1_0000 + g * 0x100 + b) by (bit_vector)
        requires
            pixel == 0xFF00_0000u32 | ((r as u32) << 16) | ((g as u32) << 8) | (b as u32),
    ;
    pixel
}

/// Takes the red, green and blue channel out of a packed colour. The alpha
/// channel is left behind.
pub fn unpack_rgb(pixel: u32) -> (rgb: (u8, u8, u8))
    ensures
        rgb == channels(pixel),
{
    let r: u32 = (pixel >> 16) & 0xFF;
    let g: u32 = (pixel >> 8) & 0xFF;
    let b: u32 = pixel & 0xFF;
    assert(r == (pixel / 0x1_0000) % 0x100 && g == (pixel / 0x100) % 0x100 && b == pixel % 0x100)
        by (bit_vector)
        requires
            r == (pixel >> 16) & 0xFF,
            g == (pixel >> 8) & 0xFF,
            b == pixel & 0xFF,
    ;
    (r as u8, g as u8, b as u8)
}

/// Packing three channels and unpacking the pixel gives the channels back.
pub proof fn lemma_unpack_packed(r: u8, g: u8, b: u8)
    ensures
        channels(packed(r, g, b) as u32) == (r, g, b),
{
}

/// Unpacking a pixel and packing its channels gives the pixel back, made
/// opaque.
pub proof fn lemma_pack_unpacked(pixel: u32)
    ensures
        packed(channels(pixel).0, channels(pixel).1, channels(pixel).2) == 0xFF00_0000 + pixel
            % 0x100_0000,
{
}

} // verus!

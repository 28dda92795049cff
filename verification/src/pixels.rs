//! A lower-fidelity color representation: RGB packed into 16 bits as
//! 5 red | 6 green | 5 blue. Each channel is reconstructed by replicating its
//! high bits into the positions the packing dropped, so the error stays small
//! and bounded. This variant trades memory for bounded color error and is not
//! used by the exact-palette canvas.

use vstd::prelude::*;

verus! {

/// The 16-bit word that holds red, green and blue as 5, 6 and 5 bits.
pub open spec fn pack_rgb565(r: u8, g: u8, b: u8) -> u16 {
    (((r >> 3) as u16) << 11) | (((g >> 2) as u16) << 5) | ((b >> 3) as u16)
}

/// Red reconstructed from a packed word: the 5 stored bits, with their top
/// bits replicated into the low positions.
pub open spec fn unpack_r(v: u16) -> u8 {
    ((((v >> 11) as u8) << 3) | (((v >> 11) as u8) >> 2)) as u8
}

/// Green reconstructed from a packed word.
pub open spec fn unpack_g(v: u16) -> u8 {
    (((((v >> 5) & 0x3f) as u8) << 2) | ((((v >> 5) & 0x3f) as u8) >> 4)) as u8
}

/// Blue reconstructed from a packed word.
pub open spec fn unpack_b(v: u16) -> u8 {
    ((((v & 0x1f) as u8) << 3) | (((v & 0x1f) as u8) >> 2)) as u8
}

/// A color stored as one packed 16-bit value.
#[derive(Debug, PartialEq, Eq, Structural, Copy, Clone)]
pub struct Color {
    // 5 red | 6 green | 5 blue
    pub value: u16,
}

impl Color {
    pub fn new(r: u8, g: u8, b: u8) -> (c: Color)
        ensures
            c.value == pack_rgb565(r, g, b),
    {
        Color { value: (((r >> 3) as u16) << 11) | (((g >> 2) as u16) << 5) | ((b >> 3) as u16) }
    }

    pub fn r(&self) -> (out: u8)
        ensures
            out == unpack_r(self.value),
    {
        let n: u8 = (self.value >> 11) as u8;
        (n << 3) | (n >> 2)
    }

    pub fn g(&self) -> (out: u8)
        ensures
            out == unpack_g(self.value),
    {
        let n: u8 = ((self.value >> 5) & 0x3f) as u8;
        (n << 2) | (n >> 4)
    }

    pub fn b(&self) -> (out: u8)
        ensures
            out == unpack_b(self.value),
    {
        let n: u8 = (self.value & 0x1f) as u8;
        (n << 3) | (n >> 2)
    }
}

/// Packing then unpacking a channel moves it by at most 7 levels on the 5-bit
/// channels and at most 3 on the 6-bit channel.
pub proof fn lemma_pack_error_bounded(r: u8, g: u8, b: u8)
    ensures
        unpack_r(pack_rgb565(r, g, b)) <= r + 7 && r <= unpack_r(pack_rgb565(r, g, b)) + 7,
        unpack_g(pack_rgb565(r, g, b)) <= g + 3 && g <= unpack_g(pack_rgb565(r, g, b)) + 3,
        unpack_b(pack_rgb565(r, g, b)) <= b + 7 && b <= unpack_b(pack_rgb565(r, g, b)) + 7,
{
    assert(unpack_r(pack_rgb565(r, g, b)) <= r + 7 && r <= unpack_r(pack_rgb565(r, g, b))
        + 7) by (bit_vector);
    assert(unpack_g(pack_rgb565(r, g, b)) <= g + 3 && g <= unpack_g(pack_rgb565(r, g, b))
        + 3) by (bit_vector);
    assert(unpack_b(pack_rgb565(r, g, b)) <= b + 7 && b <= unpack_b(pack_rgb565(r, g, b))
        + 7) by (bit_vector);
}

/// One cell of a packed-color screen: the index of its color.
#[derive(Clone, Copy, Debug, PartialEq, Eq, Structural)]
pub struct Pixel {
    pub value: u8,
}

impl Pixel {
    pub fn new(color_index: u8) -> (p: Pixel)
        ensures
            p.value == color_index,
    {
        Pixel { value: color_index }
    }
}

} // verus!

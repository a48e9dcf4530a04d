//! Palette colours: three 8-bit channels expanded from a packed 5-5-5 value.
use vstd::prelude::*;

verus! {

/// One palette entry.
#[derive(Clone, Copy, Debug, PartialEq, Eq, Structural)]
pub struct Colour {
    pub r: u8,
    pub g: u8,
    pub b: u8,
}

/// The colour that a packed value stands for: bits 14-10 are red, 9-5 green
/// and 4-0 blue; each 5-bit field lands in the top five bits of its byte.
pub open spec fn colour_of(packed: u16) -> Colour {
    Colour {
        r: (((packed & 0x7c00u16) >> 7u16) & 0xffu16) as u8,
        g: (((packed & 0x03e0u16) >> 2u16) & 0xffu16) as u8,
        b: (((packed & 0x001fu16) << 3u16) & 0xffu16) as u8,
    }
}

/// The packed value whose fields are the top five bits of each channel.
pub open spec fn packed_of(c: Colour) -> u16 {
    (((c.r as u16) >> 3u16) << 10u16) | (((c.g as u16) >> 3u16) << 5u16) | ((c.b as u16) >> 3u16)
}

impl Colour {
    /// Expands a packed palette value.
    pub fn from_packed(packed: u16) -> (r: Colour)
        ensures
            r == colour_of(packed),
    {
        Colour {
            r: (((packed & 0x7c00) >> 7) & 0xff) as u8,
            g: (((packed & 0x03e0) >> 2) & 0xff) as u8,
            b: (((packed & 0x001f) << 3) & 0xff) as u8,
        }
    }
}

/// Channel expansion is idempotent: packing an expanded colour again and
/// expanding that gives the same colour, and the value packed back differs
/// from the original one at most in the unused top bit.
pub proof fn lemma_colour_expansion_idempotent(packed: u16)
    ensures
        colour_of(packed_of(colour_of(packed))) == colour_of(packed),
        packed_of(colour_of(packed)) == packed & 0x7fffu16,
{
    assert(packed_of(colour_of(packed)) == packed & 0x7fffu16) by (bit_vector);
    let q = packed & 0x7fffu16;
    assert(colour_of(q).r == colour_of(packed).r && colour_of(q).g == colour_of(packed).g
        && colour_of(q).b == colour_of(packed).b) by (bit_vector)
        requires
            q == packed & 0x7fffu16,
    ;
}

/// Expansion is a function of the packed value alone: equal packed values
/// give equal colours.
pub proof fn lemma_colour_expansion_deterministic(a: u16, b: u16)
    requires
        a == b,
    ensures
        colour_of(a) == colour_of(b),
{
}

} // verus!

//! Tiles: raw palette-index bytes turned into RGBA pixels.
use crate::palette::Colour;
use vstd::prelude::*;

verus! {

/// The RGBA pixels of one tile, four bytes per pixel, row by row.
pub struct Tile {
    pub pixels: Vec<u8>,
}

/// A raw tile byte that names no entry of the palette.
#[derive(Clone, Copy, Debug, PartialEq, Eq, Structural)]
pub struct BadPaletteIndex {
    pub index: u8,
}

/// Whether a raw tile byte can be drawn with a palette of `n_pal` entries:
/// index 0 is the transparent sentinel, any other must name an entry.
pub open spec fn index_ok(idx: u8, n_pal: int) -> bool {
    idx == 0 || (idx as int) < n_pal
}

/// The four RGBA bytes of one raw tile byte: index 0 is fully transparent
/// black, any other index is its palette colour, fully opaque.
pub open spec fn pixel_of(idx: u8, palette: Seq<Colour>) -> Seq<u8> {
    if idx == 0 {
        seq![0u8, 0u8, 0u8, 0u8]
    } else {
        let c = palette[idx as int];
        seq![c.r, c.g, c.b, 255u8]
    }
}

/// The RGBA bytes of a tile: the pixels of its raw bytes, in order.
pub open spec fn tile_pixels(raw: Seq<u8>, palette: Seq<Colour>) -> Seq<u8>
    decreases raw.len(),
{
    if raw.len() == 0 {
        Seq::empty()
    } else {
        tile_pixels(raw.drop_last(), palette) + pixel_of(raw.last(), palette)
    }
}

/// The first raw byte, in order, that names no palette entry, if any.
pub open spec fn first_bad_index(raw: Seq<u8>, n_pal: int) -> Option<u8>
    decreases raw.len(),
{
    if raw.len() == 0 {
        None
    } else {
        match first_bad_index(raw.drop_last(), n_pal) {
            Some(i) => Some(i),
            None => if index_ok(raw.last(), n_pal) {
                None
            } else {
                Some(raw.last())
            },
        }
    }
}

/// Converts raw palette-index bytes to RGBA pixels. Fails on the first byte
/// that is neither 0 nor the index of a palette entry.
pub fn create_tile_from_raw(data: &Vec<u8>, palette: &Vec<Colour>) -> (r: Result<
    Tile,
    BadPaletteIndex,
>)
    ensures
        match r {
            Ok(t) => first_bad_index(data@, palette@.len() as int) is None && t.pixels@
                == tile_pixels(data@, palette@),
            Err(e) => first_bad_index(data@, palette@.len() as int) == Some(e.index),
        },
{
    let mut pixels: Vec<u8> = Vec::new();
    let mut i: usize = 0;
    while i < data.len()
        invariant
            i <= data@.len(),
            first_bad_index(data@.take(i as int), palette@.len() as int) is None,
            pixels@ == tile_pixels(data@.take(i as int), palette@),
        decreases data@.len() - i,
    {
        let idx = data[i];
        assert(data@.take(i as int + 1).drop_last() == data@.take(i as int));
        if idx != 0 && idx as usize >= palette.len() {
            proof {
                lemma_first_bad_index_prefix(data@, palette@.len() as int, i as int + 1);
            }
            return Err(BadPaletteIndex { index: idx });
        }
        if idx == 0 {
            pixels.push(0);
            pixels.push(0);
            pixels.push(0);
            pixels.push(0);
        } else {
            let c = palette[idx as usize];
            pixels.push(c.r);
            pixels.push(c.g);
            pixels.push(c.b);
            pixels.push(0xff);
        }
        i = i + 1;
    }
    assert(data@.take(i as int) == data@);
    Ok(Tile { pixels })
}

/// A bad index found in a prefix is the first bad index of the whole.
proof fn lemma_first_bad_index_prefix(raw: Seq<u8>, n_pal: int, k: int)
    requires
        0 <= k <= raw.len(),
        first_bad_index(raw.take(k), n_pal) is Some,
    ensures
        first_bad_index(raw, n_pal) == first_bad_index(raw.take(k), n_pal),
    decreases raw.len(),
{
    if k < raw.len() {
        assert(raw.drop_last().take(k) == raw.take(k));
        lemma_first_bad_index_prefix(raw.drop_last(), n_pal, k);
    } else {
        assert(raw.take(k) == raw);
    }
}

/// A tile has four bytes for each raw byte.
pub proof fn lemma_tile_pixels_len(raw: Seq<u8>, palette: Seq<Colour>)
    ensures
        tile_pixels(raw, palette).len() == 4 * raw.len(),
    decreases raw.len(),
{
    if raw.len() > 0 {
        lemma_tile_pixels_len(raw.drop_last(), palette);
    }
}

/// The pixel at position `i` of a tile is the pixel of its `i`-th raw byte.
pub proof fn lemma_tile_pixel_at(raw: Seq<u8>, palette: Seq<Colour>, i: int)
    requires
        0 <= i < raw.len(),
    ensures
        tile_pixels(raw, palette).subrange(4 * i, 4 * i + 4) == pixel_of(raw[i], palette),
    decreases raw.len(),
{
    lemma_tile_pixels_len(raw.drop_last(), palette);
    let front = tile_pixels(raw.drop_last(), palette);
    if i == raw.len() - 1 {
        assert(tile_pixels(raw, palette).subrange(4 * i, 4 * i + 4) =~= pixel_of(raw[i], palette));
    } else {
        lemma_tile_pixel_at(raw.drop_last(), palette, i);
        assert(tile_pixels(raw, palette).subrange(4 * i, 4 * i + 4) =~= front.subrange(
            4 * i,
            4 * i + 4,
        ));
    }
}

/// Transparency: a raw byte of 0 always becomes the pixel (0, 0, 0, 0),
/// whatever colour the palette holds at index 0.
pub proof fn lemma_zero_index_transparent(raw: Seq<u8>, palette: Seq<Colour>, i: int)
    requires
        0 <= i < raw.len(),
        raw[i] == 0,
    ensures
        tile_pixels(raw, palette).subrange(4 * i, 4 * i + 4) == seq![0u8, 0u8, 0u8, 0u8],
{
    lemma_tile_pixel_at(raw, palette, i);
}

} // verus!

//! The map format: header, palette, layers and their tile grids.
use crate::bytes::{read_u16_le, read_u32_le, u16_le, u32_le};
use crate::palette::{colour_of, Colour};
use crate::tile::{create_tile_from_raw, first_bad_index, tile_pixels, Tile};
use std::collections::HashMap;
use vstd::prelude::*;

verus! {

broadcast use vstd::std_specs::hash::group_hash_axioms;

/// Bytes that precede the map header in the buffer the decoder reads; every
/// offset stored in the map is counted from the header, past these bytes.
pub const DATA_HEADER_SIZE: u32 = 8;

/// The tag at the start of every layer ("LRCS" read as a little-endian word).
pub const LAYER_MAGIC: u32 = 0x5343524c;

/// The tag at the start of a self-contained map file.
pub const FILE_MAGIC: u32 = 0xdeadc0de;

/// The kind of the archive entry that holds map data ("MAPD").
pub const MAPD_KIND: u32 = 0x4450414d;

/// One raster plane of a map.
pub struct MapLayer {
    pub map_width: u32,
    pub map_height: u32,
    pub tile_width: u32,
    pub tile_height: u32,
    /// Row-major grid of tile keys; 0 is an empty cell.
    pub tile_map: Vec<u32>,
    /// The decoded tile of each non-zero key of the grid.
    pub tiles: HashMap<u32, Tile>,
}

/// A decoded map: its layers, bottom first.
pub struct LevelMap {
    pub layers: Vec<MapLayer>,
}

/// Why a buffer could not be decoded.
#[derive(Clone, Copy, Debug, PartialEq, Eq, Structural)]
pub enum MapError {
    /// `needed` bytes at `offset` run past the end of the data.
    Truncated { offset: u64, needed: u128 },
    /// A stored offset lands before the start of the data.
    OffsetBeforeData { value: u32 },
    /// A layer does not start with the layer tag.
    BadMagic { layer: u32, found: u32, offset: u64 },
    /// A layer whose grid has no cells.
    EmptyLayer { layer: u32 },
    /// A byte of the tile with key `key` names no palette entry.
    PaletteIndex { key: u32, index: u8 },
    /// The data does not start with the self-contained file tag.
    NotSelfContained { found: u32 },
}

/// The most bytes a buffer can hold: Rust allocates at most `isize::MAX`.
pub const MAX_DATA_LEN: u64 = 0x7fff_ffff_ffff_ffff;

/// A tile code with its two low flag bits cleared.
pub open spec fn key_of(code: u32) -> u32 {
    (code - code % 4) as u32
}

/// Where a stored offset lands in the buffer.
pub open spec fn position_of(offset: u32, base: u32) -> int {
    offset + DATA_HEADER_SIZE - base
}

/// The error for `needed` bytes at `offset` that the data does not hold.
pub open spec fn truncated(offset: int, needed: int) -> MapError {
    MapError::Truncated { offset: offset as u64, needed: needed as u128 }
}

// ---- header -------------------------------------------------------------

/// The number of layers the header declares.
pub open spec fn layer_count(d: Seq<u8>) -> u32 {
    u32_le(d, 12)
}

/// The stored offset of layer `i`.
pub open spec fn layer_offset(d: Seq<u8>, i: int) -> u32 {
    u32_le(d, 16 + 4 * i)
}

/// Where the palette size is stored.
pub open spec fn palette_pos(d: Seq<u8>) -> int {
    16 + 4 * layer_count(d)
}

/// The number of palette entries the header declares.
pub open spec fn palette_len(d: Seq<u8>) -> u32 {
    u32_le(d, palette_pos(d))
}

/// The palette, entry `j` expanded from the packed value stored for it.
pub open spec fn palette_of(d: Seq<u8>) -> Seq<Colour> {
    Seq::new(palette_len(d) as nat, |j: int| colour_of(u16_le(d, palette_pos(d) + 4 + 2 * j)))
}

/// The error the header gives, if any: the first of its parts that runs
/// past the end of the data.
pub open spec fn header_error(d: Seq<u8>) -> Option<MapError> {
    if d.len() < 16 {
        Some(truncated(8, 8))
    } else if d.len() < palette_pos(d) {
        Some(truncated(16, 4 * layer_count(d)))
    } else if d.len() < palette_pos(d) + 4 {
        Some(truncated(palette_pos(d), 4))
    } else if d.len() < palette_pos(d) + 4 + 2 * palette_len(d) {
        Some(truncated(palette_pos(d) + 4, 2 * palette_len(d)))
    } else {
        None
    }
}

// ---- tiles --------------------------------------------------------------

/// The raw bytes of the tile with key `key`.
pub open spec fn tile_raw(d: Seq<u8>, base: u32, key: u32, tw: u32, th: u32) -> Seq<u8> {
    d.subrange(position_of(key, base), position_of(key, base) + tw * th)
}

/// The error that decoding the tile with key `key` gives, if any.
pub open spec fn tile_error(
    d: Seq<u8>,
    base: u32,
    palette: Seq<Colour>,
    key: u32,
    tw: u32,
    th: u32,
) -> Option<MapError> {
    let p = position_of(key, base);
    if p < 0 {
        Some(MapError::OffsetBeforeData { value: key })
    } else if p + tw * th > d.len() {
        Some(truncated(p, tw * th))
    } else {
        match first_bad_index(tile_raw(d, base, key, tw, th), palette.len() as int) {
            Some(index) => Some(MapError::PaletteIndex { key, index }),
            None => None,
        }
    }
}

/// The first error, in grid order, of the tiles that the keys refer to.
pub open spec fn scan_error(
    d: Seq<u8>,
    base: u32,
    palette: Seq<Colour>,
    tw: u32,
    th: u32,
    keys: Seq<u32>,
) -> Option<MapError>
    decreases keys.len(),
{
    if keys.len() == 0 {
        None
    } else {
        match scan_error(d, base, palette, tw, th, keys.drop_last()) {
            Some(e) => Some(e),
            None => if keys.last() == 0 {
                None
            } else {
                tile_error(d, base, palette, keys.last(), tw, th)
            },
        }
    }
}

proof fn lemma_product_fits(a: u32, b: u32)
    ensures
        0 <= a * b <= 0xffff_fffe_0000_0001,
{
    assert(0 <= a * b <= 0xffff_ffffnat * 0xffff_ffffnat) by (nonlinear_arith)
        requires
            a <= 0xffff_ffffnat,
            b <= 0xffff_ffffnat,
    ;
}

/// Reads the `width * height` raw bytes of a tile stored at `offset`.
pub fn read_raw_tile(data: &[u8], offset: u64, width: u32, height: u32) -> (r: Result<
    Vec<u8>,
    MapError,
>)
    ensures
        match r {
            Ok(raw) => offset + width * height <= data@.len() && raw@ == data@.subrange(
                offset as int,
                offset + width * height,
            ),
            Err(e) => offset + width * height > data@.len() && e == truncated(
                offset as int,
                width * height,
            ),
        },
{
    proof {
        lemma_product_fits(width, height);
    }
    let size: u64 = width as u64 * height as u64;
    let len: u64 = data.len() as u64;
    if offset > len || len - offset < size {
        return Err(MapError::Truncated { offset, needed: size as u128 });
    }
    let start: usize = offset as usize;
    let end: usize = (offset + size) as usize;
    let mut raw: Vec<u8> = Vec::new();
    let mut i: usize = start;
    while i < end
        invariant
            start <= i <= end <= data@.len(),
            raw@ == data@.subrange(start as int, i as int),
        decreases end - i,
    {
        raw.push(data[i]);
        assert(data@.subrange(start as int, i + 1) == data@.subrange(start as int, i as int).push(
            data@[i as int],
        ));
        i = i + 1;
    }
    Ok(raw)
}

// ---- layers -------------------------------------------------------------

/// The tile keys of a layer grid of `w` by `h` cells whose geometry is
/// stored at `q`; the grid itself starts 28 bytes further.
pub open spec fn grid_keys(d: Seq<u8>, q: int, w: u32, h: u32) -> Seq<u32> {
    Seq::new((w * h) as nat, |j: int| key_of(u32_le(d, q + 28 + 4 * j)))
}

/// The error that the part of a layer after its tag gives, if any; `q` is
/// where that part starts and `layer` the layer's index.
pub open spec fn layer_body_error(
    d: Seq<u8>,
    base: u32,
    palette: Seq<Colour>,
    q: int,
    layer: u32,
) -> Option<MapError> {
    if q + 16 > d.len() {
        Some(truncated(q, 16))
    } else {
        let tw = u32_le(d, q);
        let th = u32_le(d, q + 4);
        let w = u32_le(d, q + 8);
        let h = u32_le(d, q + 12);
        if w == 0 || h == 0 {
            Some(MapError::EmptyLayer { layer })
        } else if q + 28 + 4 * (w * h) > d.len() {
            Some(truncated(q + 28, 4 * (w * h)))
        } else {
            scan_error(d, base, palette, tw, th, grid_keys(d, q, w, h))
        }
    }
}

/// `l` is the layer whose part after the tag starts at `q`: its geometry as
/// stored, its grid of keys, one tile for each distinct non-zero key and no
/// other, each converted from its raw bytes through the palette.
#[verifier::opaque]
pub open spec fn layer_body_matches(
    d: Seq<u8>,
    base: u32,
    palette: Seq<Colour>,
    q: int,
    l: MapLayer,
) -> bool {
    &&& l.tile_width == u32_le(d, q)
    &&& l.tile_height == u32_le(d, q + 4)
    &&& l.map_width == u32_le(d, q + 8)
    &&& l.map_height == u32_le(d, q + 12)
    &&& l.tile_map@ == grid_keys(d, q, l.map_width, l.map_height)
    &&& l.tile_map@.len() == l.map_width * l.map_height
    &&& forall|k: u32| #[trigger]
        l.tiles@.contains_key(k) <==> (k != 0 && l.tile_map@.contains(k))
    &&& forall|k: u32| #[trigger]
        l.tiles@.contains_key(k) ==> l.tiles@[k].pixels@ == tile_pixels(
            tile_raw(d, base, k, l.tile_width, l.tile_height),
            palette,
        )
}

proof fn lemma_scan_error_prefix(
    d: Seq<u8>,
    base: u32,
    palette: Seq<Colour>,
    tw: u32,
    th: u32,
    keys: Seq<u32>,
    k: int,
)
    requires
        0 <= k <= keys.len(),
        scan_error(d, base, palette, tw, th, keys.take(k)) is Some,
    ensures
        scan_error(d, base, palette, tw, th, keys) == scan_error(
            d,
            base,
            palette,
            tw,
            th,
            keys.take(k),
        ),
    decreases keys.len(),
{
    if k < keys.len() {
        assert(keys.drop_last().take(k) == keys.take(k));
        lemma_scan_error_prefix(d, base, palette, tw, th, keys.drop_last(), k);
    } else {
        assert(keys.take(k) == keys);
    }
}

/// Reads the part of layer `layer` that follows its tag, at `pos`: geometry,
/// then the grid, decoding each distinct non-zero tile key once.
pub fn read_layer(
    data: &[u8],
    pos: u64,
    layer: u32,
    file_offsets: u32,
    palette: &Vec<Colour>,
) -> (r: Result<MapLayer, MapError>)
    requires
        pos <= data@.len() <= MAX_DATA_LEN,
    ensures
        match r {
            Ok(l) => layer_body_error(data@, file_offsets, palette@, pos as int, layer) is None
                && layer_body_matches(data@, file_offsets, palette@, pos as int, l),
            Err(e) => layer_body_error(data@, file_offsets, palette@, pos as int, layer) == Some(
                e,
            ),
        },
{
    let ghost d = data@;
    let ghost pal = palette@;
    let len_usize: usize = data.len();
    let len: u64 = len_usize as u64;
    if len - pos < 16 {
        return Err(MapError::Truncated { offset: pos, needed: 16 });
    }
    let q: usize = pos as usize;
    let tile_width = read_u32_le(data, q);
    let tile_height = read_u32_le(data, q + 4);
    let map_width = read_u32_le(data, q + 8);
    let map_height = read_u32_le(data, q + 12);
    if map_width == 0 || map_height == 0 {
        return Err(MapError::EmptyLayer { layer });
    }
    proof {
        lemma_product_fits(map_width, map_height);
    }
    let cells: u64 = map_width as u64 * map_height as u64;
    if len - pos < 28 || ((len - pos - 28) as u128) < 4 * (cells as u128) {
        return Err(MapError::Truncated { offset: pos + 28, needed: 4 * (cells as u128) });
    }
    let ghost keys = grid_keys(d, pos as int, map_width, map_height);
    assert(layer_body_error(d, file_offsets, pal, pos as int, layer) == scan_error(
        d,
        file_offsets,
        pal,
        tile_width,
        tile_height,
        keys,
    ));
    let grid: usize = q + 28;
    let n: usize = cells as usize;
    let mut tile_map: Vec<u32> = Vec::new();
    let mut tiles: HashMap<u32, Tile> = HashMap::new();
    let mut j: usize = 0;
    while j < n
        invariant
            j <= n,
            n == map_width * map_height,
            n == keys.len(),
            grid == pos + 28,
            grid + 4 * n <= d.len() <= usize::MAX,
            d == data@,
            pal == palette@,
            keys == grid_keys(d, pos as int, map_width, map_height),
            tile_map@ == keys.take(j as int),
            layer_body_error(d, file_offsets, pal, pos as int, layer) == scan_error(
                d,
                file_offsets,
                pal,
                tile_width,
                tile_height,
                keys,
            ),
            scan_error(d, file_offsets, pal, tile_width, tile_height, keys.take(j as int)) is None,
            forall|k: u32| #[trigger]
                tiles@.contains_key(k) <==> (k != 0 && tile_map@.contains(k)),
            forall|k: u32| #[trigger]
                tiles@.contains_key(k) ==> tile_error(
                    d,
                    file_offsets,
                    pal,
                    k,
                    tile_width,
                    tile_height,
                ) is None && tiles@[k].pixels@ == tile_pixels(
                    tile_raw(d, file_offsets, k, tile_width, tile_height),
                    pal,
                ),
        decreases n - j,
    {
        let code = read_u32_le(data, grid + 4 * j);
        let key = code - code % 4;
        assert(keys.take(j + 1).drop_last() == keys.take(j as int));
        assert(keys[j as int] == key);
        let ghost before = tile_map@;
        tile_map.push(key);
        assert(tile_map@ == keys.take(j + 1));
        if key != 0 && !tiles.contains_key(&key) {
            if (key as u64) + 8 < file_offsets as u64 {
                proof {
                    lemma_scan_error_prefix(d, file_offsets, pal, tile_width, tile_height, keys, j + 1);
                }
                return Err(MapError::OffsetBeforeData { value: key });
            }
            let tp: u64 = key as u64 + 8 - file_offsets as u64;
            let raw = match read_raw_tile(data, tp, tile_width, tile_height) {
                Ok(raw) => raw,
                Err(e) => {
                    proof {
                        lemma_scan_error_prefix(d, file_offsets, pal, tile_width, tile_height, keys, j + 1);
                    }
                    return Err(e);
                },
            };
            match create_tile_from_raw(&raw, palette) {
                Ok(t) => {
                    tiles.insert(key, t);
                },
                Err(b) => {
                    proof {
                        lemma_scan_error_prefix(d, file_offsets, pal, tile_width, tile_height, keys, j + 1);
                    }
                    return Err(MapError::PaletteIndex { key, index: b.index });
                },
            }
        }
        proof {
            assert forall|k: u32| #[trigger]
                tiles@.contains_key(k) <==> (k != 0 && tile_map@.contains(k)) by {
                if tile_map@.contains(k) && k != key {
                    let t = choose|t: int| 0 <= t < tile_map@.len() && tile_map@[t] == k;
                    assert(before[t] == k);
                }
                if before.contains(k) {
                    let t = choose|t: int| 0 <= t < before.len() && before[t] == k;
                    assert(tile_map@[t] == k);
                }
                if k == key {
                    assert(tile_map@[j as int] == k);
                }
            }
        }
        j = j + 1;
    }
    assert(keys.take(n as int) == keys);
    let layer = MapLayer { map_width, map_height, tile_width, tile_height, tile_map, tiles };
    proof {
        reveal(layer_body_matches);
    }
    Ok(layer)
}

// ---- maps ---------------------------------------------------------------

/// The error that layer `i` gives, if any: its stored offset, its tag, then
/// the rest of it.
pub open spec fn layer_error(d: Seq<u8>, base: u32, i: int) -> Option<MapError> {
    let lo = layer_offset(d, i);
    let p = position_of(lo, base);
    if p < 0 {
        Some(MapError::OffsetBeforeData { value: lo })
    } else if p + 4 > d.len() {
        Some(truncated(p, 4))
    } else if u32_le(d, p) != LAYER_MAGIC {
        Some(MapError::BadMagic { layer: i as u32, found: u32_le(d, p), offset: p as u64 })
    } else {
        layer_body_error(d, base, palette_of(d), p + 4, i as u32)
    }
}

/// The first error among layers `0..n`, if any.
pub open spec fn layers_error(d: Seq<u8>, base: u32, n: int) -> Option<MapError>
    decreases n,
{
    if n <= 0 {
        None
    } else {
        match layers_error(d, base, n - 1) {
            Some(e) => Some(e),
            None => layer_error(d, base, n - 1),
        }
    }
}

/// The error that decoding `d` with base offset `base` gives, if any.
pub open spec fn map_error(d: Seq<u8>, base: u32) -> Option<MapError> {
    match header_error(d) {
        Some(e) => Some(e),
        None => layers_error(d, base, layer_count(d) as int),
    }
}

/// `l` is layer `i` of `d`.
pub open spec fn layer_matches(d: Seq<u8>, base: u32, i: int, l: MapLayer) -> bool {
    layer_body_matches(d, base, palette_of(d), position_of(layer_offset(d, i), base) + 4, l)
}

/// `m` holds the layers of `d`, in the order the header lists them.
pub open spec fn map_matches(d: Seq<u8>, base: u32, m: LevelMap) -> bool {
    &&& m.layers@.len() == layer_count(d)
    &&& forall|i: int|
        0 <= i < m.layers@.len() ==> layer_matches(d, base, i, #[trigger] m.layers@[i])
}

/// `r` is what decoding `d` with base offset `base` gives: the map when `d`
/// holds no error, else its first error.
pub open spec fn decodes_to(d: Seq<u8>, base: u32, r: Result<LevelMap, MapError>) -> bool {
    match r {
        Ok(m) => map_error(d, base) is None && map_matches(d, base, m),
        Err(e) => map_error(d, base) == Some(e),
    }
}

proof fn lemma_layers_error_prefix(d: Seq<u8>, base: u32, k: int, n: int)
    requires
        0 <= k <= n,
        layers_error(d, base, k) is Some,
    ensures
        layers_error(d, base, n) == layers_error(d, base, k),
    decreases n - k,
{
    if k < n {
        lemma_layers_error_prefix(d, base, k, n - 1);
    }
}

/// Reads layer `layer`, stored at offset `lo`: checks where it lands and its
/// tag, then reads the rest.
fn read_layer_at(
    data: &[u8],
    file_offsets: u32,
    palette: &Vec<Colour>,
    layer: u32,
    lo: u32,
) -> (r: Result<MapLayer, MapError>)
    requires
        data@.len() <= MAX_DATA_LEN,
        header_error(data@) is None,
        palette@ == palette_of(data@),
        layer < layer_count(data@),
        lo == layer_offset(data@, layer as int),
    ensures
        match r {
            Ok(l) => layer_error(data@, file_offsets, layer as int) is None && layer_matches(
                data@,
                file_offsets,
                layer as int,
                l,
            ),
            Err(e) => layer_error(data@, file_offsets, layer as int) == Some(e),
        },
{
    let len: u64 = data.len() as u64;
    if (lo as u64) + 8 < file_offsets as u64 {
        return Err(MapError::OffsetBeforeData { value: lo });
    }
    let p: u64 = lo as u64 + 8 - file_offsets as u64;
    if p > len || len - p < 4 {
        return Err(MapError::Truncated { offset: p, needed: 4 });
    }
    let magic = read_u32_le(data, p as usize);
    if magic != LAYER_MAGIC {
        return Err(MapError::BadMagic { layer, found: magic, offset: p });
    }
    read_layer(data, p + 4, layer, file_offsets, palette)
}

/// Decodes the map data in `data`, whose header starts at
/// `DATA_HEADER_SIZE`; `file_offsets` is subtracted from every stored offset
/// (after adding `DATA_HEADER_SIZE`) to find where it lands in `data`.
pub fn parse_map(data: &[u8], file_offsets: u32) -> (r: Result<LevelMap, MapError>)
    requires
        data@.len() <= MAX_DATA_LEN,
    ensures
        decodes_to(data@, file_offsets, r),
{
    let ghost d = data@;
    let len_usize: usize = data.len();
    let len: u64 = len_usize as u64;
    if len < 16 {
        return Err(MapError::Truncated { offset: 8, needed: 8 });
    }
    let layers = read_u32_le(data, 12);
    if len - 16 < 4 * (layers as u64) {
        return Err(MapError::Truncated { offset: 16, needed: (4 * (layers as u64)) as u128 });
    }
    let n_layers: usize = layers as usize;
    let mut layer_offsets: Vec<u32> = Vec::new();
    let mut i: usize = 0;
    while i < n_layers
        invariant
            d == data@,
            n_layers == layer_count(d),
            16 + 4 * n_layers <= d.len() <= usize::MAX,
            i <= n_layers,
            layer_offsets@.len() == i,
            forall|t: int| 0 <= t < i ==> layer_offsets@[t] == layer_offset(d, t),
        decreases n_layers - i,
    {
        layer_offsets.push(read_u32_le(data, 16 + 4 * i));
        i = i + 1;
    }
    let pp: usize = 16 + 4 * n_layers;
    if len_usize - pp < 4 {
        return Err(MapError::Truncated { offset: pp as u64, needed: 4 });
    }
    let palette_size = read_u32_le(data, pp);
    if ((len_usize - pp - 4) as u64) < 2 * (palette_size as u64) {
        return Err(
            MapError::Truncated { offset: (pp + 4) as u64, needed: (2 * (palette_size as u64)) as u128 },
        );
    }
    let n_colours: usize = palette_size as usize;
    let mut palette: Vec<Colour> = Vec::new();
    let mut j: usize = 0;
    while j < n_colours
        invariant
            d == data@,
            pp == palette_pos(d),
            n_colours == palette_len(d),
            pp + 4 + 2 * n_colours <= d.len() <= usize::MAX,
            j <= n_colours,
            palette@.len() == j,
            forall|t: int| 0 <= t < j ==> palette@[t] == palette_of(d)[t],
        decreases n_colours - j,
    {
        palette.push(Colour::from_packed(read_u16_le(data, pp + 4 + 2 * j)));
        j = j + 1;
    }
    assert(palette@ == palette_of(d));
    assert(header_error(d) is None);
    let mut map_layers: Vec<MapLayer> = Vec::new();
    let mut i: usize = 0;
    while i < n_layers
        invariant
            d == data@,
            d.len() == len <= MAX_DATA_LEN,
            header_error(d) is None,
            n_layers == layer_count(d),
            palette@ == palette_of(d),
            layer_offsets@.len() == n_layers,
            forall|t: int| 0 <= t < n_layers ==> layer_offsets@[t] == layer_offset(d, t),
            i <= n_layers,
            layers_error(d, file_offsets, i as int) is None,
            map_layers@.len() == i,
            forall|t: int|
                0 <= t < i ==> layer_matches(d, file_offsets, t, #[trigger] map_layers@[t]),
        decreases n_layers - i,
    {
        match read_layer_at(data, file_offsets, &palette, i as u32, layer_offsets[i]) {
            Ok(layer) => {
                map_layers.push(layer);
            },
            Err(e) => {
                proof {
                    lemma_layers_error_prefix(d, file_offsets, i + 1, n_layers as int);
                }
                return Err(e);
            },
        }
        i = i + 1;
    }
    Ok(LevelMap { layers: map_layers })
}

// ---- laws ---------------------------------------------------------------

/// Every layer of a decoded map has exactly `map_width * map_height` grid
/// cells, and its tiles are keyed by exactly the non-zero keys of its grid.
pub proof fn lemma_layer_shape(d: Seq<u8>, base: u32, m: LevelMap, i: int)
    requires
        map_matches(d, base, m),
        0 <= i < m.layers@.len(),
    ensures
        m.layers@[i].tile_map@.len() == m.layers@[i].map_width * m.layers@[i].map_height,
        forall|k: u32| #[trigger]
            m.layers@[i].tiles@.contains_key(k) <==> (k != 0 && m.layers@[i].tile_map@.contains(k)),
        m.layers@[i].tiles@.dom() =~= m.layers@[i].tile_map@.to_set().remove(0),
{
    reveal(layer_body_matches);
    assert(layer_matches(d, base, i, m.layers@[i]));
    let l = m.layers@[i];
    assert forall|k: u32| l.tiles@.dom().contains(k) <==> l.tile_map@.to_set().remove(0).contains(
        k,
    ) by {
        assert(l.tiles@.contains_key(k) <==> (k != 0 && l.tile_map@.contains(k)));
    }
}

/// Two layers with the same geometry, the same grid and the same pixels
/// under each key.
pub open spec fn same_layer(a: MapLayer, b: MapLayer) -> bool {
    &&& a.map_width == b.map_width
    &&& a.map_height == b.map_height
    &&& a.tile_width == b.tile_width
    &&& a.tile_height == b.tile_height
    &&& a.tile_map@ == b.tile_map@
    &&& a.tiles@.dom() == b.tiles@.dom()
    &&& forall|k: u32| #[trigger]
        a.tiles@.contains_key(k) ==> a.tiles@[k].pixels@ == b.tiles@[k].pixels@
}

/// Decoding is deterministic: two maps decoded from the same bytes with the
/// same base offset have the same layers, grids and tile pixels.
pub proof fn lemma_decode_deterministic(d: Seq<u8>, base: u32, m1: LevelMap, m2: LevelMap)
    requires
        map_matches(d, base, m1),
        map_matches(d, base, m2),
    ensures
        m1.layers@.len() == m2.layers@.len(),
        forall|i: int|
            0 <= i < m1.layers@.len() ==> same_layer(#[trigger] m1.layers@[i], m2.layers@[i]),
{
    reveal(layer_body_matches);
    assert forall|i: int| 0 <= i < m1.layers@.len() implies same_layer(
        #[trigger] m1.layers@[i],
        m2.layers@[i],
    ) by {
        let (a, b) = (m1.layers@[i], m2.layers@[i]);
        assert(layer_matches(d, base, i, a));
        assert(layer_matches(d, base, i, b));
        assert(a.tiles@.dom() =~= b.tiles@.dom());
    }
}

} // verus!

use kknd2_mapview::{
    create_tile_from_raw, decode_extracted, decode_self_contained, find_map_entry, parse_map,
    read_raw_tile, BadPaletteIndex, Colour, LevelMap, MapError,
};

const LAYER_TAG: [u8; 4] = [0x4c, 0x52, 0x43, 0x53];

fn push_u32(v: &mut Vec<u8>, x: u32) {
    v.extend_from_slice(&x.to_le_bytes());
}

/// A layer: tag, geometry, twelve skipped bytes, then the grid codes.
fn layer_bytes(tw: u32, th: u32, w: u32, h: u32, codes: &[u32]) -> Vec<u8> {
    let mut v = LAYER_TAG.to_vec();
    for x in [tw, th, w, h] {
        push_u32(&mut v, x);
    }
    v.extend_from_slice(&[0u8; 12]);
    for c in codes {
        push_u32(&mut v, *c);
    }
    v
}

/// A self-contained file with one layer, the layer right after the palette.
/// Returns the bytes and the buffer position where the layer starts.
fn one_layer_file(base: u32, palette: &[u16], layer: &[u8]) -> (Vec<u8>, usize) {
    let mut v = vec![0xde, 0xc0, 0xad, 0xde];
    push_u32(&mut v, base);
    push_u32(&mut v, 0); // version
    push_u32(&mut v, 1);
    let layer_pos = 16 + 4 + 4 + 2 * palette.len() as u32;
    push_u32(&mut v, layer_pos - 8 + base);
    push_u32(&mut v, palette.len() as u32);
    for p in palette {
        v.extend_from_slice(&p.to_le_bytes());
    }
    assert_eq!(v.len(), layer_pos as usize);
    v.extend_from_slice(layer);
    (v, layer_pos as usize)
}

fn colour(r: u8, g: u8, b: u8) -> Colour {
    Colour { r, g, b }
}

#[test]
fn scenario_a_all_empty_grid() {
    let layer = layer_bytes(32, 32, 2, 2, &[0, 0, 0, 0]);
    let (file, _) = one_layer_file(0, &[0x0000, 0x7fff], &layer);
    let map = decode_self_contained(&file).unwrap();
    assert_eq!(map.layers.len(), 1);
    let l = &map.layers[0];
    assert_eq!((l.tile_width, l.tile_height, l.map_width, l.map_height), (32, 32, 2, 2));
    assert_eq!(l.tile_map, vec![0, 0, 0, 0]);
    assert!(l.tiles.is_empty());
}

#[test]
fn scenario_b_corrupt_layer_tag() {
    let mut layer = layer_bytes(32, 32, 2, 2, &[0, 0, 0, 0]);
    layer[0] = 0x00;
    let (file, pos) = one_layer_file(0, &[0x0000, 0x7fff], &layer);
    match decode_self_contained(&file) {
        Err(MapError::BadMagic { layer, found, offset }) => {
            assert_eq!(layer, 0);
            assert_eq!(found, 0x5343_5200);
            assert_eq!(offset, pos as u64);
        }
        _ => panic!("expected a bad layer tag"),
    }
}

#[test]
fn scenario_c_full_packed_colour() {
    assert_eq!(Colour::from_packed(0x7fff), colour(248, 248, 248));
}

#[test]
fn colour_channel_table() {
    assert_eq!(Colour::from_packed(0x7c00), colour(248, 0, 0));
    assert_eq!(Colour::from_packed(0x03e0), colour(0, 248, 0));
    assert_eq!(Colour::from_packed(0x001f), colour(0, 0, 248));
    assert_eq!(Colour::from_packed(0x0421), colour(8, 8, 8));
    assert_eq!(Colour::from_packed(0x8000), colour(0, 0, 0));
    assert_eq!(Colour::from_packed(0xffff), colour(248, 248, 248));
    assert_eq!(Colour::from_packed(0x5294), colour(160, 160, 160));
}

#[test]
fn colour_expansion_is_deterministic_and_idempotent() {
    for p in [0u16, 1, 0x1234, 0x7fff, 0x8001, 0xabcd, 0xffff] {
        let c = Colour::from_packed(p);
        assert_eq!(c, Colour::from_packed(p));
        let repacked = ((c.r as u16 >> 3) << 10) | ((c.g as u16 >> 3) << 5) | (c.b as u16 >> 3);
        assert_eq!(repacked, p & 0x7fff);
        assert_eq!(Colour::from_packed(repacked), c);
    }
}

#[test]
fn index_zero_is_transparent() {
    let palette = vec![colour(255, 255, 255), colour(10, 20, 30)];
    let tile = create_tile_from_raw(&vec![0, 1, 0], &palette).unwrap();
    assert_eq!(tile.pixels, vec![0, 0, 0, 0, 10, 20, 30, 255, 0, 0, 0, 0]);
}

#[test]
fn out_of_range_palette_index() {
    let palette = vec![colour(1, 2, 3), colour(4, 5, 6)];
    match create_tile_from_raw(&vec![1, 0, 7, 9], &palette) {
        Err(e) => assert_eq!(e, BadPaletteIndex { index: 7 }),
        Ok(_) => panic!("expected a bad index"),
    }
    assert!(create_tile_from_raw(&vec![], &palette).unwrap().pixels.is_empty());
}

#[test]
fn raw_tile_bytes_and_truncation() {
    let data: Vec<u8> = (0u8..10).collect();
    assert_eq!(read_raw_tile(&data, 3, 2, 2).unwrap(), vec![3, 4, 5, 6]);
    assert_eq!(read_raw_tile(&data, 6, 2, 2).unwrap(), vec![6, 7, 8, 9]);
    assert_eq!(
        read_raw_tile(&data, 7, 2, 2).err(),
        Some(MapError::Truncated { offset: 7, needed: 4 })
    );
}

/// One layer of 3 by 1 cells over 2 by 2 tiles: the first and last cell
/// share a key (with different flag bits), the middle one is empty; the raw
/// tile follows the layer.
fn shared_tile_file(base: u32) -> Vec<u8> {
    let layer_len = 4 + 16 + 12 + 3 * 4;
    let palette = [0x7fffu16, 0x7c00, 0x001f, 0x03e0];
    let tile_pos = 16 + 4 + 4 + 2 * 4 + layer_len;
    let key = (tile_pos - 8) as u32 + base;
    assert_eq!(key % 4, 0);
    let layer = layer_bytes(2, 2, 3, 1, &[key | 1, 2, key | 3]);
    let (mut file, _) = one_layer_file(base, &palette, &layer);
    assert_eq!(file.len(), tile_pos);
    file.extend_from_slice(&[0, 1, 2, 0]);
    file
}

#[test]
fn shared_key_decodes_one_tile() {
    let file = shared_tile_file(0);
    let map = decode_self_contained(&file).unwrap();
    let l = &map.layers[0];
    let key = l.tile_map[0];
    assert_eq!(key % 4, 0);
    assert_eq!(l.tile_map, vec![key, 0, key]);
    assert_eq!(l.tiles.len(), 1);
    let first = &l.tiles.get(&l.tile_map[0]).unwrap().pixels;
    let last = &l.tiles.get(&l.tile_map[2]).unwrap().pixels;
    assert_eq!(first, last);
    assert_eq!(first, &vec![0, 0, 0, 0, 248, 0, 0, 255, 0, 0, 248, 255, 0, 0, 0, 0]);
}

#[test]
fn base_offset_shifts_every_stored_offset() {
    let plain = decode_self_contained(&shared_tile_file(0)).unwrap();
    let shifted = decode_self_contained(&shared_tile_file(0x1000)).unwrap();
    let (a, b) = (&plain.layers[0], &shifted.layers[0]);
    assert_eq!(b.tile_map[0], a.tile_map[0] + 0x1000);
    assert_eq!(a.tiles.get(&a.tile_map[0]).unwrap().pixels, b.tiles.get(&b.tile_map[0]).unwrap().pixels);
}

fn same_maps(x: &LevelMap, y: &LevelMap) {
    assert_eq!(x.layers.len(), y.layers.len());
    for (a, b) in x.layers.iter().zip(y.layers.iter()) {
        assert_eq!((a.map_width, a.map_height, a.tile_width, a.tile_height),
                   (b.map_width, b.map_height, b.tile_width, b.tile_height));
        assert_eq!(a.tile_map, b.tile_map);
        assert_eq!(a.tiles.len(), b.tiles.len());
        for (k, t) in a.tiles.iter() {
            assert_eq!(t.pixels, b.tiles.get(k).unwrap().pixels);
        }
    }
}

#[test]
fn decoding_twice_gives_the_same_map() {
    let file = shared_tile_file(0);
    let x = decode_self_contained(&file).unwrap();
    let y = decode_self_contained(&file).unwrap();
    same_maps(&x, &y);
}

#[test]
fn tile_keys_are_the_non_zero_grid_keys() {
    let map = decode_self_contained(&shared_tile_file(0)).unwrap();
    for l in &map.layers {
        assert_eq!(l.tile_map.len(), (l.map_width * l.map_height) as usize);
        for k in &l.tile_map {
            assert_eq!(*k != 0, l.tiles.contains_key(k));
        }
        for k in l.tiles.keys() {
            assert!(*k != 0 && l.tile_map.contains(k));
        }
    }
}

#[test]
fn truncated_grid_is_an_error() {
    let mut layer = layer_bytes(32, 32, 2, 2, &[0, 0, 0, 0]);
    layer.truncate(layer.len() - 1);
    let (file, pos) = one_layer_file(0, &[0x0000, 0x7fff], &layer);
    assert_eq!(
        decode_self_contained(&file).err(),
        Some(MapError::Truncated { offset: pos as u64 + 32, needed: 16 })
    );
}

#[test]
fn truncated_tile_is_an_error() {
    let mut file = shared_tile_file(0);
    let len = file.len();
    file.truncate(len - 1);
    assert_eq!(
        decode_self_contained(&file).err(),
        Some(MapError::Truncated { offset: (len - 4) as u64, needed: 4 })
    );
}

#[test]
fn truncated_header_is_an_error() {
    let (file, _) = one_layer_file(0, &[0x0000, 0x7fff], &layer_bytes(1, 1, 1, 1, &[0]));
    assert_eq!(decode_self_contained(&file[..2]).err(), Some(MapError::Truncated { offset: 0, needed: 4 }));
    assert_eq!(decode_self_contained(&file[..6]).err(), Some(MapError::Truncated { offset: 4, needed: 4 }));
    assert_eq!(decode_self_contained(&file[..14]).err(), Some(MapError::Truncated { offset: 8, needed: 8 }));
    assert_eq!(decode_self_contained(&file[..18]).err(), Some(MapError::Truncated { offset: 16, needed: 4 }));
    assert_eq!(decode_self_contained(&file[..22]).err(), Some(MapError::Truncated { offset: 20, needed: 4 }));
    assert_eq!(decode_self_contained(&file[..25]).err(), Some(MapError::Truncated { offset: 24, needed: 4 }));
    assert_eq!(decode_self_contained(&file[..30]).err(), Some(MapError::Truncated { offset: 28, needed: 4 }));
    assert_eq!(decode_self_contained(&file[..40]).err(), Some(MapError::Truncated { offset: 32, needed: 16 }));
}

#[test]
fn missing_file_tag() {
    let data = vec![1, 2, 3, 4, 5, 6, 7, 8];
    assert_eq!(
        decode_self_contained(&data).err(),
        Some(MapError::NotSelfContained { found: 0x0403_0201 })
    );
}

#[test]
fn layer_offset_before_data() {
    let layer = layer_bytes(32, 32, 2, 2, &[0, 0, 0, 0]);
    let (mut file, _) = one_layer_file(0x100, &[0x0000], &layer);
    file[16..20].copy_from_slice(&0x10u32.to_le_bytes());
    assert_eq!(decode_self_contained(&file).err(), Some(MapError::OffsetBeforeData { value: 0x10 }));
}

#[test]
fn tile_offset_before_data() {
    let layer = layer_bytes(2, 2, 1, 1, &[0x20]);
    let (file, _) = one_layer_file(0x100, &[0x0000], &layer);
    assert_eq!(decode_self_contained(&file).err(), Some(MapError::OffsetBeforeData { value: 0x20 }));
}

#[test]
fn empty_layer_is_an_error() {
    let layer = layer_bytes(32, 32, 0, 4, &[]);
    let (file, _) = one_layer_file(0, &[0x0000], &layer);
    assert_eq!(decode_self_contained(&file).err(), Some(MapError::EmptyLayer { layer: 0 }));
}

#[test]
fn tile_with_bad_palette_index() {
    let mut file = shared_tile_file(0);
    let len = file.len();
    file[len - 2] = 9;
    let key = (len - 4 - 8) as u32;
    assert_eq!(decode_self_contained(&file).err(), Some(MapError::PaletteIndex { key, index: 9 }));
}

#[test]
fn extracted_entry_matches_self_contained_file() {
    let base = 0x40;
    let file = shared_tile_file(base);
    let whole = decode_self_contained(&file).unwrap();
    let extracted = decode_extracted(&file[8..], base).unwrap();
    same_maps(&whole, &extracted);
    let direct = parse_map(&file, base).unwrap();
    same_maps(&whole, &direct);
}

#[test]
fn extracted_entry_too_short() {
    assert_eq!(decode_extracted(&[0, 0], 0).err(), Some(MapError::Truncated { offset: 8, needed: 8 }));
}

#[test]
fn map_entry_is_the_first_mapd_kind() {
    assert_eq!(find_map_entry(&[1, 0x4450_414d, 0x4450_414d]), Some(1));
    assert_eq!(find_map_entry(&[1, 2, 3]), None);
    assert_eq!(find_map_entry(&[]), None);
}

#[test]
fn two_layers_in_order() {
    let l0 = layer_bytes(32, 32, 1, 1, &[0]);
    let l1 = layer_bytes(16, 16, 1, 2, &[0, 0]);
    let mut v = vec![0xde, 0xc0, 0xad, 0xde];
    push_u32(&mut v, 0);
    push_u32(&mut v, 0);
    push_u32(&mut v, 2);
    let p0 = 16 + 8 + 4 + 2;
    let p1 = p0 + l0.len() as u32;
    push_u32(&mut v, p0 - 8);
    push_u32(&mut v, p1 - 8);
    push_u32(&mut v, 1);
    v.extend_from_slice(&[0, 0]);
    v.extend_from_slice(&l0);
    v.extend_from_slice(&l1);
    let map = decode_self_contained(&v).unwrap();
    assert_eq!(map.layers.len(), 2);
    assert_eq!(map.layers[0].tile_width, 32);
    assert_eq!((map.layers[1].tile_width, map.layers[1].map_height), (16, 2));
    assert_eq!(map.layers[1].tile_map, vec![0, 0]);
}

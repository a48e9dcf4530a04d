//! The two shapes in which map data reaches the decoder.
use crate::bytes::{read_u32_le, u32_le};
use crate::map::{
    decodes_to, parse_map, truncated, LevelMap, MapError, FILE_MAGIC, MAPD_KIND, MAX_DATA_LEN,
};
use vstd::prelude::*;

verus! {

/// What decoding a self-contained file gives: it starts with `FILE_MAGIC`,
/// then the base offset, then the map data.
pub open spec fn self_contained_decodes_to(d: Seq<u8>, r: Result<LevelMap, MapError>) -> bool {
    if d.len() < 4 {
        r == Err::<LevelMap, MapError>(truncated(0, 4))
    } else if u32_le(d, 0) != FILE_MAGIC {
        r == Err::<LevelMap, MapError>(MapError::NotSelfContained { found: u32_le(d, 0) })
    } else if d.len() < 8 {
        r == Err::<LevelMap, MapError>(truncated(4, 4))
    } else {
        decodes_to(d, u32_le(d, 4), r)
    }
}

/// Decodes a self-contained map file: the file tag, the base offset, then the
/// map data, whose header starts right after them.
pub fn decode_self_contained(data: &[u8]) -> (r: Result<LevelMap, MapError>)
    requires
        data@.len() <= MAX_DATA_LEN,
    ensures
        self_contained_decodes_to(data@, r),
{
    if data.len() < 4 {
        return Err(MapError::Truncated { offset: 0, needed: 4 });
    }
    let magic = read_u32_le(data, 0);
    if magic != FILE_MAGIC {
        return Err(MapError::NotSelfContained { found: magic });
    }
    if data.len() < 8 {
        return Err(MapError::Truncated { offset: 4, needed: 4 });
    }
    let file_offsets = read_u32_le(data, 4);
    parse_map(data, file_offsets)
}

/// The bytes of an archive's map entry with the eight bytes of padding that
/// stand in for the header the archive stripped.
pub open spec fn padded(entry: Seq<u8>) -> Seq<u8> {
    Seq::new(8, |i: int| 0u8) + entry
}

/// Decodes map data taken out of an archive entry recorded at
/// `entry_offset`: the data is read as if eight bytes preceded it.
pub fn decode_extracted(entry: &[u8], entry_offset: u32) -> (r: Result<LevelMap, MapError>)
    requires
        entry@.len() + 8 <= MAX_DATA_LEN,
    ensures
        decodes_to(padded(entry@), entry_offset, r),
{
    let mut data: Vec<u8> = vec![0u8; 8];
    let mut i: usize = 0;
    while i < entry.len()
        invariant
            i <= entry@.len(),
            data@ == padded(entry@.take(i as int)),
        decreases entry@.len() - i,
    {
        data.push(entry[i]);
        assert(padded(entry@.take(i + 1)) == padded(entry@.take(i as int)).push(entry@[i as int]));
        i = i + 1;
    }
    assert(entry@.take(i as int) == entry@);
    parse_map(data.as_slice(), entry_offset)
}

/// The position of the first archive entry, by kind, that holds map data.
pub fn find_map_entry(kinds: &[u32]) -> (r: Option<usize>)
    ensures
        match r {
            Some(i) => i < kinds@.len() && kinds@[i as int] == MAPD_KIND && forall|j: int|
                0 <= j < i ==> kinds@[j] != MAPD_KIND,
            None => forall|j: int| 0 <= j < kinds@.len() ==> kinds@[j] != MAPD_KIND,
        },
{
    let mut i: usize = 0;
    while i < kinds.len()
        invariant
            i <= kinds@.len(),
            forall|j: int| 0 <= j < i ==> kinds@[j] != MAPD_KIND,
        decreases kinds@.len() - i,
    {
        if kinds[i] == MAPD_KIND {
            return Some(i);
        }
        i = i + 1;
    }
    None
}

} // verus!

//! Chunk ids and index keys.
//!
//! The table identifies a chunk by a signed 64-bit row id, the index by an
//! unsigned 64-bit key. The two stand for each other one to one, so that the
//! value handed to the index is the value the table returned. One key the
//! index keeps for itself; the chunk whose id stands behind it cannot be
//! indexed.
use vstd::prelude::*;

verus! {

/// The index key that stands for the chunk id `id`: the id itself where it is
/// not negative, and the id shifted into the upper half of the key range
/// where it is.
pub open spec fn key_of(id: int) -> int {
    if id >= 0 {
        id
    } else {
        id + 0x1_0000_0000_0000_0000
    }
}

/// The chunk id that the index key `key` stands for.
pub open spec fn id_of(key: int) -> int {
    if key < 0x8000_0000_0000_0000 {
        key
    } else {
        key - 0x1_0000_0000_0000_0000
    }
}

/// Whether the index keeps `key` for itself. The index marks the place of a
/// vector that it has freed with the greatest key, which stands for the
/// chunk id -1: a vector under it is never found again.
pub open spec fn reserved(key: int) -> bool {
    key == 0xffff_ffff_ffff_ffff
}

/// Whether the index keeps `key` for itself.
pub fn is_reserved(key: u64) -> (kept: bool)
    ensures
        kept == reserved(key as int),
{
    key == 0xffff_ffff_ffff_ffffu64
}

/// The key under which the vector of chunk `id` is stored in the index.
pub fn index_key(id: i64) -> (key: u64)
    ensures
        key == key_of(id as int),
{
    if id >= 0 {
        id as u64
    } else {
        let below: u64 = (id - i64::MIN) as u64;
        below + 0x8000_0000_0000_0000u64
    }
}

/// The id of the chunk whose vector is stored under `key`.
pub fn chunk_id(key: u64) -> (id: i64)
    ensures
        id == id_of(key as int),
{
    if key < 0x8000_0000_0000_0000u64 {
        key as i64
    } else {
        let below: u64 = key - 0x8000_0000_0000_0000u64;
        (below as i64) + i64::MIN
    }
}

/// Every chunk id is found again from its key.
pub proof fn lemma_id_round_trip(id: int)
    requires
        i64::MIN <= id <= i64::MAX,
    ensures
        0 <= key_of(id) <= u64::MAX,
        id_of(key_of(id)) == id,
{
}

/// Every index key is found again from its chunk id.
pub proof fn lemma_key_round_trip(key: int)
    requires
        0 <= key <= u64::MAX,
    ensures
        i64::MIN <= id_of(key) <= i64::MAX,
        key_of(id_of(key)) == key,
{
}

/// One chunk id stands behind the key that the index keeps for itself: -1.
pub proof fn lemma_reserved_id(id: int)
    requires
        i64::MIN <= id <= i64::MAX,
    ensures
        reserved(key_of(id)) <==> id == -1,
{
}

/// Distinct chunk ids never share an index key.
pub proof fn lemma_keys_distinct(a: int, b: int)
    requires
        i64::MIN <= a <= i64::MAX,
        i64::MIN <= b <= i64::MAX,
        key_of(a) == key_of(b),
    ensures
        a == b,
{
}

} // verus!

//! The byte encoding of index keys for a key-value store: the raw `u64`,
//! little-endian, eight bytes wide, ordered as unsigned integers.
use vstd::prelude::*;
use vstd::bytes::{spec_u64_from_le_bytes, spec_u64_to_le_bytes, u64_from_le_bytes, u64_to_le_bytes};
use core::cmp::Ordering;

verus! {

/// The width of an encoded key in bytes.
pub const KEY_WIDTH: usize = 8;

/// The order of two raw keys as unsigned integers.
pub open spec fn key_order(a: u64, b: u64) -> Ordering {
    if a < b {
        Ordering::Less
    } else if a > b {
        Ordering::Greater
    } else {
        Ordering::Equal
    }
}

/// The raw key that the first eight bytes of `data` encode.
pub open spec fn decoded(data: Seq<u8>) -> u64 {
    spec_u64_from_le_bytes(data.subrange(0, KEY_WIDTH as int))
}

/// The little-endian bytes of a raw key.
pub fn encode_key(raw: u64) -> (r: Vec<u8>)
    ensures
        r@ == spec_u64_to_le_bytes(raw),
        r@.len() == KEY_WIDTH,
        decoded(r@) == raw,
{
    proof {
        vstd::bytes::lemma_auto_spec_u64_to_from_le_bytes();
    }
    let r = u64_to_le_bytes(raw);
    assert(r@.subrange(0, KEY_WIDTH as int) =~= r@);
    r
}

/// The raw key in the first eight bytes of `data`.
pub fn decode_key(data: &[u8]) -> (r: u64)
    requires
        data@.len() >= KEY_WIDTH,
    ensures
        r == decoded(data@),
{
    let mut head: Vec<u8> = Vec::with_capacity(KEY_WIDTH);
    let mut i: usize = 0;
    while i < KEY_WIDTH
        invariant
            i <= KEY_WIDTH,
            data@.len() >= KEY_WIDTH,
            head@ == data@.subrange(0, i as int),
        decreases KEY_WIDTH - i,
    {
        head.push(data[i]);
        i = i + 1;
        assert(head@ =~= data@.subrange(0, i as int));
    }
    u64_from_le_bytes(head.as_slice())
}

/// Compare two encoded keys as the unsigned integers they hold.
pub fn compare_keys(data1: &[u8], data2: &[u8]) -> (r: Ordering)
    requires
        data1@.len() >= KEY_WIDTH,
        data2@.len() >= KEY_WIDTH,
    ensures
        r == key_order(decoded(data1@), decoded(data2@)),
{
    let a = decode_key(data1);
    let b = decode_key(data2);
    if a < b {
        Ordering::Less
    } else if a > b {
        Ordering::Greater
    } else {
        Ordering::Equal
    }
}

/// Encoding keeps order: two encoded keys compare as the raw keys they hold, and
/// decoding an encoded key gives it back.
pub proof fn lemma_encoding_keeps_order(a: u64, b: u64)
    ensures
        decoded(spec_u64_to_le_bytes(a)) == a,
        key_order(decoded(spec_u64_to_le_bytes(a)), decoded(spec_u64_to_le_bytes(b)))
            == key_order(a, b),
{
    vstd::bytes::lemma_auto_spec_u64_to_from_le_bytes();
    assert(spec_u64_to_le_bytes(a).subrange(0, KEY_WIDTH as int) =~= spec_u64_to_le_bytes(a));
    assert(spec_u64_to_le_bytes(b).subrange(0, KEY_WIDTH as int) =~= spec_u64_to_le_bytes(b));
}

} // verus!

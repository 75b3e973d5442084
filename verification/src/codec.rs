//! Fixed-width encoding of 128-bit amounts.
//!
//! Every stored quantity (a balance, an allowance, the total supply) is
//! a 128-bit unsigned integer kept as exactly 16 bytes, most significant
//! byte first.  The fixed width keeps the key layout stable and makes a
//! wrong-length value detectable as corruption.
use vstd::prelude::*;

verus! {

/// The 16 bytes that encode `x`, most significant byte first.
pub open spec fn spec_u128_to_be_bytes(x: u128) -> Seq<u8> {
    seq![
        ((x >> 120) & 0xff) as u8,
        ((x >> 112) & 0xff) as u8,
        ((x >> 104) & 0xff) as u8,
        ((x >> 96) & 0xff) as u8,
        ((x >> 88) & 0xff) as u8,
        ((x >> 80) & 0xff) as u8,
        ((x >> 72) & 0xff) as u8,
        ((x >> 64) & 0xff) as u8,
        ((x >> 56) & 0xff) as u8,
        ((x >> 48) & 0xff) as u8,
        ((x >> 40) & 0xff) as u8,
        ((x >> 32) & 0xff) as u8,
        ((x >> 24) & 0xff) as u8,
        ((x >> 16) & 0xff) as u8,
        ((x >> 8) & 0xff) as u8,
        (x & 0xff) as u8,
    ]
}

/// The 128-bit value of 16 bytes read most significant byte first.
pub open spec fn spec_u128_from_be_bytes(s: Seq<u8>) -> u128
    recommends
        s.len() == 16,
{
    (s[0] as u128) << 120 | (s[1] as u128) << 112 | (s[2] as u128) << 104 | (s[3] as u128) << 96
        | (s[4] as u128) << 88 | (s[5] as u128) << 80 | (s[6] as u128) << 72 | (s[7] as u128) << 64
        | (s[8] as u128) << 56 | (s[9] as u128) << 48 | (s[10] as u128) << 40 | (s[11] as u128)
        << 32 | (s[12] as u128) << 24 | (s[13] as u128) << 16 | (s[14] as u128) << 8 | (
    s[15] as u128)
}

/// Decoding inverts encoding: the 16-byte form of a value reads back as
/// that value.
pub proof fn lemma_u128_be_bytes_round_trip(x: u128)
    ensures
        spec_u128_to_be_bytes(x).len() == 16,
        spec_u128_from_be_bytes(spec_u128_to_be_bytes(x)) == x,
{
    assert({
        &&& (x >> 120) & 0xff < 256
        &&& (x >> 112) & 0xff < 256
        &&& (x >> 104) & 0xff < 256
        &&& (x >> 96) & 0xff < 256
        &&& (x >> 88) & 0xff < 256
        &&& (x >> 80) & 0xff < 256
        &&& (x >> 72) & 0xff < 256
        &&& (x >> 64) & 0xff < 256
        &&& (x >> 56) & 0xff < 256
        &&& (x >> 48) & 0xff < 256
        &&& (x >> 40) & 0xff < 256
        &&& (x >> 32) & 0xff < 256
        &&& (x >> 24) & 0xff < 256
        &&& (x >> 16) & 0xff < 256
        &&& (x >> 8) & 0xff < 256
        &&& x & 0xff < 256
    }) by (bit_vector);
    assert(x == ((x >> 120) & 0xff) << 120 | ((x >> 112) & 0xff) << 112 | ((x >> 104) & 0xff) << 104
        | ((x >> 96) & 0xff) << 96 | ((x >> 88) & 0xff) << 88 | ((x >> 80) & 0xff) << 80 | ((x
        >> 72) & 0xff) << 72 | ((x >> 64) & 0xff) << 64 | ((x >> 56) & 0xff) << 56 | ((x >> 48)
        & 0xff) << 48 | ((x >> 40) & 0xff) << 40 | ((x >> 32) & 0xff) << 32 | ((x >> 24) & 0xff)
        << 24 | ((x >> 16) & 0xff) << 16 | ((x >> 8) & 0xff) << 8 | (x & 0xff)) by (bit_vector);
}

/// Encodes an amount as its 16 big-endian bytes.
pub fn u128_to_be_bytes(x: u128) -> (r: Vec<u8>)
    ensures
        r@ == spec_u128_to_be_bytes(x),
{
    let mut v: Vec<u8> = Vec::new();
    v.push(((x >> 120) & 0xff) as u8);
    v.push(((x >> 112) & 0xff) as u8);
    v.push(((x >> 104) & 0xff) as u8);
    v.push(((x >> 96) & 0xff) as u8);
    v.push(((x >> 88) & 0xff) as u8);
    v.push(((x >> 80) & 0xff) as u8);
    v.push(((x >> 72) & 0xff) as u8);
    v.push(((x >> 64) & 0xff) as u8);
    v.push(((x >> 56) & 0xff) as u8);
    v.push(((x >> 48) & 0xff) as u8);
    v.push(((x >> 40) & 0xff) as u8);
    v.push(((x >> 32) & 0xff) as u8);
    v.push(((x >> 24) & 0xff) as u8);
    v.push(((x >> 16) & 0xff) as u8);
    v.push(((x >> 8) & 0xff) as u8);
    v.push((x & 0xff) as u8);
    assert(v@ =~= spec_u128_to_be_bytes(x));
    v
}

/// Reads a 128-bit value out of exactly 16 big-endian bytes.
pub fn u128_from_be_bytes(data: &[u8]) -> (r: u128)
    requires
        data@.len() == 16,
    ensures
        r == spec_u128_from_be_bytes(data@),
{
    (data[0] as u128) << 120 | (data[1] as u128) << 112 | (data[2] as u128) << 104 | (
    data[3] as u128) << 96 | (data[4] as u128) << 88 | (data[5] as u128) << 80 | (data[6] as u128)
        << 72 | (data[7] as u128) << 64 | (data[8] as u128) << 56 | (data[9] as u128) << 48 | (
    data[10] as u128) << 40 | (data[11] as u128) << 32 | (data[12] as u128) << 24 | (
    data[13] as u128) << 16 | (data[14] as u128) << 8 | (data[15] as u128)
}

} // verus!

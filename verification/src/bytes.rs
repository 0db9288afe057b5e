//! Big-endian encoding and decoding of fixed-width integers.

use vstd::prelude::*;

verus! {

/// The two bytes of `x`, most significant first.
pub open spec fn be16(x: u16) -> Seq<u8> {
    seq![((x >> 8u16) & 0xffu16) as u8, (x & 0xffu16) as u8]
}

/// The value of two big-endian bytes.
pub open spec fn be16_value(hi: u8, lo: u8) -> u16 {
    ((hi as u16) << 8u16) | (lo as u16)
}

/// The eight bytes of `x`, most significant first.
pub open spec fn be64(x: u64) -> Seq<u8> {
    seq![
        ((x >> 56u64) & 0xffu64) as u8,
        ((x >> 48u64) & 0xffu64) as u8,
        ((x >> 40u64) & 0xffu64) as u8,
        ((x >> 32u64) & 0xffu64) as u8,
        ((x >> 24u64) & 0xffu64) as u8,
        ((x >> 16u64) & 0xffu64) as u8,
        ((x >> 8u64) & 0xffu64) as u8,
        (x & 0xffu64) as u8,
    ]
}

/// The value of eight big-endian bytes.
pub open spec fn be64_value(b: Seq<u8>) -> u64
    recommends
        b.len() == 8,
{
    ((b[0] as u64) << 56u64) | ((b[1] as u64) << 48u64) | ((b[2] as u64) << 40u64) | ((b[3] as u64)
        << 32u64) | ((b[4] as u64) << 24u64) | ((b[5] as u64) << 16u64) | ((b[6] as u64) << 8u64) | (
    b[7] as u64)
}

/// The eight bytes of a signed integer in two's complement, most significant first.
pub open spec fn be_i64(v: i64) -> Seq<u8> {
    be64(v as u64)
}

/// The signed value of eight big-endian two's complement bytes.
pub open spec fn be_i64_value(b: Seq<u8>) -> i64
    recommends
        b.len() == 8,
{
    be64_value(b) as i64
}

/// Decoding the two bytes of a 16-bit value gives the value back.
pub proof fn lemma_be16_roundtrip(x: u16)
    ensures
        be16_value(be16(x)[0], be16(x)[1]) == x,
{
    let hi = ((x >> 8u16) & 0xffu16) as u8;
    let lo = (x & 0xffu16) as u8;
    assert(((hi as u16) << 8u16) | (lo as u16) == x) by (bit_vector)
        requires
            hi == ((x >> 8u16) & 0xffu16) as u8,
            lo == (x & 0xffu16) as u8,
    ;
}

/// Decoding the eight bytes of a 64-bit value gives the value back.
pub proof fn lemma_be64_roundtrip(x: u64)
    ensures
        be64_value(be64(x)) == x,
{
    let b = be64(x);
    let b0 = b[0];
    let b1 = b[1];
    let b2 = b[2];
    let b3 = b[3];
    let b4 = b[4];
    let b5 = b[5];
    let b6 = b[6];
    let b7 = b[7];
    assert(((b0 as u64) << 56u64) | ((b1 as u64) << 48u64) | ((b2 as u64) << 40u64) | ((b3 as u64)
        << 32u64) | ((b4 as u64) << 24u64) | ((b5 as u64) << 16u64) | ((b6 as u64) << 8u64) | (
    b7 as u64) == x) by (bit_vector)
        requires
            b0 == ((x >> 56u64) & 0xffu64) as u8,
            b1 == ((x >> 48u64) & 0xffu64) as u8,
            b2 == ((x >> 40u64) & 0xffu64) as u8,
            b3 == ((x >> 32u64) & 0xffu64) as u8,
            b4 == ((x >> 24u64) & 0xffu64) as u8,
            b5 == ((x >> 16u64) & 0xffu64) as u8,
            b6 == ((x >> 8u64) & 0xffu64) as u8,
            b7 == (x & 0xffu64) as u8,
    ;
}

/// Decoding the eight bytes of a signed value gives the value back.
pub proof fn lemma_be_i64_roundtrip(v: i64)
    ensures
        be_i64_value(be_i64(v)) == v,
{
    lemma_be64_roundtrip(v as u64);
    let u = v as u64;
    assert((u as i64) == v) by (bit_vector)
        requires
            u == v as u64,
    ;
}

/// Appends the big-endian bytes of `x`.
pub fn push_be64(out: &mut Vec<u8>, x: u64)
    ensures
        final(out)@ == old(out)@ + be64(x),
{
    out.push(((x >> 56u64) & 0xffu64) as u8);
    out.push(((x >> 48u64) & 0xffu64) as u8);
    out.push(((x >> 40u64) & 0xffu64) as u8);
    out.push(((x >> 32u64) & 0xffu64) as u8);
    out.push(((x >> 24u64) & 0xffu64) as u8);
    out.push(((x >> 16u64) & 0xffu64) as u8);
    out.push(((x >> 8u64) & 0xffu64) as u8);
    out.push((x & 0xffu64) as u8);
}

/// Appends the big-endian two's complement bytes of `v`.
pub fn push_be_i64(out: &mut Vec<u8>, v: i64)
    ensures
        final(out)@ == old(out)@ + be_i64(v),
{
    push_be64(out, v as u64);
}

/// Appends the big-endian bytes of `x`.
pub fn push_be16(out: &mut Vec<u8>, x: u16)
    ensures
        final(out)@ == old(out)@ + be16(x),
{
    out.push(((x >> 8u16) & 0xffu16) as u8);
    out.push((x & 0xffu16) as u8);
}

/// Reads the signed big-endian value of the eight bytes at `at`.
pub fn read_be_i64(data: &[u8], at: usize) -> (v: i64)
    requires
        at + 8 <= data@.len(),
    ensures
        v == be_i64_value(data@.subrange(at as int, at + 8)),
{
    let ghost b = data@.subrange(at as int, at + 8);
    let x: u64 = ((data[at] as u64) << 56u64) | ((data[at + 1] as u64) << 48u64) | ((data[at
        + 2] as u64) << 40u64) | ((data[at + 3] as u64) << 32u64) | ((data[at + 4] as u64)
        << 24u64) | ((data[at + 5] as u64) << 16u64) | ((data[at + 6] as u64) << 8u64) | (data[at
        + 7] as u64);
    assert(x == be64_value(b));
    x as i64
}

} // verus!

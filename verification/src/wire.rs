//! Big-endian integer layouts used on the wire, as mathematical sequences.

use vstd::prelude::*;

verus! {

/// The two bytes of `x`, most significant first.
pub open spec fn be16(x: u16) -> Seq<u8> {
    seq![(x / 0x100) as u8, (x % 0x100) as u8]
}

/// The three low bytes of `x`, most significant first.
pub open spec fn be24(x: u32) -> Seq<u8> {
    seq![((x / 0x10000) % 0x100) as u8, ((x / 0x100) % 0x100) as u8, (x % 0x100) as u8]
}

/// The four bytes of `x`, most significant first.
pub open spec fn be32(x: u32) -> Seq<u8> {
    seq![
        (x / 0x1000000) as u8,
        ((x / 0x10000) % 0x100) as u8,
        ((x / 0x100) % 0x100) as u8,
        (x % 0x100) as u8,
    ]
}

/// The unsigned integer whose big-endian bytes are the first two of `s`.
pub open spec fn be16_value(s: Seq<u8>) -> int {
    s[0] * 0x100 + s[1]
}

/// The unsigned integer whose big-endian bytes are the first three of `s`.
pub open spec fn be24_value(s: Seq<u8>) -> int {
    s[0] * 0x10000 + s[1] * 0x100 + s[2]
}

/// The unsigned integer whose big-endian bytes are the first four of `s`.
pub open spec fn be32_value(s: Seq<u8>) -> int {
    s[0] * 0x1000000 + s[1] * 0x10000 + s[2] * 0x100 + s[3]
}

/// The two's complement reading of the first four bytes of `s`.
pub open spec fn be32_signed_value(s: Seq<u8>) -> int {
    if be32_value(s) >= 0x80000000 {
        be32_value(s) - 0x100000000
    } else {
        be32_value(s)
    }
}

/// The four bytes of the two's complement representation of `x`.
pub open spec fn be32_signed(x: i32) -> Seq<u8> {
    if x < 0 {
        be32((x + 0x100000000) as u32)
    } else {
        be32(x as u32)
    }
}

/// Reading back the bytes of `be32` gives the number again.
pub proof fn lemma_be32_roundtrip(x: u32)
    ensures
        be32(x).len() == 4,
        be32_value(be32(x)) == x,
{
}

/// Reading back the bytes of `be24` gives the low three bytes of the number.
pub proof fn lemma_be24_roundtrip(x: u32)
    ensures
        be24(x).len() == 3,
        be24_value(be24(x)) == x % 0x1000000,
{
}

/// Reading back the bytes of `be16` gives the number again.
pub proof fn lemma_be16_roundtrip(x: u16)
    ensures
        be16(x).len() == 2,
        be16_value(be16(x)) == x,
{
}

/// Reading back the bytes of `be32_signed` gives the number again.
pub proof fn lemma_be32_signed_roundtrip(x: i32)
    ensures
        be32_signed(x).len() == 4,
        be32_signed_value(be32_signed(x)) == x,
{
}

} // verus!

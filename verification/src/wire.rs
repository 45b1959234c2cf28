//! Byte-level helpers shared by the message and chunk codecs: the
//! big-endian encoding of 32-bit integers used throughout the wire format,
//! and byte-sequence comparison.

use vstd::prelude::*;

verus! {

/// The four big-endian bytes that encode a 32-bit value.
pub open spec fn spec_u32_to_be(x: u32) -> Seq<u8> {
    seq![
        (x / 0x100_0000) as u8,
        ((x / 0x1_0000) % 0x100) as u8,
        ((x / 0x100) % 0x100) as u8,
        (x % 0x100) as u8,
    ]
}

/// The value denoted by four big-endian bytes.
pub open spec fn spec_u32_from_be(s: Seq<u8>) -> int {
    (s[0] as int) * 0x100_0000 + (s[1] as int) * 0x1_0000 + (s[2] as int) * 0x100 + (s[3] as int)
}

/// Encoding then decoding a 32-bit value gives the value back.
pub proof fn lemma_u32_be_round_trip(x: u32)
    ensures
        spec_u32_from_be(spec_u32_to_be(x)) == x as int,
{
    assert((x / 0x100_0000) as u8 as int * 0x100_0000 + ((x / 0x1_0000) % 0x100) as u8 as int
        * 0x1_0000 + ((x / 0x100) % 0x100) as u8 as int * 0x100 + (x % 0x100) as u8 as int
        == x as int) by (bit_vector);
}

pub fn u32_to_be(x: u32) -> (r: Vec<u8>)
    ensures
        r@ == spec_u32_to_be(x),
{
    let mut r: Vec<u8> = Vec::new();
    r.push((x / 0x100_0000) as u8);
    r.push(((x / 0x1_0000) % 0x100) as u8);
    r.push(((x / 0x100) % 0x100) as u8);
    r.push((x % 0x100) as u8);
    proof {
        assert(r@ =~= spec_u32_to_be(x));
    }
    r
}

pub fn u32_from_be(b0: u8, b1: u8, b2: u8, b3: u8) -> (r: u32)
    ensures
        r as int == spec_u32_from_be(seq![b0, b1, b2, b3]),
{
    (b0 as u32) * 0x100_0000 + (b1 as u32) * 0x1_0000 + (b2 as u32) * 0x100 + (b3 as u32)
}

/// The eight big-endian bytes that encode a 64-bit value.
pub open spec fn spec_u64_to_be(x: u64) -> Seq<u8> {
    spec_u32_to_be((x / 0x1_0000_0000) as u32) + spec_u32_to_be((x % 0x1_0000_0000) as u32)
}

/// The value denoted by eight big-endian bytes.
pub open spec fn spec_u64_from_be(s: Seq<u8>) -> int {
    spec_u32_from_be(s.take(4)) * 0x1_0000_0000 + spec_u32_from_be(s.skip(4))
}

/// Encoding then decoding a 64-bit value gives the value back.
pub proof fn lemma_u64_be_round_trip(x: u64)
    ensures
        spec_u64_from_be(spec_u64_to_be(x)) == x as int,
{
    let hi = (x / 0x1_0000_0000) as u32;
    let lo = (x % 0x1_0000_0000) as u32;
    assert(spec_u64_to_be(x).take(4) =~= spec_u32_to_be(hi));
    assert(spec_u64_to_be(x).skip(4) =~= spec_u32_to_be(lo));
    lemma_u32_be_round_trip(hi);
    lemma_u32_be_round_trip(lo);
    assert(hi as int * 0x1_0000_0000 + lo as int == x as int) by (bit_vector)
        requires
            hi == (x / 0x1_0000_0000) as u32,
            lo == (x % 0x1_0000_0000) as u32,
    ;
}

pub fn u64_to_be(x: u64) -> (r: Vec<u8>)
    ensures
        r@ == spec_u64_to_be(x),
{
    let mut r = u32_to_be((x / 0x1_0000_0000) as u32);
    let mut lo = u32_to_be((x % 0x1_0000_0000) as u32);
    r.append(&mut lo);
    r
}

pub fn u64_from_be(s: &[u8]) -> (r: u64)
    requires
        s@.len() == 8,
    ensures
        r as int == spec_u64_from_be(s@),
{
    let hi = u32_from_be(s[0], s[1], s[2], s[3]);
    let lo = u32_from_be(s[4], s[5], s[6], s[7]);
    let r = (hi as u64) * 0x1_0000_0000 + (lo as u64);
    proof {
        assert(s@.take(4) =~= seq![s@[0], s@[1], s@[2], s@[3]]);
        assert(s@.skip(4) =~= seq![s@[4], s@[5], s@[6], s@[7]]);
    }
    r
}

/// Byte-for-byte comparison of two slices.
pub fn bytes_eq(a: &[u8], b: &[u8]) -> (r: bool)
    ensures
        r == (a@ == b@),
{
    if a.len() != b.len() {
        return false;
    }
    let mut i: usize = 0;
    while i < a.len()
        invariant
            0 <= i <= a@.len(),
            a@.len() == b@.len(),
            forall|j: int| 0 <= j < i ==> a@[j] == b@[j],
        decreases a@.len() - i,
    {
        if a[i] != b[i] {
            return false;
        }
        i += 1;
    }
    proof {
        assert(a@ =~= b@);
    }
    true
}

} // verus!

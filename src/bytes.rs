//! Byte-level checks on file prefixes: a short content hash and a binary sniff.

use vstd::prelude::*;

verus! {

/// The FNV-1a offset basis.
pub const FNV_OFFSET: u64 = 0xcbf29ce484222325;

/// The FNV-1a prime.
pub const FNV_PRIME: u64 = 0x100000001b3;

/// FNV-1a over `b`: per byte, xor it in, then multiply by the prime modulo 2^64.
pub open spec fn fnv1a(b: Seq<u8>) -> u64
    decreases b.len(),
{
    if b.len() == 0 {
        FNV_OFFSET
    } else {
        (((fnv1a(b.drop_last()) ^ (b.last() as u64)) as int * FNV_PRIME as int) % 0x1_0000_0000_0000_0000) as u64
    }
}

/// The 64-bit FNV-1a hash of `bytes`.
pub fn fnv1a_64(bytes: &Vec<u8>) -> (r: u64)
    ensures
        r == fnv1a(bytes@),
{
    let mut h: u64 = FNV_OFFSET;
    let mut i: usize = 0;
    while i < bytes.len()
        invariant
            i <= bytes@.len(),
            h == fnv1a(bytes@.subrange(0, i as int)),
        decreases bytes.len() - i,
    {
        proof {
            assert(bytes@.subrange(0, i + 1).drop_last() == bytes@.subrange(0, i as int));
        }
        h = (h ^ bytes[i] as u64).wrapping_mul(FNV_PRIME);
        i = i + 1;
    }
    assert(bytes@.subrange(0, bytes@.len() as int) == bytes@);
    h
}

/// Whether byte `b` is a control character other than tab, line feed and carriage return.
pub open spec fn non_printable(b: u8) -> bool {
    b < 0x20 && b != 0x09 && b != 0x0A && b != 0x0D
}

/// Number of such control characters in `s`.
pub open spec fn non_printable_count(s: Seq<u8>) -> int
    decreases s.len(),
{
    if s.len() == 0 {
        0
    } else {
        non_printable_count(s.drop_last()) + if non_printable(s.last()) { 1int } else { 0int }
    }
}

/// Whether a sample of a file's first bytes looks binary: it holds a zero
/// byte, or more than three in ten of its bytes are control characters.
pub open spec fn looks_binary_spec(s: Seq<u8>) -> bool {
    s.contains(0u8) || (s.len() > 0 && non_printable_count(s) * 10 > 3 * s.len())
}

/// Whether a sample of a file's first bytes looks binary.
pub fn looks_binary(sample: &Vec<u8>) -> (r: bool)
    ensures
        r == looks_binary_spec(sample@),
{
    let mut count: usize = 0;
    let mut i: usize = 0;
    while i < sample.len()
        invariant
            i <= sample@.len(),
            count <= i,
            count == non_printable_count(sample@.subrange(0, i as int)),
            forall|j: int| 0 <= j < i ==> sample@[j] != 0u8,
        decreases sample.len() - i,
    {
        proof {
            assert(sample@.subrange(0, i + 1).drop_last() == sample@.subrange(0, i as int));
        }
        let b = sample[i];
        if b == 0 {
            assert(sample@.contains(0u8));
            return true;
        }
        if b < 0x20 && b != 0x09 && b != 0x0A && b != 0x0D {
            count = count + 1;
        }
        i = i + 1;
    }
    assert(sample@.subrange(0, sample@.len() as int) == sample@);
    let n = sample.len();
    n > 0 && (count as u128) * 10 > 3 * (n as u128)
}

} // verus!

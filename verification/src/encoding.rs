//! Little-endian encoding of unsigned integers as bytes.

use vstd::arithmetic::power2::{
    lemma2_to64, lemma2_to64_rest, lemma_pow2_adds, lemma_pow2_strictly_increases, pow2,
};
use vstd::prelude::*;

verus! {

/// The `width` least significant base-256 digits of `value`, least significant first.
pub open spec fn le_bytes(value: nat, width: nat) -> Seq<u8>
    decreases width,
{
    if width == 0 {
        Seq::empty()
    } else {
        seq![(value % 256) as u8] + le_bytes(value / 256, (width - 1) as nat)
    }
}

/// The number whose base-256 digits, least significant first, are `bytes`.
pub open spec fn le_value(bytes: Seq<u8>) -> nat
    decreases bytes.len(),
{
    if bytes.len() == 0 {
        0
    } else {
        bytes[0] as nat + 256 * le_value(bytes.skip(1))
    }
}

/// `n` bytes hold a number below `2^(8n)`.
pub proof fn lemma_le_value_bound(bytes: Seq<u8>)
    ensures
        le_value(bytes) < pow2(8 * bytes.len()),
    decreases bytes.len(),
{
    if bytes.len() == 0 {
        lemma2_to64();
    } else {
        let rest = bytes.skip(1);
        lemma_le_value_bound(rest);
        lemma_pow2_adds(8, 8 * rest.len());
        lemma2_to64();
    }
}

/// Decoding undoes encoding for every value that fits in `width` bytes.
pub proof fn lemma_decode_encode(value: nat, width: nat)
    requires
        value < pow2(8 * width),
    ensures
        le_value(le_bytes(value, width)) == value,
    decreases width,
{
    if width == 0 {
        lemma2_to64();
    } else {
        let tail_width = (width - 1) as nat;
        let bytes = le_bytes(value, width);
        lemma_pow2_adds(8, 8 * tail_width);
        lemma2_to64();
        lemma_decode_encode(value / 256, tail_width);
        assert(bytes.skip(1) =~= le_bytes(value / 256, tail_width));
    }
}

/// Encoding undoes decoding: a byte string is the encoding of its own value.
pub proof fn lemma_encode_decode(bytes: Seq<u8>)
    ensures
        le_bytes(le_value(bytes), bytes.len()) == bytes,
    decreases bytes.len(),
{
    if bytes.len() > 0 {
        lemma_encode_decode(bytes.skip(1));
    }
}

/// The encoding is canonical: two values that fit in `width` bytes and have
/// the same encoding are the same value.
pub proof fn lemma_le_bytes_injective(a: nat, b: nat, width: nat)
    requires
        a < pow2(8 * width),
        b < pow2(8 * width),
        le_bytes(a, width) == le_bytes(b, width),
    ensures
        a == b,
{
    lemma_decode_encode(a, width);
    lemma_decode_encode(b, width);
}

/// Writes `value` as `width` little-endian bytes. Digits beyond the eighth are zero.
pub fn encode_le(value: u64, width: usize) -> (bytes: Vec<u8>)
    ensures
        bytes@ == le_bytes(value as nat, width as nat),
        bytes@.len() == width,
{
    let mut bytes: Vec<u8> = Vec::new();
    let mut rest: u64 = value;
    let mut i: usize = 0;
    while i < width
        invariant
            i <= width,
            bytes@.len() == i,
            bytes@ + le_bytes(rest as nat, (width - i) as nat) == le_bytes(
                value as nat,
                width as nat,
            ),
        decreases width - i,
    {
        let ghost before = bytes@;
        let ghost tail = le_bytes((rest / 256) as nat, (width - i - 1) as nat);
        assert(before + (seq![(rest % 256) as u8] + tail) =~= before.push((rest % 256) as u8)
            + tail);
        bytes.push((rest % 256) as u8);
        rest = rest / 256;
        i = i + 1;
    }
    bytes
}

/// Reads at most eight little-endian bytes as a number.
pub fn decode_le(bytes: &[u8]) -> (value: u64)
    requires
        bytes@.len() <= 8,
    ensures
        value == le_value(bytes@),
{
    let mut value: u64 = 0;
    let mut i: usize = bytes.len();
    while i > 0
        invariant
            i <= bytes@.len() <= 8,
            value == le_value(bytes@.skip(i as int)),
        decreases i,
    {
        proof {
            let seen = bytes@.skip(i as int);
            lemma_le_value_bound(seen);
            lemma2_to64_rest();
            lemma2_to64();
            if seen.len() < 7 {
                lemma_pow2_strictly_increases(8 * seen.len(), 56);
            }
            assert(bytes@.skip(i - 1).skip(1) =~= seen);
        }
        i = i - 1;
        value = value * 256 + bytes[i] as u64;
    }
    assert(bytes@.skip(0) =~= bytes@);
    value
}

} // verus!

//! The arithmetic of unbiased sampling: the power-of-two mask that covers a
//! field order, the test that accepts or rejects one draw, and the low bits of
//! a draw.

use vstd::arithmetic::power2::{
    lemma2_to64, lemma_pow2_pos, lemma_pow2_strictly_increases, lemma_pow2_unfold, pow2,
};
use vstd::bits::{
    lemma_u64_low_bits_mask_is_mod, lemma_u64_shl_is_mul, lemma_usize_pow2_no_overflow,
    low_bits_mask,
};
use vstd::prelude::*;

verus! {

/// `k` is the least exponent with `n <= 2^k`.
pub open spec fn is_log2_ceil(n: nat, k: nat) -> bool {
    &&& n <= pow2(k)
    &&& k > 0 ==> pow2((k - 1) as nat) < n
}

/// The least exponent `k` with `n <= 2^k`: the base-two logarithm of `n`, rounded up.
pub open spec fn log2_ceil(n: nat) -> nat
    decreases n,
{
    if n <= 1 {
        0
    } else {
        log2_ceil((n + 1) / 2) + 1
    }
}

/// `log2_ceil` is what its name says.
pub proof fn lemma_log2_ceil(n: nat)
    ensures
        is_log2_ceil(n, log2_ceil(n)),
    decreases n,
{
    if n <= 1 {
        lemma2_to64();
    } else {
        let half = (n + 1) / 2;
        let k = log2_ceil(half);
        lemma_log2_ceil(half);
        lemma_pow2_unfold(k + 1);
        if k > 0 {
            lemma_pow2_unfold(k);
        } else {
            lemma2_to64();
        }
    }
}

/// There is only one least exponent.
pub proof fn lemma_log2_ceil_unique(n: nat, k: nat)
    requires
        is_log2_ceil(n, k),
    ensures
        k == log2_ceil(n),
{
    let l = log2_ceil(n);
    lemma_log2_ceil(n);
    if k < l {
        if k < l - 1 {
            lemma_pow2_strictly_increases(k, (l - 1) as nat);
        }
    } else if l < k {
        if l < k - 1 {
            lemma_pow2_strictly_increases(l, (k - 1) as nat);
        }
    }
}

/// A number below `2^bound` has a logarithm of at most `bound`.
pub proof fn lemma_log2_ceil_le(n: nat, bound: nat)
    requires
        n <= pow2(bound),
    ensures
        log2_ceil(n) <= bound,
{
    let k = log2_ceil(n);
    lemma_log2_ceil(n);
    if k > bound {
        if bound < k - 1 {
            lemma_pow2_strictly_increases(bound, (k - 1) as nat);
        }
    }
}

/// The mask under which draws for a field of this order are taken:
/// `2^k - 1` for the least `k` with `order <= 2^k`.
pub open spec fn mask_of(order: nat) -> nat {
    (pow2(log2_ceil(order)) - 1) as nat
}

/// A draw reduced to the bits of the mask. Every value below the order is
/// its own reduction, so no value is favoured.
pub open spec fn masked(draw: nat, order: nat) -> nat {
    draw % pow2(log2_ceil(order))
}

/// What rejection sampling makes of one draw: the reduced draw where it lies
/// below the order, nothing where it does not.
pub open spec fn accepted(draw: nat, order: nat) -> Option<nat> {
    if masked(draw, order) < order {
        Some(masked(draw, order))
    } else {
        None
    }
}

/// What is accepted is an element of the field, and is the draw with its
/// high bits cut off.
pub proof fn lemma_accepted_in_field(draw: nat, order: nat)
    ensures
        accepted(draw, order) matches Some(value) ==> value < order && value == draw % pow2(
            log2_ceil(order),
        ),
{
}

/// Sampling is the identity on the field: a draw that is an element of the
/// field is accepted as itself.
pub proof fn lemma_accepted_identity(value: nat, order: nat)
    requires
        value < order,
    ensures
        accepted(value, order) == Some(value),
{
    lemma_log2_ceil(order);
    vstd::arithmetic::div_mod::lemma_small_mod(value, pow2(log2_ceil(order)));
}

/// No element of the field is favoured: the draws that give an element are
/// the element itself with any high bits put on top, so that among the draws
/// of any one width every element is given by equally many.
pub proof fn lemma_accepted_without_bias(value: nat, order: nat, high: nat)
    requires
        value < order,
    ensures
        accepted(value + high * pow2(log2_ceil(order)), order) == Some(value),
{
    let modulus = pow2(log2_ceil(order));
    lemma_log2_ceil(order);
    lemma_pow2_pos(log2_ceil(order));
    vstd::arithmetic::div_mod::lemma_mod_multiples_vanish(
        high as int,
        value as int,
        modulus as int,
    );
    vstd::arithmetic::div_mod::lemma_small_mod(value, modulus);
}

/// `p3_util::log2_ceil_u64`, which counts the bits of `n - 1` (of zero for
/// `n == 0`): the result is at most 64 and is the least exponent `k` with
/// `n <= 2^k`.
pub assume_specification[ p3_util::log2_ceil_u64 ](n: u64) -> (k: u64)
    ensures
        k <= 64,
        is_log2_ceil(n as nat, k as nat),
;

proof fn lemma_shl_one_wide(k: u64)
    requires
        k <= 64,
    ensures
        (1u128 << k) == pow2(k as nat),
    decreases k,
{
    if k == 0 {
        assert(1u128 << 0u64 == 1) by (bit_vector);
        lemma2_to64();
    } else {
        let j: u64 = (k - 1) as u64;
        lemma_shl_one_wide(j);
        lemma_pow2_unfold(k as nat);
        lemma_pow2_strictly_increases(j as nat, 64);
        lemma2_to64();
        assert((1u128 << k) == 2 * (1u128 << j)) by (bit_vector)
            requires
                0 < k <= 64,
                j == k - 1,
        ;
    }
}

proof fn lemma_and_mask(draw: u64, k: nat)
    requires
        k <= 64,
    ensures
        draw & (low_bits_mask(k) as u64) == draw as nat % pow2(k),
{
    lemma2_to64();
    if k == 64 {
        assert(draw & 0xffff_ffff_ffff_ffffu64 == draw) by (bit_vector);
    } else {
        lemma_u64_low_bits_mask_is_mod(draw, k);
        vstd::bits::lemma_u64_pow2_no_overflow(k);
    }
}

/// Computes the sampling mask of a field order.
pub fn sampling_mask(order: u64) -> (mask: u64)
    ensures
        mask == mask_of(order as nat),
{
    let log_size: u64 = p3_util::log2_ceil_u64(order);
    proof {
        lemma_log2_ceil_unique(order as nat, log_size as nat);
        lemma_shl_one_wide(log_size);
        lemma_pow2_pos(log_size as nat);
        if log_size < 64 {
            lemma_pow2_strictly_increases(log_size as nat, 64);
        }
        lemma2_to64();
    }
    // One bit more than the draw is wide, so that a shift by 64 does not overflow.
    let bound: u128 = (1u128 << log_size) - 1;
    bound as u64
}

/// Applies the rejection test to one draw.
pub fn accept(draw: u64, order: u64) -> (value: Option<u64>)
    ensures
        match value {
            Some(element) => element < order && accepted(draw as nat, order as nat) == Some(
                element as nat,
            ),
            None => accepted(draw as nat, order as nat).is_none(),
        },
{
    let mask: u64 = sampling_mask(order);
    reduce(draw, mask, order)
}

/// The rejection test with the mask already at hand.
pub fn reduce(draw: u64, mask: u64, order: u64) -> (value: Option<u64>)
    requires
        mask == mask_of(order as nat),
    ensures
        match value {
            Some(element) => element < order && accepted(draw as nat, order as nat) == Some(
                element as nat,
            ),
            None => accepted(draw as nat, order as nat).is_none(),
        },
{
    proof {
        lemma2_to64();
        lemma_log2_ceil_le(order as nat, 64);
        lemma_and_mask(draw, log2_ceil(order as nat));
    }
    let candidate: u64 = draw & mask;
    if candidate < order {
        Some(candidate)
    } else {
        None
    }
}

/// The `bits` least significant bits of a draw.
pub fn low_bits(draw: u64, bits: usize) -> (low: usize)
    requires
        bits < usize::BITS,
    ensures
        low == draw as nat % pow2(bits as nat),
        low < pow2(bits as nat),
{
    proof {
        lemma_usize_pow2_no_overflow(bits as nat);
        vstd::bits::lemma_u64_pow2_no_overflow(bits as nat);
        lemma_u64_shl_is_mul(1, bits as u64);
        lemma_u64_low_bits_mask_is_mod(draw, bits as nat);
        lemma_pow2_pos(bits as nat);
    }
    let mask: u64 = (1u64 << bits) - 1;
    let low: u64 = draw & mask;
    low as usize
}

} // verus!

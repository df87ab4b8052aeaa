//! The test for a power of two, and the facts of bit arithmetic that the
//! address translation rests on.

use vstd::prelude::*;
use vstd::arithmetic::power2::lemma2_to64;
use vstd::arithmetic::power2::lemma2_to64_rest;
use vstd::arithmetic::power2::lemma_pow2_pos;
use vstd::arithmetic::power2::lemma_pow2_strictly_increases;
use vstd::arithmetic::power2::lemma_pow2_unfold;
use vstd::arithmetic::power2::pow2;
use vstd::bits::lemma_u64_low_bits_mask_is_mod;
use vstd::bits::low_bits_mask;
use crate::model::byte_bit;
use crate::model::byte_with_bit;
use crate::model::power_of_two;

verus! {

/// A power of two that fits in a `usize` is `2^k` for some `k` below 64.
pub proof fn lemma_power_of_two_exponent(n: usize) -> (k: nat)
    requires
        power_of_two(n as nat),
    ensures
        k < 64,
        n == pow2(k),
        n > 0,
{
    let k = choose|k: nat| n as nat == pow2(k);
    lemma2_to64();
    if k > 64 {
        lemma_pow2_strictly_increases(64, k);
    }
    lemma_pow2_pos(k);
    k
}

/// A number of 64 bits with exactly one bit set is a power of two.
proof fn lemma_single_bit_is_power(n: u64)
    requires
        n != 0,
        n & ((n - 1) as u64) == 0,
    ensures
        power_of_two(n as nat),
    decreases n,
{
    if n == 1 {
        lemma2_to64();
        assert(n as nat == pow2(0));
    } else {
        let half = n / 2;
        assert(n % 2 == 0 && half != 0 && half & ((half - 1) as u64) == 0) by (bit_vector)
            requires
                n != 0,
                n != 1,
                n & ((n - 1) as u64) == 0,
                half == n / 2,
        ;
        lemma_single_bit_is_power(half);
        let k = choose|k: nat| half as nat == pow2(k);
        lemma_pow2_unfold(k + 1);
        assert(n as nat == pow2(k + 1));
    }
}

/// `2^k`, where it fits in 64 bits, has exactly one bit set.
proof fn lemma_power_is_single_bit(k: nat)
    requires
        k < 64,
    ensures
        0 < pow2(k) <= u64::MAX,
        (pow2(k) as u64) & ((pow2(k) as u64 - 1) as u64) == 0,
    decreases k,
{
    lemma2_to64();
    if k == 0 {
        assert(1u64 & ((1u64 - 1) as u64) == 0) by (bit_vector);
    } else {
        lemma_power_is_single_bit((k - 1) as nat);
        lemma_pow2_unfold(k);
        if k < 63 {
            lemma_pow2_strictly_increases(k, 63);
        }
        lemma2_to64_rest();
        let half = pow2((k - 1) as nat) as u64;
        let n = pow2(k) as u64;
        assert(n & ((n - 1) as u64) == 0) by (bit_vector)
            requires
                half != 0,
                half & ((half - 1) as u64) == 0,
                half <= 0x4000_0000_0000_0000u64,
                n == 2 * half,
        ;
    }
}

/// Tells whether `n` is a power of two.
pub fn is_power_of_two(n: usize) -> (yes: bool)
    ensures
        yes == power_of_two(n as nat),
{
    let wide = n as u64;
    if wide == 0 {
        proof {
            if power_of_two(n as nat) {
                let k = choose|k: nat| n as nat == pow2(k);
                lemma_pow2_pos(k);
            }
        }
        false
    } else {
        let yes = wide & (wide - 1) == 0;
        proof {
            if yes {
                lemma_single_bit_is_power(wide);
            }
            if power_of_two(n as nat) {
                let k = lemma_power_of_two_exponent(n);
                lemma_power_is_single_bit(k);
            }
        }
        yes
    }
}

/// With a power of two as page size, masking with `page_size - 1` gives the
/// remainder of the division by `page_size`.
pub proof fn lemma_mask_is_remainder(index: usize, page_size: usize)
    requires
        power_of_two(page_size as nat),
    ensures
        page_size > 0,
        index & ((page_size - 1) as usize) == index % page_size,
{
    let k = lemma_power_of_two_exponent(page_size);
    let x = index as u64;
    let m = (page_size - 1) as u64;
    lemma_u64_low_bits_mask_is_mod(x, k);
    assert(low_bits_mask(k) as u64 == m);
    assert(x & m == x % (page_size as u64));
    assert((index & ((page_size - 1) as usize)) as u64 == x & m);
}

/// The low three bits of a bit index are its position in the byte, and the
/// rest is the byte's index.
pub proof fn lemma_bit_address(index: usize)
    ensures
        index & 7 == index % 8,
        (index - (index & 7)) / 8 == index / 8,
{
    assert(index & 7 == index % 8) by (bit_vector);
}

/// A byte after a bit is written holds the written value at that position
/// and its old value at every other position; it equals the old byte exactly
/// when the bit already had the value.
pub proof fn lemma_byte_with_bit(byte: u8, position: u8, value: bool)
    requires
        position < 8,
    ensures
        byte_bit(byte_with_bit(byte, position, value), position) == value,
        forall|other: u8|
            other < 8 && other != position ==> byte_bit(
                #[trigger] byte_with_bit(byte, position, value),
                other,
            ) == byte_bit(byte, other),
        (byte_with_bit(byte, position, value) == byte) == (byte_bit(byte, position) == value),
{
    assert(position < 8 ==> (((byte | (128u8 >> position)) & (128u8 >> position)) != 0))
        by (bit_vector);
    assert(position < 8 ==> (((byte & (255u8 ^ (128u8 >> position))) & (128u8 >> position)) == 0))
        by (bit_vector);
    assert(position < 8 ==> (((byte | (128u8 >> position)) == byte) == ((byte & (128u8
        >> position)) != 0))) by (bit_vector);
    assert(position < 8 ==> (((byte & (255u8 ^ (128u8 >> position))) == byte) == ((byte & (128u8
        >> position)) == 0))) by (bit_vector);
    assert forall|other: u8| other < 8 && other != position implies byte_bit(
        #[trigger] byte_with_bit(byte, position, value),
        other,
    ) == byte_bit(byte, other) by {
        assert(position < 8 && other < 8 && other != position ==> ((((byte | (128u8 >> position))
            & (128u8 >> other)) != 0) == ((byte & (128u8 >> other)) != 0))) by (bit_vector);
        assert(position < 8 && other < 8 && other != position ==> ((((byte & (255u8 ^ (128u8
            >> position))) & (128u8 >> other)) != 0) == ((byte & (128u8 >> other)) != 0)))
            by (bit_vector);
    }
}

} // verus!

//! Reading and writing bit fields of the unsigned integer types, each with
//! its own shifts and masks, proved against the arithmetic of `field`.
use vstd::prelude::*;
use vstd::arithmetic::power2::{
    pow2,
    lemma2_to64,
    lemma_pow2_adds,
    lemma_pow2_pos,
    lemma_pow2_strictly_increases,
    lemma_pow2_unfold,
};
use vstd::arithmetic::div_mod::{lemma_small_mod, lemma_fundamental_div_mod};
use vstd::arithmetic::mul::{lemma_mul_is_associative, lemma_mul_is_commutative, lemma_mul_nonnegative};
use vstd::bits::low_bits_mask;
use vstd::bits::{lemma_u8_shl_is_mul, lemma_u8_pow2_no_overflow, lemma_u8_low_bits_mask_is_mod, lemma_u8_shr_is_div};
use vstd::bits::{lemma_u16_shl_is_mul, lemma_u16_pow2_no_overflow, lemma_u16_low_bits_mask_is_mod, lemma_u16_shr_is_div};
use vstd::bits::{lemma_u32_shl_is_mul, lemma_u32_pow2_no_overflow, lemma_u32_low_bits_mask_is_mod, lemma_u32_shr_is_div};
use vstd::bits::{lemma_u64_shl_is_mul, lemma_u64_pow2_no_overflow, lemma_u64_low_bits_mask_is_mod, lemma_u64_shr_is_div};
use vstd::bits::lemma_u128_shr_is_div;
use crate::field::{
    field_of,
    with_field,
    range_width,
    lemma_low_mask_shifted,
    lemma_field_fits_word,
    lemma_low_part_of_value,
};

verus! {

/// `2^n - 1` as a `u8`: the mask of the low `n` bits.
pub(crate) fn low_mask_u8(n: u8) -> (mask: u8)
    requires
        n <= 8,
    ensures
        mask as int == pow2(n as nat) - 1,
{
    if n < 8 {
        proof {
            lemma_u8_pow2_no_overflow(n as nat);
            lemma_u8_shl_is_mul(1, n);
        }
        (1u8 << n) - 1
    } else {
        proof {
            lemma2_to64();
        }
        u8::MAX
    }
}

/// Facts of the bit operations on `u8` that the field proofs rest on.
proof fn lemma_u8_word(v: u8, m: u8)
    by (bit_vector)
    ensures
        v & 0xffu8 == v,
        (v & !m) + (v & m) == v,
{
}

/// How a field write splits a `u8` into three parts that share no bit.
proof fn lemma_u8_write_parts(v: u8, b: u8, s: u8, e1: u8, ms: u8, mh: u8)
    by (bit_vector)
    requires
        s < e1 <= 8,
        ms == (1u8 << s) - 1u8,
        e1 < 8 ==> mh == (1u8 << e1) - 1u8,
        e1 == 8 ==> mh == 0xffu8,
    ensures
        ((v & !(!ms & mh)) | ((b << s) & (!ms & mh))) == (v & !mh) + ((b & (mh >> s)) << s) + (v
            & ms),
{
}

/// Masking a `u8` with its low `n` bits is taking it modulo `2^n`.
proof fn lemma_u8_and_low_mask(x: u8, mask: u8, n: nat)
    requires
        n <= 8,
        mask as int == pow2(n) - 1,
    ensures
        (x & mask) as int == x as int % (pow2(n) as int),
{
    if n < 8 {
        lemma_u8_pow2_no_overflow(n);
        lemma_u8_low_bits_mask_is_mod(x, n);
    } else {
        lemma2_to64();
        lemma_u8_word(x, 0);
        lemma_small_mod(x as nat, pow2(n));
    }
}

/// Reads the bits `start..=end` of `v`, moved down to bit 0.
pub(crate) fn read_field_u8(v: u8, start: u8, end: u8) -> (field: u8)
    requires
        start <= end < 8,
    ensures
        field as int == field_of(v as int, start as nat, range_width(start as int, end as int)),
{
    let mask = low_mask_u8(end + 1 - start);
    proof {
        lemma_u8_shr_is_div(v, start);
        lemma_u8_and_low_mask(v >> start, mask, range_width(start as int, end as int));
    }
    (v >> start) & mask
}

/// Writes the low bits of `bits` into the bits `start..=end` of `value`.
pub(crate) fn write_field_u8(value: &mut u8, start: u8, end: u8, bits: u8)
    requires
        start <= end < 8,
    ensures
        *final(value) as int == with_field(
            *old(value) as int,
            start as nat,
            range_width(start as int, end as int),
            bits as int,
        ),
{
    let ghost v = *value;
    let low = low_mask_u8(start);
    let high = low_mask_u8(end + 1);
    let mask = !low & high;
    proof {
        let s = start as nat;
        let w = range_width(start as int, end as int);
        let e1 = (end + 1) as nat;
        lemma_u8_pow2_no_overflow(s);
        lemma_u8_shl_is_mul(1, start);
        if end + 1 < 8 {
            lemma_u8_pow2_no_overflow(e1);
            lemma_u8_shl_is_mul(1, (end + 1) as u8);
        } else {
            lemma2_to64();
        }
        lemma_u8_write_parts(v, bits, start, (end + 1) as u8, low, high);
        lemma_u8_word(v, high);
        lemma_u8_and_low_mask(v, high, e1);
        lemma_u8_and_low_mask(v, low, s);
        lemma_low_mask_shifted(s, w);
        lemma_u8_shr_is_div(high, start);
        lemma_u8_and_low_mask(bits, high >> start, w);
        lemma_field_fits_word(bits as int % (pow2(w) as int), s, w, 8);
        lemma2_to64();
        lemma_u8_shl_is_mul(bits & (high >> start), start);
        lemma_low_part_of_value(v as int, s, w);
    }
    *value &= !mask;
    *value |= (bits << start) & mask;
}

/// `2^n - 1` as a `u16`: the mask of the low `n` bits.
pub(crate) fn low_mask_u16(n: u16) -> (mask: u16)
    requires
        n <= 16,
    ensures
        mask as int == pow2(n as nat) - 1,
{
    if n < 16 {
        proof {
            lemma_u16_pow2_no_overflow(n as nat);
            lemma_u16_shl_is_mul(1, n);
        }
        (1u16 << n) - 1
    } else {
        proof {
            lemma2_to64();
        }
        u16::MAX
    }
}

/// Facts of the bit operations on `u16` that the field proofs rest on.
proof fn lemma_u16_word(v: u16, m: u16)
    by (bit_vector)
    ensures
        v & 0xffffu16 == v,
        (v & !m) + (v & m) == v,
{
}

/// How a field write splits a `u16` into three parts that share no bit.
proof fn lemma_u16_write_parts(v: u16, b: u16, s: u16, e1: u16, ms: u16, mh: u16)
    by (bit_vector)
    requires
        s < e1 <= 16,
        ms == (1u16 << s) - 1u16,
        e1 < 16 ==> mh == (1u16 << e1) - 1u16,
        e1 == 16 ==> mh == 0xffffu16,
    ensures
        ((v & !(!ms & mh)) | ((b << s) & (!ms & mh))) == (v & !mh) + ((b & (mh >> s)) << s) + (v
            & ms),
{
}

/// Masking a `u16` with its low `n` bits is taking it modulo `2^n`.
proof fn lemma_u16_and_low_mask(x: u16, mask: u16, n: nat)
    requires
        n <= 16,
        mask as int == pow2(n) - 1,
    ensures
        (x & mask) as int == x as int % (pow2(n) as int),
{
    if n < 16 {
        lemma_u16_pow2_no_overflow(n);
        lemma_u16_low_bits_mask_is_mod(x, n);
    } else {
        lemma2_to64();
        lemma_u16_word(x, 0);
        lemma_small_mod(x as nat, pow2(n));
    }
}

/// Reads the bits `start..=end` of `v`, moved down to bit 0.
pub(crate) fn read_field_u16(v: u16, start: u16, end: u16) -> (field: u16)
    requires
        start <= end < 16,
    ensures
        field as int == field_of(v as int, start as nat, range_width(start as int, end as int)),
{
    let mask = low_mask_u16(end + 1 - start);
    proof {
        lemma_u16_shr_is_div(v, start);
        lemma_u16_and_low_mask(v >> start, mask, range_width(start as int, end as int));
    }
    (v >> start) & mask
}

/// Writes the low bits of `bits` into the bits `start..=end` of `value`.
pub(crate) fn write_field_u16(value: &mut u16, start: u16, end: u16, bits: u16)
    requires
        start <= end < 16,
    ensures
        *final(value) as int == with_field(
            *old(value) as int,
            start as nat,
            range_width(start as int, end as int),
            bits as int,
        ),
{
    let ghost v = *value;
    let low = low_mask_u16(start);
    let high = low_mask_u16(end + 1);
    let mask = !low & high;
    proof {
        let s = start as nat;
        let w = range_width(start as int, end as int);
        let e1 = (end + 1) as nat;
        lemma_u16_pow2_no_overflow(s);
        lemma_u16_shl_is_mul(1, start);
        if end + 1 < 16 {
            lemma_u16_pow2_no_overflow(e1);
            lemma_u16_shl_is_mul(1, (end + 1) as u16);
        } else {
            lemma2_to64();
        }
        lemma_u16_write_parts(v, bits, start, (end + 1) as u16, low, high);
        lemma_u16_word(v, high);
        lemma_u16_and_low_mask(v, high, e1);
        lemma_u16_and_low_mask(v, low, s);
        lemma_low_mask_shifted(s, w);
        lemma_u16_shr_is_div(high, start);
        lemma_u16_and_low_mask(bits, high >> start, w);
        lemma_field_fits_word(bits as int % (pow2(w) as int), s, w, 16);
        lemma2_to64();
        lemma_u16_shl_is_mul(bits & (high >> start), start);
        lemma_low_part_of_value(v as int, s, w);
    }
    *value &= !mask;
    *value |= (bits << start) & mask;
}

/// `2^n - 1` as a `u32`: the mask of the low `n` bits.
pub(crate) fn low_mask_u32(n: u32) -> (mask: u32)
    requires
        n <= 32,
    ensures
        mask as int == pow2(n as nat) - 1,
{
    if n < 32 {
        proof {
            lemma_u32_pow2_no_overflow(n as nat);
            lemma_u32_shl_is_mul(1, n);
        }
        (1u32 << n) - 1
    } else {
        proof {
            lemma2_to64();
        }
        u32::MAX
    }
}

/// Facts of the bit operations on `u32` that the field proofs rest on.
proof fn lemma_u32_word(v: u32, m: u32)
    by (bit_vector)
    ensures
        v & 0xffff_ffffu32 == v,
        (v & !m) + (v & m) == v,
{
}

/// How a field write splits a `u32` into three parts that share no bit.
proof fn lemma_u32_write_parts(v: u32, b: u32, s: u32, e1: u32, ms: u32, mh: u32)
    by (bit_vector)
    requires
        s < e1 <= 32,
        ms == (1u32 << s) - 1u32,
        e1 < 32 ==> mh == (1u32 << e1) - 1u32,
        e1 == 32 ==> mh == 0xffff_ffffu32,
    ensures
        ((v & !(!ms & mh)) | ((b << s) & (!ms & mh))) == (v & !mh) + ((b & (mh >> s)) << s) + (v
            & ms),
{
}

/// Masking a `u32` with its low `n` bits is taking it modulo `2^n`.
proof fn lemma_u32_and_low_mask(x: u32, mask: u32, n: nat)
    requires
        n <= 32,
        mask as int == pow2(n) - 1,
    ensures
        (x & mask) as int == x as int % (pow2(n) as int),
{
    if n < 32 {
        lemma_u32_pow2_no_overflow(n);
        lemma_u32_low_bits_mask_is_mod(x, n);
    } else {
        lemma2_to64();
        lemma_u32_word(x, 0);
        lemma_small_mod(x as nat, pow2(n));
    }
}

/// Reads the bits `start..=end` of `v`, moved down to bit 0.
pub(crate) fn read_field_u32(v: u32, start: u32, end: u32) -> (field: u32)
    requires
        start <= end < 32,
    ensures
        field as int == field_of(v as int, start as nat, range_width(start as int, end as int)),
{
    let mask = low_mask_u32(end + 1 - start);
    proof {
        lemma_u32_shr_is_div(v, start);
        lemma_u32_and_low_mask(v >> start, mask, range_width(start as int, end as int));
    }
    (v >> start) & mask
}

/// Writes the low bits of `bits` into the bits `start..=end` of `value`.
pub(crate) fn write_field_u32(value: &mut u32, start: u32, end: u32, bits: u32)
    requires
        start <= end < 32,
    ensures
        *final(value) as int == with_field(
            *old(value) as int,
            start as nat,
            range_width(start as int, end as int),
            bits as int,
        ),
{
    let ghost v = *value;
    let low = low_mask_u32(start);
    let high = low_mask_u32(end + 1);
    let mask = !low & high;
    proof {
        let s = start as nat;
        let w = range_width(start as int, end as int);
        let e1 = (end + 1) as nat;
        lemma_u32_pow2_no_overflow(s);
        lemma_u32_shl_is_mul(1, start);
        if end + 1 < 32 {
            lemma_u32_pow2_no_overflow(e1);
            lemma_u32_shl_is_mul(1, (end + 1) as u32);
        } else {
            lemma2_to64();
        }
        lemma_u32_write_parts(v, bits, start, (end + 1) as u32, low, high);
        lemma_u32_word(v, high);
        lemma_u32_and_low_mask(v, high, e1);
        lemma_u32_and_low_mask(v, low, s);
        lemma_low_mask_shifted(s, w);
        lemma_u32_shr_is_div(high, start);
        lemma_u32_and_low_mask(bits, high >> start, w);
        lemma_field_fits_word(bits as int % (pow2(w) as int), s, w, 32);
        lemma2_to64();
        lemma_u32_shl_is_mul(bits & (high >> start), start);
        lemma_low_part_of_value(v as int, s, w);
    }
    *value &= !mask;
    *value |= (bits << start) & mask;
}

/// `2^n - 1` as a `u64`: the mask of the low `n` bits.
pub(crate) fn low_mask_u64(n: u64) -> (mask: u64)
    requires
        n <= 64,
    ensures
        mask as int == pow2(n as nat) - 1,
{
    if n < 64 {
        proof {
            lemma_u64_pow2_no_overflow(n as nat);
            lemma_u64_shl_is_mul(1, n);
        }
        (1u64 << n) - 1
    } else {
        proof {
            lemma2_to64();
        }
        u64::MAX
    }
}

/// Facts of the bit operations on `u64` that the field proofs rest on.
proof fn lemma_u64_word(v: u64, m: u64)
    by (bit_vector)
    ensures
        v & 0xffff_ffff_ffff_ffffu64 == v,
        (v & !m) + (v & m) == v,
{
}

/// How a field write splits a `u64` into three parts that share no bit.
proof fn lemma_u64_write_parts(v: u64, b: u64, s: u64, e1: u64, ms: u64, mh: u64)
    by (bit_vector)
    requires
        s < e1 <= 64,
        ms == (1u64 << s) - 1u64,
        e1 < 64 ==> mh == (1u64 << e1) - 1u64,
        e1 == 64 ==> mh == 0xffff_ffff_ffff_ffffu64,
    ensures
        ((v & !(!ms & mh)) | ((b << s) & (!ms & mh))) == (v & !mh) + ((b & (mh >> s)) << s) + (v
            & ms),
{
}

/// Masking a `u64` with its low `n` bits is taking it modulo `2^n`.
proof fn lemma_u64_and_low_mask(x: u64, mask: u64, n: nat)
    requires
        n <= 64,
        mask as int == pow2(n) - 1,
    ensures
        (x & mask) as int == x as int % (pow2(n) as int),
{
    if n < 64 {
        lemma_u64_pow2_no_overflow(n);
        lemma_u64_low_bits_mask_is_mod(x, n);
    } else {
        lemma2_to64();
        lemma_u64_word(x, 0);
        lemma_small_mod(x as nat, pow2(n));
    }
}

/// Reads the bits `start..=end` of `v`, moved down to bit 0.
pub(crate) fn read_field_u64(v: u64, start: u64, end: u64) -> (field: u64)
    requires
        start <= end < 64,
    ensures
        field as int == field_of(v as int, start as nat, range_width(start as int, end as int)),
{
    let mask = low_mask_u64(end + 1 - start);
    proof {
        lemma_u64_shr_is_div(v, start);
        lemma_u64_and_low_mask(v >> start, mask, range_width(start as int, end as int));
    }
    (v >> start) & mask
}

/// Writes the low bits of `bits` into the bits `start..=end` of `value`.
pub(crate) fn write_field_u64(value: &mut u64, start: u64, end: u64, bits: u64)
    requires
        start <= end < 64,
    ensures
        *final(value) as int == with_field(
            *old(value) as int,
            start as nat,
            range_width(start as int, end as int),
            bits as int,
        ),
{
    let ghost v = *value;
    let low = low_mask_u64(start);
    let high = low_mask_u64(end + 1);
    let mask = !low & high;
    proof {
        let s = start as nat;
        let w = range_width(start as int, end as int);
        let e1 = (end + 1) as nat;
        lemma_u64_pow2_no_overflow(s);
        lemma_u64_shl_is_mul(1, start);
        if end + 1 < 64 {
            lemma_u64_pow2_no_overflow(e1);
            lemma_u64_shl_is_mul(1, (end + 1) as u64);
        } else {
            lemma2_to64();
        }
        lemma_u64_write_parts(v, bits, start, (end + 1) as u64, low, high);
        lemma_u64_word(v, high);
        lemma_u64_and_low_mask(v, high, e1);
        lemma_u64_and_low_mask(v, low, s);
        lemma_low_mask_shifted(s, w);
        lemma_u64_shr_is_div(high, start);
        lemma_u64_and_low_mask(bits, high >> start, w);
        lemma_field_fits_word(bits as int % (pow2(w) as int), s, w, 64);
        lemma2_to64();
        lemma_u64_shl_is_mul(bits & (high >> start), start);
        lemma_low_part_of_value(v as int, s, w);
    }
    *value &= !mask;
    *value |= (bits << start) & mask;
}

/// `2^128`, the first power of two past `u128::MAX`.
pub(crate) proof fn lemma_pow2_128()
    ensures
        pow2(128) == 0x1_0000_0000_0000_0000_0000_0000_0000_0000,
{
    lemma2_to64();
    lemma_pow2_adds(64, 64);
}

/// Every power of two below `2^128` fits in a `u128`.
proof fn lemma_u128_pow2_no_overflow(n: nat)
    requires
        n < 128,
    ensures
        0 < pow2(n) < u128::MAX,
{
    lemma_pow2_pos(n);
    lemma_pow2_128();
    lemma_pow2_unfold(128);
    if n < 127 {
        lemma_pow2_strictly_increases(n, 127);
    }
}

/// One more bit of shift is one doubling, and shifting by nothing changes nothing.
proof fn lemma_u128_shift_steps(x: u128, t: u128, s: u128)
    by (bit_vector)
    requires
        t < 127,
        s == t + 1,
    ensures
        x << 0u128 == x,
        x << s == (x << t) << 1u128,
        (x << t) * 2 <= 0xffff_ffff_ffff_ffff_ffff_ffff_ffff_ffffu128 ==> (x << t) << 1u128 == (x
            << t) * 2,
{
}

/// Shifting a `u128` left by `shift` multiplies it by `2^shift`, when the
/// product fits.
proof fn lemma_u128_shl_is_mul(x: u128, shift: u128)
    requires
        shift < 128,
        x * pow2(shift as nat) <= u128::MAX,
    ensures
        x << shift == x * pow2(shift as nat),
    decreases shift,
{
    if shift == 0 {
        lemma_u128_shift_steps(x, 0, 1);
        lemma2_to64();
    } else {
        let t = (shift - 1) as u128;
        lemma_pow2_unfold(shift as nat);
        lemma_pow2_pos(t as nat);
        assert(x * pow2(shift as nat) == 2 * (x * pow2(t as nat))) by {
            lemma_mul_is_associative(x as int, 2, pow2(t as nat) as int);
            lemma_mul_is_commutative(x as int, 2);
            lemma_mul_is_associative(2, x as int, pow2(t as nat) as int);
        }
        lemma_mul_nonnegative(x as int, pow2(t as nat) as int);
        lemma_u128_shl_is_mul(x, t);
        lemma_u128_shift_steps(x, t, shift);
    }
}

/// A `u128` is its bits above bit `n` followed by its low `n` bits.
proof fn lemma_u128_split_low(x: u128, n: u128, m: u128)
    by (bit_vector)
    requires
        n < 128,
        m == (1u128 << n) - 1u128,
    ensures
        x == ((x >> n) << n) + (x & m),
{
}

/// Masking a `u128` with its low `n` bits is taking it modulo `2^n`.
proof fn lemma_u128_low_bits_mask_is_mod(x: u128, n: nat)
    requires
        n < 128,
    ensures
        x & (low_bits_mask(n) as u128) == x % (pow2(n) as u128),
{
    lemma_u128_pow2_no_overflow(n);
    lemma_u128_shl_is_mul(1, n as u128);
    lemma_u128_split_low(x, n as u128, (low_bits_mask(n) as u128));
    lemma_u128_shr_is_div(x, n as u128);
    lemma_fundamental_div_mod(x as int, pow2(n) as int);
    lemma_mul_is_commutative(pow2(n) as int, x as int / pow2(n) as int);
    lemma_u128_shl_is_mul(x >> (n as u128), n as u128);
}

/// `2^n - 1` as a `u128`: the mask of the low `n` bits.
pub(crate) fn low_mask_u128(n: u128) -> (mask: u128)
    requires
        n <= 128,
    ensures
        mask as int == pow2(n as nat) - 1,
{
    if n < 128 {
        proof {
            lemma_u128_pow2_no_overflow(n as nat);
            lemma_u128_shl_is_mul(1, n);
        }
        (1u128 << n) - 1
    } else {
        proof {
            lemma_pow2_128();
        }
        u128::MAX
    }
}

/// Facts of the bit operations on `u128` that the field proofs rest on.
proof fn lemma_u128_word(v: u128, m: u128)
    by (bit_vector)
    ensures
        v & 0xffff_ffff_ffff_ffff_ffff_ffff_ffff_ffffu128 == v,
        (v & !m) + (v & m) == v,
{
}

/// How a field write splits a `u128` into three parts that share no bit.
#[verifier::rlimit(100)]
proof fn lemma_u128_write_parts(v: u128, b: u128, s: u128, e1: u128, ms: u128, mh: u128)
    by (bit_vector)
    requires
        s < e1 <= 128,
        ms == (1u128 << s) - 1u128,
        e1 < 128 ==> mh == (1u128 << e1) - 1u128,
        e1 == 128 ==> mh == 0xffff_ffff_ffff_ffff_ffff_ffff_ffff_ffffu128,
    ensures
        ((v & !(!ms & mh)) | ((b << s) & (!ms & mh))) == (v & !mh) + ((b & (mh >> s)) << s) + (v
            & ms),
{
}

/// Masking a `u128` with its low `n` bits is taking it modulo `2^n`.
proof fn lemma_u128_and_low_mask(x: u128, mask: u128, n: nat)
    requires
        n <= 128,
        mask as int == pow2(n) - 1,
    ensures
        (x & mask) as int == x as int % (pow2(n) as int),
{
    if n < 128 {
        lemma_u128_pow2_no_overflow(n);
        lemma_u128_low_bits_mask_is_mod(x, n);
    } else {
        lemma_pow2_128();
        lemma_u128_word(x, 0);
        lemma_small_mod(x as nat, pow2(n));
    }
}

/// Reads the bits `start..=end` of `v`, moved down to bit 0.
pub(crate) fn read_field_u128(v: u128, start: u128, end: u128) -> (field: u128)
    requires
        start <= end < 128,
    ensures
        field as int == field_of(v as int, start as nat, range_width(start as int, end as int)),
{
    let mask = low_mask_u128(end + 1 - start);
    proof {
        lemma_u128_shr_is_div(v, start);
        lemma_u128_and_low_mask(v >> start, mask, range_width(start as int, end as int));
    }
    (v >> start) & mask
}

/// Writes the low bits of `bits` into the bits `start..=end` of `value`.
pub(crate) fn write_field_u128(value: &mut u128, start: u128, end: u128, bits: u128)
    requires
        start <= end < 128,
    ensures
        *final(value) as int == with_field(
            *old(value) as int,
            start as nat,
            range_width(start as int, end as int),
            bits as int,
        ),
{
    let ghost v = *value;
    let low = low_mask_u128(start);
    let high = low_mask_u128(end + 1);
    let mask = !low & high;
    proof {
        let s = start as nat;
        let w = range_width(start as int, end as int);
        let e1 = (end + 1) as nat;
        lemma_u128_pow2_no_overflow(s);
        lemma_u128_shl_is_mul(1, start);
        if end + 1 < 128 {
            lemma_u128_pow2_no_overflow(e1);
            lemma_u128_shl_is_mul(1, (end + 1) as u128);
        } else {
            lemma_pow2_128();
        }
        lemma_u128_write_parts(v, bits, start, (end + 1) as u128, low, high);
        lemma_u128_word(v, high);
        lemma_u128_and_low_mask(v, high, e1);
        lemma_u128_and_low_mask(v, low, s);
        lemma_low_mask_shifted(s, w);
        lemma_u128_shr_is_div(high, start);
        lemma_u128_and_low_mask(bits, high >> start, w);
        lemma_field_fits_word(bits as int % (pow2(w) as int), s, w, 128);
        lemma_pow2_128();
        lemma_u128_shl_is_mul(bits & (high >> start), start);
        lemma_low_part_of_value(v as int, s, w);
    }
    *value &= !mask;
    *value |= (bits << start) & mask;
}

} // verus!

//! Bit fields of the unsigned integer types, and the conversions between
//! the bit representations that the packing traits are built on.
use vstd::prelude::*;
use vstd::arithmetic::power2::{pow2, lemma2_to64};
use vstd::arithmetic::div_mod::lemma_small_mod;
use crate::field::{
    field_of,
    with_field,
    range_width,
    lemma_field_of_bounds,
    lemma_pow2_le,
    lemma_low_bits_twice,
    fields_apart,
    lemma_field_laws,
};
use crate::word::{
    lemma_pow2_128,
    read_field_u8,
    read_field_u16,
    read_field_u32,
    read_field_u64,
    read_field_u128,
    write_field_u8,
    write_field_u16,
    write_field_u32,
    write_field_u64,
    write_field_u128,
};

verus! {

/// Allows extracting bitfields from bits.
///
/// A field is given by the inclusive bit range `START..=END`, bit 0 being
/// the least significant bit of `Self`.
pub trait Bits<B>: Sized {
    /// Whether the field `start..=end` lies inside `Self` and fits in a `B`.
    spec fn fits_extract(start: usize, end: usize) -> bool;

    /// Whether the field `start..=end` lies inside `Self`.
    spec fn fits_insert(start: usize, end: usize) -> bool;

    /// The value of the field `start..=end` of `self`, as a `B`.
    spec fn extracted(self, start: usize, end: usize) -> B;

    /// `self` with the field `start..=end` set from `bits`.
    spec fn inserted(self, start: usize, end: usize, bits: B) -> Self;

    /// Reads the field `START..=END`.
    fn extract<const START: usize, const END: usize>(self) -> (bits: B)
        requires
            Self::fits_extract(START, END),
        ensures
            bits == self.extracted(START, END),
    ;

    /// Writes `bits` into the field `START..=END`, keeping every other bit.
    fn insert<const START: usize, const END: usize>(&mut self, bits: B)
        requires
            Self::fits_insert(START, END),
        ensures
            *final(self) == (*old(self)).inserted(START, END, bits),
    ;
}

/// This trait allows clone-free conversion from the bit representation.
pub trait FromBits<B>: Sized {
    /// The value that `bits` converts to.
    spec fn converted(bits: B) -> Self;

    /// Converts `bits`.
    fn from(bits: &B) -> (value: Self)
        ensures
            value == Self::converted(*bits),
    ;
}

/// This trait allows clone-free conversion into the bit representation.
pub trait IntoBits<B>: Sized {
    /// The bits that `self` converts to.
    spec fn converted_into(&self) -> B;

    /// Converts `self`.
    fn into(&self) -> (bits: B)
        ensures
            bits == self.converted_into(),
    ;
}

impl<T, Y: FromBits<T>> IntoBits<Y> for T {
    open spec fn converted_into(&self) -> Y {
        Y::converted(*self)
    }

    #[inline(always)]
    fn into(&self) -> (bits: Y) {
        <Y as FromBits<T>>::from(self)
    }
}

/// Reads the field `START..=END` of `bits` and converts it into an `R`.
#[inline(always)]
pub fn extract<B, T: Bits<B>, R: FromBits<B>, const START: usize, const END: usize>(bits: T) -> (value: R)
    requires
        T::fits_extract(START, END),
    ensures
        value == R::converted(bits.extracted(START, END)),
{
    let field = <T as Bits<B>>::extract::<START, END>(bits);
    <R as FromBits<B>>::from(&field)
}

/// Converts `bits` and writes it into the field `START..=END` of `value`.
#[inline(always)]
pub fn insert<B, T: Bits<B>, const START: usize, const END: usize>(
    value: &mut T,
    bits: &impl IntoBits<B>,
)
    requires
        T::fits_insert(START, END),
    ensures
        *final(value) == (*old(value)).inserted(START, END, bits.converted_into()),
{
    let converted = bits.into();
    <T as Bits<B>>::insert::<START, END>(value, converted);
}

/// How `as` narrows a `u16` into a smaller type: it keeps the low bits.
proof fn lemma_narrowing_u16(a: u16)
    by (bit_vector)
    ensures
        a as u8 == a % 0x100,
{
}

/// How `as` narrows a `u32` into a smaller type: it keeps the low bits.
proof fn lemma_narrowing_u32(b: u32)
    by (bit_vector)
    ensures
        b as u8 == b % 0x100,
        b as u16 == b % 0x1_0000,
{
}

/// How `as` narrows a `u64` into a smaller type: it keeps the low bits.
proof fn lemma_narrowing_u64(c: u64)
    by (bit_vector)
    ensures
        c as u8 == c % 0x100,
        c as u16 == c % 0x1_0000,
        c as u32 == c % 0x1_0000_0000,
{
}

/// How `as` narrows a `u128` into a smaller type: it keeps the low bits.
proof fn lemma_narrowing_u128(d: u128)
    by (bit_vector)
    ensures
        d as u8 == d % 0x100,
        d as u16 == d % 0x1_0000,
        d as u32 == d % 0x1_0000_0000,
        d as u64 == d % 0x1_0000_0000_0000_0000,
{
}

impl Bits<u8> for u8 {
    open spec fn fits_extract(start: usize, end: usize) -> bool {
        start <= end < 8 && end - start < 8
    }

    open spec fn fits_insert(start: usize, end: usize) -> bool {
        start <= end < 8
    }

    open spec fn extracted(self, start: usize, end: usize) -> u8 {
        field_of(self as int, start as nat, range_width(start as int, end as int)) as u8
    }

    open spec fn inserted(self, start: usize, end: usize, bits: u8) -> u8 {
        with_field(self as int, start as nat, range_width(start as int, end as int), bits as int) as u8
    }

    #[inline(always)]
    fn extract<const START: usize, const END: usize>(self) -> (bits: u8) {
        let field = read_field_u8(self, START as u8, END as u8);
        field as u8
    }

    #[inline(always)]
    fn insert<const START: usize, const END: usize>(&mut self, bits: u8) {
        write_field_u8(self, START as u8, END as u8, bits as u8);
    }
}

impl Bits<u16> for u8 {
    open spec fn fits_extract(start: usize, end: usize) -> bool {
        start <= end < 8 && end - start < 16
    }

    open spec fn fits_insert(start: usize, end: usize) -> bool {
        start <= end < 8
    }

    open spec fn extracted(self, start: usize, end: usize) -> u16 {
        field_of(self as int, start as nat, range_width(start as int, end as int)) as u16
    }

    open spec fn inserted(self, start: usize, end: usize, bits: u16) -> u8 {
        with_field(self as int, start as nat, range_width(start as int, end as int), bits as int) as u8
    }

    #[inline(always)]
    fn extract<const START: usize, const END: usize>(self) -> (bits: u16) {
        let field = read_field_u8(self, START as u8, END as u8);
        field as u16
    }

    #[inline(always)]
    fn insert<const START: usize, const END: usize>(&mut self, bits: u16) {
        proof {
            lemma_narrowing_u16(bits);
            lemma2_to64();
            lemma_low_bits_twice(bits as int, range_width(START as int, END as int), 8);
        }
        write_field_u8(self, START as u8, END as u8, bits as u8);
    }
}

impl Bits<u32> for u8 {
    open spec fn fits_extract(start: usize, end: usize) -> bool {
        start <= end < 8 && end - start < 32
    }

    open spec fn fits_insert(start: usize, end: usize) -> bool {
        start <= end < 8
    }

    open spec fn extracted(self, start: usize, end: usize) -> u32 {
        field_of(self as int, start as nat, range_width(start as int, end as int)) as u32
    }

    open spec fn inserted(self, start: usize, end: usize, bits: u32) -> u8 {
        with_field(self as int, start as nat, range_width(start as int, end as int), bits as int) as u8
    }

    #[inline(always)]
    fn extract<const START: usize, const END: usize>(self) -> (bits: u32) {
        let field = read_field_u8(self, START as u8, END as u8);
        field as u32
    }

    #[inline(always)]
    fn insert<const START: usize, const END: usize>(&mut self, bits: u32) {
        proof {
            lemma_narrowing_u32(bits);
            lemma2_to64();
            lemma_low_bits_twice(bits as int, range_width(START as int, END as int), 8);
        }
        write_field_u8(self, START as u8, END as u8, bits as u8);
    }
}

impl Bits<u64> for u8 {
    open spec fn fits_extract(start: usize, end: usize) -> bool {
        start <= end < 8 && end - start < 64
    }

    open spec fn fits_insert(start: usize, end: usize) -> bool {
        start <= end < 8
    }

    open spec fn extracted(self, start: usize, end: usize) -> u64 {
        field_of(self as int, start as nat, range_width(start as int, end as int)) as u64
    }

    open spec fn inserted(self, start: usize, end: usize, bits: u64) -> u8 {
        with_field(self as int, start as nat, range_width(start as int, end as int), bits as int) as u8
    }

    #[inline(always)]
    fn extract<const START: usize, const END: usize>(self) -> (bits: u64) {
        let field = read_field_u8(self, START as u8, END as u8);
        field as u64
    }

    #[inline(always)]
    fn insert<const START: usize, const END: usize>(&mut self, bits: u64) {
        proof {
            lemma_narrowing_u64(bits);
            lemma2_to64();
            lemma_low_bits_twice(bits as int, range_width(START as int, END as int), 8);
        }
        write_field_u8(self, START as u8, END as u8, bits as u8);
    }
}

impl Bits<u128> for u8 {
    open spec fn fits_extract(start: usize, end: usize) -> bool {
        start <= end < 8 && end - start < 128
    }

    open spec fn fits_insert(start: usize, end: usize) -> bool {
        start <= end < 8
    }

    open spec fn extracted(self, start: usize, end: usize) -> u128 {
        field_of(self as int, start as nat, range_width(start as int, end as int)) as u128
    }

    open spec fn inserted(self, start: usize, end: usize, bits: u128) -> u8 {
        with_field(self as int, start as nat, range_width(start as int, end as int), bits as int) as u8
    }

    #[inline(always)]
    fn extract<const START: usize, const END: usize>(self) -> (bits: u128) {
        let field = read_field_u8(self, START as u8, END as u8);
        field as u128
    }

    #[inline(always)]
    fn insert<const START: usize, const END: usize>(&mut self, bits: u128) {
        proof {
            lemma_narrowing_u128(bits);
            lemma2_to64();
            lemma_low_bits_twice(bits as int, range_width(START as int, END as int), 8);
        }
        write_field_u8(self, START as u8, END as u8, bits as u8);
    }
}

impl Bits<u8> for u16 {
    open spec fn fits_extract(start: usize, end: usize) -> bool {
        start <= end < 16 && end - start < 8
    }

    open spec fn fits_insert(start: usize, end: usize) -> bool {
        start <= end < 16
    }

    open spec fn extracted(self, start: usize, end: usize) -> u8 {
        field_of(self as int, start as nat, range_width(start as int, end as int)) as u8
    }

    open spec fn inserted(self, start: usize, end: usize, bits: u8) -> u16 {
        with_field(self as int, start as nat, range_width(start as int, end as int), bits as int) as u16
    }

    #[inline(always)]
    fn extract<const START: usize, const END: usize>(self) -> (bits: u8) {
        let field = read_field_u16(self, START as u16, END as u16);
        proof {
            lemma_field_of_bounds(self as int, START as nat, range_width(START as int, END as int));
            lemma_pow2_le(range_width(START as int, END as int), 8);
            lemma2_to64();
        }
        field as u8
    }

    #[inline(always)]
    fn insert<const START: usize, const END: usize>(&mut self, bits: u8) {
        write_field_u16(self, START as u16, END as u16, bits as u16);
    }
}

impl Bits<u16> for u16 {
    open spec fn fits_extract(start: usize, end: usize) -> bool {
        start <= end < 16 && end - start < 16
    }

    open spec fn fits_insert(start: usize, end: usize) -> bool {
        start <= end < 16
    }

    open spec fn extracted(self, start: usize, end: usize) -> u16 {
        field_of(self as int, start as nat, range_width(start as int, end as int)) as u16
    }

    open spec fn inserted(self, start: usize, end: usize, bits: u16) -> u16 {
        with_field(self as int, start as nat, range_width(start as int, end as int), bits as int) as u16
    }

    #[inline(always)]
    fn extract<const START: usize, const END: usize>(self) -> (bits: u16) {
        let field = read_field_u16(self, START as u16, END as u16);
        field as u16
    }

    #[inline(always)]
    fn insert<const START: usize, const END: usize>(&mut self, bits: u16) {
        write_field_u16(self, START as u16, END as u16, bits as u16);
    }
}

impl Bits<u32> for u16 {
    open spec fn fits_extract(start: usize, end: usize) -> bool {
        start <= end < 16 && end - start < 32
    }

    open spec fn fits_insert(start: usize, end: usize) -> bool {
        start <= end < 16
    }

    open spec fn extracted(self, start: usize, end: usize) -> u32 {
        field_of(self as int, start as nat, range_width(start as int, end as int)) as u32
    }

    open spec fn inserted(self, start: usize, end: usize, bits: u32) -> u16 {
        with_field(self as int, start as nat, range_width(start as int, end as int), bits as int) as u16
    }

    #[inline(always)]
    fn extract<const START: usize, const END: usize>(self) -> (bits: u32) {
        let field = read_field_u16(self, START as u16, END as u16);
        field as u32
    }

    #[inline(always)]
    fn insert<const START: usize, const END: usize>(&mut self, bits: u32) {
        proof {
            lemma_narrowing_u32(bits);
            lemma2_to64();
            lemma_low_bits_twice(bits as int, range_width(START as int, END as int), 16);
        }
        write_field_u16(self, START as u16, END as u16, bits as u16);
    }
}

impl Bits<u64> for u16 {
    open spec fn fits_extract(start: usize, end: usize) -> bool {
        start <= end < 16 && end - start < 64
    }

    open spec fn fits_insert(start: usize, end: usize) -> bool {
        start <= end < 16
    }

    open spec fn extracted(self, start: usize, end: usize) -> u64 {
        field_of(self as int, start as nat, range_width(start as int, end as int)) as u64
    }

    open spec fn inserted(self, start: usize, end: usize, bits: u64) -> u16 {
        with_field(self as int, start as nat, range_width(start as int, end as int), bits as int) as u16
    }

    #[inline(always)]
    fn extract<const START: usize, const END: usize>(self) -> (bits: u64) {
        let field = read_field_u16(self, START as u16, END as u16);
        field as u64
    }

    #[inline(always)]
    fn insert<const START: usize, const END: usize>(&mut self, bits: u64) {
        proof {
            lemma_narrowing_u64(bits);
            lemma2_to64();
            lemma_low_bits_twice(bits as int, range_width(START as int, END as int), 16);
        }
        write_field_u16(self, START as u16, END as u16, bits as u16);
    }
}

impl Bits<u128> for u16 {
    open spec fn fits_extract(start: usize, end: usize) -> bool {
        start <= end < 16 && end - start < 128
    }

    open spec fn fits_insert(start: usize, end: usize) -> bool {
        start <= end < 16
    }

    open spec fn extracted(self, start: usize, end: usize) -> u128 {
        field_of(self as int, start as nat, range_width(start as int, end as int)) as u128
    }

    open spec fn inserted(self, start: usize, end: usize, bits: u128) -> u16 {
        with_field(self as int, start as nat, range_width(start as int, end as int), bits as int) as u16
    }

    #[inline(always)]
    fn extract<const START: usize, const END: usize>(self) -> (bits: u128) {
        let field = read_field_u16(self, START as u16, END as u16);
        field as u128
    }

    #[inline(always)]
    fn insert<const START: usize, const END: usize>(&mut self, bits: u128) {
        proof {
            lemma_narrowing_u128(bits);
            lemma2_to64();
            lemma_low_bits_twice(bits as int, range_width(START as int, END as int), 16);
        }
        write_field_u16(self, START as u16, END as u16, bits as u16);
    }
}

impl Bits<u8> for u32 {
    open spec fn fits_extract(start: usize, end: usize) -> bool {
        start <= end < 32 && end - start < 8
    }

    open spec fn fits_insert(start: usize, end: usize) -> bool {
        start <= end < 32
    }

    open spec fn extracted(self, start: usize, end: usize) -> u8 {
        field_of(self as int, start as nat, range_width(start as int, end as int)) as u8
    }

    open spec fn inserted(self, start: usize, end: usize, bits: u8) -> u32 {
        with_field(self as int, start as nat, range_width(start as int, end as int), bits as int) as u32
    }

    #[inline(always)]
    fn extract<const START: usize, const END: usize>(self) -> (bits: u8) {
        let field = read_field_u32(self, START as u32, END as u32);
        proof {
            lemma_field_of_bounds(self as int, START as nat, range_width(START as int, END as int));
            lemma_pow2_le(range_width(START as int, END as int), 8);
            lemma2_to64();
        }
        field as u8
    }

    #[inline(always)]
    fn insert<const START: usize, const END: usize>(&mut self, bits: u8) {
        write_field_u32(self, START as u32, END as u32, bits as u32);
    }
}

impl Bits<u16> for u32 {
    open spec fn fits_extract(start: usize, end: usize) -> bool {
        start <= end < 32 && end - start < 16
    }

    open spec fn fits_insert(start: usize, end: usize) -> bool {
        start <= end < 32
    }

    open spec fn extracted(self, start: usize, end: usize) -> u16 {
        field_of(self as int, start as nat, range_width(start as int, end as int)) as u16
    }

    open spec fn inserted(self, start: usize, end: usize, bits: u16) -> u32 {
        with_field(self as int, start as nat, range_width(start as int, end as int), bits as int) as u32
    }

    #[inline(always)]
    fn extract<const START: usize, const END: usize>(self) -> (bits: u16) {
        let field = read_field_u32(self, START as u32, END as u32);
        proof {
            lemma_field_of_bounds(self as int, START as nat, range_width(START as int, END as int));
            lemma_pow2_le(range_width(START as int, END as int), 16);
            lemma2_to64();
        }
        field as u16
    }

    #[inline(always)]
    fn insert<const START: usize, const END: usize>(&mut self, bits: u16) {
        write_field_u32(self, START as u32, END as u32, bits as u32);
    }
}

impl Bits<u32> for u32 {
    open spec fn fits_extract(start: usize, end: usize) -> bool {
        start <= end < 32 && end - start < 32
    }

    open spec fn fits_insert(start: usize, end: usize) -> bool {
        start <= end < 32
    }

    open spec fn extracted(self, start: usize, end: usize) -> u32 {
        field_of(self as int, start as nat, range_width(start as int, end as int)) as u32
    }

    open spec fn inserted(self, start: usize, end: usize, bits: u32) -> u32 {
        with_field(self as int, start as nat, range_width(start as int, end as int), bits as int) as u32
    }

    #[inline(always)]
    fn extract<const START: usize, const END: usize>(self) -> (bits: u32) {
        let field = read_field_u32(self, START as u32, END as u32);
        field as u32
    }

    #[inline(always)]
    fn insert<const START: usize, const END: usize>(&mut self, bits: u32) {
        write_field_u32(self, START as u32, END as u32, bits as u32);
    }
}

impl Bits<u64> for u32 {
    open spec fn fits_extract(start: usize, end: usize) -> bool {
        start <= end < 32 && end - start < 64
    }

    open spec fn fits_insert(start: usize, end: usize) -> bool {
        start <= end < 32
    }

    open spec fn extracted(self, start: usize, end: usize) -> u64 {
        field_of(self as int, start as nat, range_width(start as int, end as int)) as u64
    }

    open spec fn inserted(self, start: usize, end: usize, bits: u64) -> u32 {
        with_field(self as int, start as nat, range_width(start as int, end as int), bits as int) as u32
    }

    #[inline(always)]
    fn extract<const START: usize, const END: usize>(self) -> (bits: u64) {
        let field = read_field_u32(self, START as u32, END as u32);
        field as u64
    }

    #[inline(always)]
    fn insert<const START: usize, const END: usize>(&mut self, bits: u64) {
        proof {
            lemma_narrowing_u64(bits);
            lemma2_to64();
            lemma_low_bits_twice(bits as int, range_width(START as int, END as int), 32);
        }
        write_field_u32(self, START as u32, END as u32, bits as u32);
    }
}

impl Bits<u128> for u32 {
    open spec fn fits_extract(start: usize, end: usize) -> bool {
        start <= end < 32 && end - start < 128
    }

    open spec fn fits_insert(start: usize, end: usize) -> bool {
        start <= end < 32
    }

    open spec fn extracted(self, start: usize, end: usize) -> u128 {
        field_of(self as int, start as nat, range_width(start as int, end as int)) as u128
    }

    open spec fn inserted(self, start: usize, end: usize, bits: u128) -> u32 {
        with_field(self as int, start as nat, range_width(start as int, end as int), bits as int) as u32
    }

    #[inline(always)]
    fn extract<const START: usize, const END: usize>(self) -> (bits: u128) {
        let field = read_field_u32(self, START as u32, END as u32);
        field as u128
    }

    #[inline(always)]
    fn insert<const START: usize, const END: usize>(&mut self, bits: u128) {
        proof {
            lemma_narrowing_u128(bits);
            lemma2_to64();
            lemma_low_bits_twice(bits as int, range_width(START as int, END as int), 32);
        }
        write_field_u32(self, START as u32, END as u32, bits as u32);
    }
}

impl Bits<u8> for u64 {
    open spec fn fits_extract(start: usize, end: usize) -> bool {
        start <= end < 64 && end - start < 8
    }

    open spec fn fits_insert(start: usize, end: usize) -> bool {
        start <= end < 64
    }

    open spec fn extracted(self, start: usize, end: usize) -> u8 {
        field_of(self as int, start as nat, range_width(start as int, end as int)) as u8
    }

    open spec fn inserted(self, start: usize, end: usize, bits: u8) -> u64 {
        with_field(self as int, start as nat, range_width(start as int, end as int), bits as int) as u64
    }

    #[inline(always)]
    fn extract<const START: usize, const END: usize>(self) -> (bits: u8) {
        let field = read_field_u64(self, START as u64, END as u64);
        proof {
            lemma_field_of_bounds(self as int, START as nat, range_width(START as int, END as int));
            lemma_pow2_le(range_width(START as int, END as int), 8);
            lemma2_to64();
        }
        field as u8
    }

    #[inline(always)]
    fn insert<const START: usize, const END: usize>(&mut self, bits: u8) {
        write_field_u64(self, START as u64, END as u64, bits as u64);
    }
}

impl Bits<u16> for u64 {
    open spec fn fits_extract(start: usize, end: usize) -> bool {
        start <= end < 64 && end - start < 16
    }

    open spec fn fits_insert(start: usize, end: usize) -> bool {
        start <= end < 64
    }

    open spec fn extracted(self, start: usize, end: usize) -> u16 {
        field_of(self as int, start as nat, range_width(start as int, end as int)) as u16
    }

    open spec fn inserted(self, start: usize, end: usize, bits: u16) -> u64 {
        with_field(self as int, start as nat, range_width(start as int, end as int), bits as int) as u64
    }

    #[inline(always)]
    fn extract<const START: usize, const END: usize>(self) -> (bits: u16) {
        let field = read_field_u64(self, START as u64, END as u64);
        proof {
            lemma_field_of_bounds(self as int, START as nat, range_width(START as int, END as int));
            lemma_pow2_le(range_width(START as int, END as int), 16);
            lemma2_to64();
        }
        field as u16
    }

    #[inline(always)]
    fn insert<const START: usize, const END: usize>(&mut self, bits: u16) {
        write_field_u64(self, START as u64, END as u64, bits as u64);
    }
}

impl Bits<u32> for u64 {
    open spec fn fits_extract(start: usize, end: usize) -> bool {
        start <= end < 64 && end - start < 32
    }

    open spec fn fits_insert(start: usize, end: usize) -> bool {
        start <= end < 64
    }

    open spec fn extracted(self, start: usize, end: usize) -> u32 {
        field_of(self as int, start as nat, range_width(start as int, end as int)) as u32
    }

    open spec fn inserted(self, start: usize, end: usize, bits: u32) -> u64 {
        with_field(self as int, start as nat, range_width(start as int, end as int), bits as int) as u64
    }

    #[inline(always)]
    fn extract<const START: usize, const END: usize>(self) -> (bits: u32) {
        let field = read_field_u64(self, START as u64, END as u64);
        proof {
            lemma_field_of_bounds(self as int, START as nat, range_width(START as int, END as int));
            lemma_pow2_le(range_width(START as int, END as int), 32);
            lemma2_to64();
        }
        field as u32
    }

    #[inline(always)]
    fn insert<const START: usize, const END: usize>(&mut self, bits: u32) {
        write_field_u64(self, START as u64, END as u64, bits as u64);
    }
}

impl Bits<u64> for u64 {
    open spec fn fits_extract(start: usize, end: usize) -> bool {
        start <= end < 64 && end - start < 64
    }

    open spec fn fits_insert(start: usize, end: usize) -> bool {
        start <= end < 64
    }

    open spec fn extracted(self, start: usize, end: usize) -> u64 {
        field_of(self as int, start as nat, range_width(start as int, end as int)) as u64
    }

    open spec fn inserted(self, start: usize, end: usize, bits: u64) -> u64 {
        with_field(self as int, start as nat, range_width(start as int, end as int), bits as int) as u64
    }

    #[inline(always)]
    fn extract<const START: usize, const END: usize>(self) -> (bits: u64) {
        let field = read_field_u64(self, START as u64, END as u64);
        field as u64
    }

    #[inline(always)]
    fn insert<const START: usize, const END: usize>(&mut self, bits: u64) {
        write_field_u64(self, START as u64, END as u64, bits as u64);
    }
}

impl Bits<u128> for u64 {
    open spec fn fits_extract(start: usize, end: usize) -> bool {
        start <= end < 64 && end - start < 128
    }

    open spec fn fits_insert(start: usize, end: usize) -> bool {
        start <= end < 64
    }

    open spec fn extracted(self, start: usize, end: usize) -> u128 {
        field_of(self as int, start as nat, range_width(start as int, end as int)) as u128
    }

    open spec fn inserted(self, start: usize, end: usize, bits: u128) -> u64 {
        with_field(self as int, start as nat, range_width(start as int, end as int), bits as int) as u64
    }

    #[inline(always)]
    fn extract<const START: usize, const END: usize>(self) -> (bits: u128) {
        let field = read_field_u64(self, START as u64, END as u64);
        field as u128
    }

    #[inline(always)]
    fn insert<const START: usize, const END: usize>(&mut self, bits: u128) {
        proof {
            lemma_narrowing_u128(bits);
            lemma2_to64();
            lemma_low_bits_twice(bits as int, range_width(START as int, END as int), 64);
        }
        write_field_u64(self, START as u64, END as u64, bits as u64);
    }
}

impl Bits<u8> for u128 {
    open spec fn fits_extract(start: usize, end: usize) -> bool {
        start <= end < 128 && end - start < 8
    }

    open spec fn fits_insert(start: usize, end: usize) -> bool {
        start <= end < 128
    }

    open spec fn extracted(self, start: usize, end: usize) -> u8 {
        field_of(self as int, start as nat, range_width(start as int, end as int)) as u8
    }

    open spec fn inserted(self, start: usize, end: usize, bits: u8) -> u128 {
        with_field(self as int, start as nat, range_width(start as int, end as int), bits as int) as u128
    }

    #[inline(always)]
    fn extract<const START: usize, const END: usize>(self) -> (bits: u8) {
        let field = read_field_u128(self, START as u128, END as u128);
        proof {
            lemma_field_of_bounds(self as int, START as nat, range_width(START as int, END as int));
            lemma_pow2_le(range_width(START as int, END as int), 8);
            lemma2_to64();
        }
        field as u8
    }

    #[inline(always)]
    fn insert<const START: usize, const END: usize>(&mut self, bits: u8) {
        write_field_u128(self, START as u128, END as u128, bits as u128);
    }
}

impl Bits<u16> for u128 {
    open spec fn fits_extract(start: usize, end: usize) -> bool {
        start <= end < 128 && end - start < 16
    }

    open spec fn fits_insert(start: usize, end: usize) -> bool {
        start <= end < 128
    }

    open spec fn extracted(self, start: usize, end: usize) -> u16 {
        field_of(self as int, start as nat, range_width(start as int, end as int)) as u16
    }

    open spec fn inserted(self, start: usize, end: usize, bits: u16) -> u128 {
        with_field(self as int, start as nat, range_width(start as int, end as int), bits as int) as u128
    }

    #[inline(always)]
    fn extract<const START: usize, const END: usize>(self) -> (bits: u16) {
        let field = read_field_u128(self, START as u128, END as u128);
        proof {
            lemma_field_of_bounds(self as int, START as nat, range_width(START as int, END as int));
            lemma_pow2_le(range_width(START as int, END as int), 16);
            lemma2_to64();
        }
        field as u16
    }

    #[inline(always)]
    fn insert<const START: usize, const END: usize>(&mut self, bits: u16) {
        write_field_u128(self, START as u128, END as u128, bits as u128);
    }
}

impl Bits<u32> for u128 {
    open spec fn fits_extract(start: usize, end: usize) -> bool {
        start <= end < 128 && end - start < 32
    }

    open spec fn fits_insert(start: usize, end: usize) -> bool {
        start <= end < 128
    }

    open spec fn extracted(self, start: usize, end: usize) -> u32 {
        field_of(self as int, start as nat, range_width(start as int, end as int)) as u32
    }

    open spec fn inserted(self, start: usize, end: usize, bits: u32) -> u128 {
        with_field(self as int, start as nat, range_width(start as int, end as int), bits as int) as u128
    }

    #[inline(always)]
    fn extract<const START: usize, const END: usize>(self) -> (bits: u32) {
        let field = read_field_u128(self, START as u128, END as u128);
        proof {
            lemma_field_of_bounds(self as int, START as nat, range_width(START as int, END as int));
            lemma_pow2_le(range_width(START as int, END as int), 32);
            lemma2_to64();
        }
        field as u32
    }

    #[inline(always)]
    fn insert<const START: usize, const END: usize>(&mut self, bits: u32) {
        write_field_u128(self, START as u128, END as u128, bits as u128);
    }
}

impl Bits<u64> for u128 {
    open spec fn fits_extract(start: usize, end: usize) -> bool {
        start <= end < 128 && end - start < 64
    }

    open spec fn fits_insert(start: usize, end: usize) -> bool {
        start <= end < 128
    }

    open spec fn extracted(self, start: usize, end: usize) -> u64 {
        field_of(self as int, start as nat, range_width(start as int, end as int)) as u64
    }

    open spec fn inserted(self, start: usize, end: usize, bits: u64) -> u128 {
        with_field(self as int, start as nat, range_width(start as int, end as int), bits as int) as u128
    }

    #[inline(always)]
    fn extract<const START: usize, const END: usize>(self) -> (bits: u64) {
        let field = read_field_u128(self, START as u128, END as u128);
        proof {
            lemma_field_of_bounds(self as int, START as nat, range_width(START as int, END as int));
            lemma_pow2_le(range_width(START as int, END as int), 64);
            lemma2_to64();
        }
        field as u64
    }

    #[inline(always)]
    fn insert<const START: usize, const END: usize>(&mut self, bits: u64) {
        write_field_u128(self, START as u128, END as u128, bits as u128);
    }
}

impl Bits<u128> for u128 {
    open spec fn fits_extract(start: usize, end: usize) -> bool {
        start <= end < 128 && end - start < 128
    }

    open spec fn fits_insert(start: usize, end: usize) -> bool {
        start <= end < 128
    }

    open spec fn extracted(self, start: usize, end: usize) -> u128 {
        field_of(self as int, start as nat, range_width(start as int, end as int)) as u128
    }

    open spec fn inserted(self, start: usize, end: usize, bits: u128) -> u128 {
        with_field(self as int, start as nat, range_width(start as int, end as int), bits as int) as u128
    }

    #[inline(always)]
    fn extract<const START: usize, const END: usize>(self) -> (bits: u128) {
        let field = read_field_u128(self, START as u128, END as u128);
        field as u128
    }

    #[inline(always)]
    fn insert<const START: usize, const END: usize>(&mut self, bits: u128) {
        write_field_u128(self, START as u128, END as u128, bits as u128);
    }
}

impl FromBits<u8> for u8 {
    open spec fn converted(bits: u8) -> u8 {
        (bits as int % (pow2(8) as int)) as u8
    }

    #[inline(always)]
    fn from(bits: &u8) -> (value: u8) {
        proof {
            lemma_pow2_le(8, 8);
            lemma2_to64();
            lemma_small_mod(*bits as nat, pow2(8));
        }
        *bits as u8
    }
}

impl FromBits<u16> for u8 {
    open spec fn converted(bits: u16) -> u8 {
        (bits as int % (pow2(8) as int)) as u8
    }

    #[inline(always)]
    fn from(bits: &u16) -> (value: u8) {
        proof {
            lemma_narrowing_u16(*bits);
            lemma2_to64();
        }
        *bits as u8
    }
}

impl FromBits<u32> for u8 {
    open spec fn converted(bits: u32) -> u8 {
        (bits as int % (pow2(8) as int)) as u8
    }

    #[inline(always)]
    fn from(bits: &u32) -> (value: u8) {
        proof {
            lemma_narrowing_u32(*bits);
            lemma2_to64();
        }
        *bits as u8
    }
}

impl FromBits<u64> for u8 {
    open spec fn converted(bits: u64) -> u8 {
        (bits as int % (pow2(8) as int)) as u8
    }

    #[inline(always)]
    fn from(bits: &u64) -> (value: u8) {
        proof {
            lemma_narrowing_u64(*bits);
            lemma2_to64();
        }
        *bits as u8
    }
}

impl FromBits<u128> for u8 {
    open spec fn converted(bits: u128) -> u8 {
        (bits as int % (pow2(8) as int)) as u8
    }

    #[inline(always)]
    fn from(bits: &u128) -> (value: u8) {
        proof {
            lemma_narrowing_u128(*bits);
            lemma2_to64();
        }
        *bits as u8
    }
}

impl FromBits<u8> for u16 {
    open spec fn converted(bits: u8) -> u16 {
        (bits as int % (pow2(16) as int)) as u16
    }

    #[inline(always)]
    fn from(bits: &u8) -> (value: u16) {
        proof {
            lemma_pow2_le(8, 16);
            lemma2_to64();
            lemma_small_mod(*bits as nat, pow2(16));
        }
        *bits as u16
    }
}

impl FromBits<u16> for u16 {
    open spec fn converted(bits: u16) -> u16 {
        (bits as int % (pow2(16) as int)) as u16
    }

    #[inline(always)]
    fn from(bits: &u16) -> (value: u16) {
        proof {
            lemma_pow2_le(16, 16);
            lemma2_to64();
            lemma_small_mod(*bits as nat, pow2(16));
        }
        *bits as u16
    }
}

impl FromBits<u32> for u16 {
    open spec fn converted(bits: u32) -> u16 {
        (bits as int % (pow2(16) as int)) as u16
    }

    #[inline(always)]
    fn from(bits: &u32) -> (value: u16) {
        proof {
            lemma_narrowing_u32(*bits);
            lemma2_to64();
        }
        *bits as u16
    }
}

impl FromBits<u64> for u16 {
    open spec fn converted(bits: u64) -> u16 {
        (bits as int % (pow2(16) as int)) as u16
    }

    #[inline(always)]
    fn from(bits: &u64) -> (value: u16) {
        proof {
            lemma_narrowing_u64(*bits);
            lemma2_to64();
        }
        *bits as u16
    }
}

impl FromBits<u128> for u16 {
    open spec fn converted(bits: u128) -> u16 {
        (bits as int % (pow2(16) as int)) as u16
    }

    #[inline(always)]
    fn from(bits: &u128) -> (value: u16) {
        proof {
            lemma_narrowing_u128(*bits);
            lemma2_to64();
        }
        *bits as u16
    }
}

impl FromBits<u8> for u32 {
    open spec fn converted(bits: u8) -> u32 {
        (bits as int % (pow2(32) as int)) as u32
    }

    #[inline(always)]
    fn from(bits: &u8) -> (value: u32) {
        proof {
            lemma_pow2_le(8, 32);
            lemma2_to64();
            lemma_small_mod(*bits as nat, pow2(32));
        }
        *bits as u32
    }
}

impl FromBits<u16> for u32 {
    open spec fn converted(bits: u16) -> u32 {
        (bits as int % (pow2(32) as int)) as u32
    }

    #[inline(always)]
    fn from(bits: &u16) -> (value: u32) {
        proof {
            lemma_pow2_le(16, 32);
            lemma2_to64();
            lemma_small_mod(*bits as nat, pow2(32));
        }
        *bits as u32
    }
}

impl FromBits<u32> for u32 {
    open spec fn converted(bits: u32) -> u32 {
        (bits as int % (pow2(32) as int)) as u32
    }

    #[inline(always)]
    fn from(bits: &u32) -> (value: u32) {
        proof {
            lemma_pow2_le(32, 32);
            lemma2_to64();
            lemma_small_mod(*bits as nat, pow2(32));
        }
        *bits as u32
    }
}

impl FromBits<u64> for u32 {
    open spec fn converted(bits: u64) -> u32 {
        (bits as int % (pow2(32) as int)) as u32
    }

    #[inline(always)]
    fn from(bits: &u64) -> (value: u32) {
        proof {
            lemma_narrowing_u64(*bits);
            lemma2_to64();
        }
        *bits as u32
    }
}

impl FromBits<u128> for u32 {
    open spec fn converted(bits: u128) -> u32 {
        (bits as int % (pow2(32) as int)) as u32
    }

    #[inline(always)]
    fn from(bits: &u128) -> (value: u32) {
        proof {
            lemma_narrowing_u128(*bits);
            lemma2_to64();
        }
        *bits as u32
    }
}

impl FromBits<u8> for u64 {
    open spec fn converted(bits: u8) -> u64 {
        (bits as int % (pow2(64) as int)) as u64
    }

    #[inline(always)]
    fn from(bits: &u8) -> (value: u64) {
        proof {
            lemma_pow2_le(8, 64);
            lemma2_to64();
            lemma_small_mod(*bits as nat, pow2(64));
        }
        *bits as u64
    }
}

impl FromBits<u16> for u64 {
    open spec fn converted(bits: u16) -> u64 {
        (bits as int % (pow2(64) as int)) as u64
    }

    #[inline(always)]
    fn from(bits: &u16) -> (value: u64) {
        proof {
            lemma_pow2_le(16, 64);
            lemma2_to64();
            lemma_small_mod(*bits as nat, pow2(64));
        }
        *bits as u64
    }
}

impl FromBits<u32> for u64 {
    open spec fn converted(bits: u32) -> u64 {
        (bits as int % (pow2(64) as int)) as u64
    }

    #[inline(always)]
    fn from(bits: &u32) -> (value: u64) {
        proof {
            lemma_pow2_le(32, 64);
            lemma2_to64();
            lemma_small_mod(*bits as nat, pow2(64));
        }
        *bits as u64
    }
}

impl FromBits<u64> for u64 {
    open spec fn converted(bits: u64) -> u64 {
        (bits as int % (pow2(64) as int)) as u64
    }

    #[inline(always)]
    fn from(bits: &u64) -> (value: u64) {
        proof {
            lemma_pow2_le(64, 64);
            lemma2_to64();
            lemma_small_mod(*bits as nat, pow2(64));
        }
        *bits as u64
    }
}

impl FromBits<u128> for u64 {
    open spec fn converted(bits: u128) -> u64 {
        (bits as int % (pow2(64) as int)) as u64
    }

    #[inline(always)]
    fn from(bits: &u128) -> (value: u64) {
        proof {
            lemma_narrowing_u128(*bits);
            lemma2_to64();
        }
        *bits as u64
    }
}

impl FromBits<u8> for u128 {
    open spec fn converted(bits: u8) -> u128 {
        (bits as int % (pow2(128) as int)) as u128
    }

    #[inline(always)]
    fn from(bits: &u8) -> (value: u128) {
        proof {
            lemma_pow2_le(8, 128);
            lemma2_to64();
            lemma_pow2_128();
            lemma_small_mod(*bits as nat, pow2(128));
        }
        *bits as u128
    }
}

impl FromBits<u16> for u128 {
    open spec fn converted(bits: u16) -> u128 {
        (bits as int % (pow2(128) as int)) as u128
    }

    #[inline(always)]
    fn from(bits: &u16) -> (value: u128) {
        proof {
            lemma_pow2_le(16, 128);
            lemma2_to64();
            lemma_pow2_128();
            lemma_small_mod(*bits as nat, pow2(128));
        }
        *bits as u128
    }
}

impl FromBits<u32> for u128 {
    open spec fn converted(bits: u32) -> u128 {
        (bits as int % (pow2(128) as int)) as u128
    }

    #[inline(always)]
    fn from(bits: &u32) -> (value: u128) {
        proof {
            lemma_pow2_le(32, 128);
            lemma2_to64();
            lemma_pow2_128();
            lemma_small_mod(*bits as nat, pow2(128));
        }
        *bits as u128
    }
}

impl FromBits<u64> for u128 {
    open spec fn converted(bits: u64) -> u128 {
        (bits as int % (pow2(128) as int)) as u128
    }

    #[inline(always)]
    fn from(bits: &u64) -> (value: u128) {
        proof {
            lemma_pow2_le(64, 128);
            lemma2_to64();
            lemma_pow2_128();
            lemma_small_mod(*bits as nat, pow2(128));
        }
        *bits as u128
    }
}

impl FromBits<u128> for u128 {
    open spec fn converted(bits: u128) -> u128 {
        (bits as int % (pow2(128) as int)) as u128
    }

    #[inline(always)]
    fn from(bits: &u128) -> (value: u128) {
        proof {
            lemma_pow2_le(128, 128);
            lemma_pow2_128();
            lemma_small_mod(*bits as nat, pow2(128));
        }
        *bits as u128
    }
}


/// A field of up to `nb` bits holds what fits in `nb` bits, and a value below
/// `2^width` is its own low `width` bits.
proof fn lemma_fits_field(width: nat, other_width: nat, x: int, nb: nat)
    requires
        0 <= x,
    ensures
        width <= nb ==> pow2(width) <= pow2(nb),
        other_width <= nb ==> pow2(other_width) <= pow2(nb),
        x < pow2(width) ==> x % (pow2(width) as int) == x,
{
    if width <= nb {
        lemma_pow2_le(width, nb);
    }
    if other_width <= nb {
        lemma_pow2_le(other_width, nb);
    }
    if x < pow2(width) {
        lemma_small_mod(x as nat, pow2(width));
    }
}

/// The fields of a `u8` written from and read into `u8`s. A field reads
/// back the low bits last written to it, so all of a value that fits; writing
/// back what a field holds changes nothing; the last of two writes to a
/// field wins; and a write leaves every field apart from it as it was, so
/// that writes to fields apart from each other can be made in either order.
pub proof fn lemma_fields_u8_u8(
    v: u8,
    start: usize,
    end: usize,
    x: u8,
    y: u8,
    other_start: usize,
    other_end: usize,
)
    requires
        <u8 as Bits<u8>>::fits_insert(start, end),
        <u8 as Bits<u8>>::fits_insert(other_start, other_end),
    ensures
        <u8 as Bits<u8>>::fits_extract(start, end) ==> <u8 as Bits<u8>>::extracted(<u8 as Bits<u8>>::inserted(v, start, end, x), start, end)
            == (x as int % (pow2(range_width(start as int, end as int)) as int)) as u8,
        <u8 as Bits<u8>>::fits_extract(start, end) && x < pow2(range_width(start as int, end as int))
            ==> <u8 as Bits<u8>>::extracted(<u8 as Bits<u8>>::inserted(v, start, end, x), start, end) == x,
        <u8 as Bits<u8>>::fits_extract(start, end) ==> <u8 as Bits<u8>>::inserted(v, start, end, <u8 as Bits<u8>>::extracted(v, start, end)) == v,
        <u8 as Bits<u8>>::inserted(<u8 as Bits<u8>>::inserted(v, start, end, x), start, end, y) == <u8 as Bits<u8>>::inserted(v, start, end, y),
        fields_apart(
            start as nat,
            range_width(start as int, end as int),
            other_start as nat,
            range_width(other_start as int, other_end as int),
        ) ==> {
            &&& <u8 as Bits<u8>>::fits_extract(other_start, other_end) ==> <u8 as Bits<u8>>::extracted(
                <u8 as Bits<u8>>::inserted(v, start, end, x),
                other_start,
                other_end,
            ) == <u8 as Bits<u8>>::extracted(v, other_start, other_end)
            &&& <u8 as Bits<u8>>::inserted(<u8 as Bits<u8>>::inserted(v, start, end, x), other_start, other_end, y)
                == <u8 as Bits<u8>>::inserted(<u8 as Bits<u8>>::inserted(v, other_start, other_end, y), start, end, x)
        },
{
    let w = range_width(start as int, end as int);
    let ow = range_width(other_start as int, other_end as int);
    lemma2_to64();
    lemma_pow2_le(start as nat + w, 8);
    lemma_pow2_le(other_start as nat + ow, 8);
    lemma_field_laws(v as int, start as nat, w, x as int, y as int, other_start as nat, ow, 8);
    lemma_fits_field(w, ow, x as int, 8);
}

/// The fields of a `u8` written from and read into `u16`s. A field reads
/// back the low bits last written to it, so all of a value that fits; writing
/// back what a field holds changes nothing; the last of two writes to a
/// field wins; and a write leaves every field apart from it as it was, so
/// that writes to fields apart from each other can be made in either order.
pub proof fn lemma_fields_u8_u16(
    v: u8,
    start: usize,
    end: usize,
    x: u16,
    y: u16,
    other_start: usize,
    other_end: usize,
)
    requires
        <u8 as Bits<u16>>::fits_insert(start, end),
        <u8 as Bits<u16>>::fits_insert(other_start, other_end),
    ensures
        <u8 as Bits<u16>>::fits_extract(start, end) ==> <u8 as Bits<u16>>::extracted(<u8 as Bits<u16>>::inserted(v, start, end, x), start, end)
            == (x as int % (pow2(range_width(start as int, end as int)) as int)) as u16,
        <u8 as Bits<u16>>::fits_extract(start, end) && x < pow2(range_width(start as int, end as int))
            ==> <u8 as Bits<u16>>::extracted(<u8 as Bits<u16>>::inserted(v, start, end, x), start, end) == x,
        <u8 as Bits<u16>>::fits_extract(start, end) ==> <u8 as Bits<u16>>::inserted(v, start, end, <u8 as Bits<u16>>::extracted(v, start, end)) == v,
        <u8 as Bits<u16>>::inserted(<u8 as Bits<u16>>::inserted(v, start, end, x), start, end, y) == <u8 as Bits<u16>>::inserted(v, start, end, y),
        fields_apart(
            start as nat,
            range_width(start as int, end as int),
            other_start as nat,
            range_width(other_start as int, other_end as int),
        ) ==> {
            &&& <u8 as Bits<u16>>::fits_extract(other_start, other_end) ==> <u8 as Bits<u16>>::extracted(
                <u8 as Bits<u16>>::inserted(v, start, end, x),
                other_start,
                other_end,
            ) == <u8 as Bits<u16>>::extracted(v, other_start, other_end)
            &&& <u8 as Bits<u16>>::inserted(<u8 as Bits<u16>>::inserted(v, start, end, x), other_start, other_end, y)
                == <u8 as Bits<u16>>::inserted(<u8 as Bits<u16>>::inserted(v, other_start, other_end, y), start, end, x)
        },
{
    let w = range_width(start as int, end as int);
    let ow = range_width(other_start as int, other_end as int);
    lemma2_to64();
    lemma_pow2_le(start as nat + w, 8);
    lemma_pow2_le(other_start as nat + ow, 8);
    lemma_field_laws(v as int, start as nat, w, x as int, y as int, other_start as nat, ow, 8);
    lemma_fits_field(w, ow, x as int, 16);
}

/// The fields of a `u8` written from and read into `u32`s. A field reads
/// back the low bits last written to it, so all of a value that fits; writing
/// back what a field holds changes nothing; the last of two writes to a
/// field wins; and a write leaves every field apart from it as it was, so
/// that writes to fields apart from each other can be made in either order.
pub proof fn lemma_fields_u8_u32(
    v: u8,
    start: usize,
    end: usize,
    x: u32,
    y: u32,
    other_start: usize,
    other_end: usize,
)
    requires
        <u8 as Bits<u32>>::fits_insert(start, end),
        <u8 as Bits<u32>>::fits_insert(other_start, other_end),
    ensures
        <u8 as Bits<u32>>::fits_extract(start, end) ==> <u8 as Bits<u32>>::extracted(<u8 as Bits<u32>>::inserted(v, start, end, x), start, end)
            == (x as int % (pow2(range_width(start as int, end as int)) as int)) as u32,
        <u8 as Bits<u32>>::fits_extract(start, end) && x < pow2(range_width(start as int, end as int))
            ==> <u8 as Bits<u32>>::extracted(<u8 as Bits<u32>>::inserted(v, start, end, x), start, end) == x,
        <u8 as Bits<u32>>::fits_extract(start, end) ==> <u8 as Bits<u32>>::inserted(v, start, end, <u8 as Bits<u32>>::extracted(v, start, end)) == v,
        <u8 as Bits<u32>>::inserted(<u8 as Bits<u32>>::inserted(v, start, end, x), start, end, y) == <u8 as Bits<u32>>::inserted(v, start, end, y),
        fields_apart(
            start as nat,
            range_width(start as int, end as int),
            other_start as nat,
            range_width(other_start as int, other_end as int),
        ) ==> {
            &&& <u8 as Bits<u32>>::fits_extract(other_start, other_end) ==> <u8 as Bits<u32>>::extracted(
                <u8 as Bits<u32>>::inserted(v, start, end, x),
                other_start,
                other_end,
            ) == <u8 as Bits<u32>>::extracted(v, other_start, other_end)
            &&& <u8 as Bits<u32>>::inserted(<u8 as Bits<u32>>::inserted(v, start, end, x), other_start, other_end, y)
                == <u8 as Bits<u32>>::inserted(<u8 as Bits<u32>>::inserted(v, other_start, other_end, y), start, end, x)
        },
{
    let w = range_width(start as int, end as int);
    let ow = range_width(other_start as int, other_end as int);
    lemma2_to64();
    lemma_pow2_le(start as nat + w, 8);
    lemma_pow2_le(other_start as nat + ow, 8);
    lemma_field_laws(v as int, start as nat, w, x as int, y as int, other_start as nat, ow, 8);
    lemma_fits_field(w, ow, x as int, 32);
}

/// The fields of a `u8` written from and read into `u64`s. A field reads
/// back the low bits last written to it, so all of a value that fits; writing
/// back what a field holds changes nothing; the last of two writes to a
/// field wins; and a write leaves every field apart from it as it was, so
/// that writes to fields apart from each other can be made in either order.
pub proof fn lemma_fields_u8_u64(
    v: u8,
    start: usize,
    end: usize,
    x: u64,
    y: u64,
    other_start: usize,
    other_end: usize,
)
    requires
        <u8 as Bits<u64>>::fits_insert(start, end),
        <u8 as Bits<u64>>::fits_insert(other_start, other_end),
    ensures
        <u8 as Bits<u64>>::fits_extract(start, end) ==> <u8 as Bits<u64>>::extracted(<u8 as Bits<u64>>::inserted(v, start, end, x), start, end)
            == (x as int % (pow2(range_width(start as int, end as int)) as int)) as u64,
        <u8 as Bits<u64>>::fits_extract(start, end) && x < pow2(range_width(start as int, end as int))
            ==> <u8 as Bits<u64>>::extracted(<u8 as Bits<u64>>::inserted(v, start, end, x), start, end) == x,
        <u8 as Bits<u64>>::fits_extract(start, end) ==> <u8 as Bits<u64>>::inserted(v, start, end, <u8 as Bits<u64>>::extracted(v, start, end)) == v,
        <u8 as Bits<u64>>::inserted(<u8 as Bits<u64>>::inserted(v, start, end, x), start, end, y) == <u8 as Bits<u64>>::inserted(v, start, end, y),
        fields_apart(
            start as nat,
            range_width(start as int, end as int),
            other_start as nat,
            range_width(other_start as int, other_end as int),
        ) ==> {
            &&& <u8 as Bits<u64>>::fits_extract(other_start, other_end) ==> <u8 as Bits<u64>>::extracted(
                <u8 as Bits<u64>>::inserted(v, start, end, x),
                other_start,
                other_end,
            ) == <u8 as Bits<u64>>::extracted(v, other_start, other_end)
            &&& <u8 as Bits<u64>>::inserted(<u8 as Bits<u64>>::inserted(v, start, end, x), other_start, other_end, y)
                == <u8 as Bits<u64>>::inserted(<u8 as Bits<u64>>::inserted(v, other_start, other_end, y), start, end, x)
        },
{
    let w = range_width(start as int, end as int);
    let ow = range_width(other_start as int, other_end as int);
    lemma2_to64();
    lemma_pow2_le(start as nat + w, 8);
    lemma_pow2_le(other_start as nat + ow, 8);
    lemma_field_laws(v as int, start as nat, w, x as int, y as int, other_start as nat, ow, 8);
    lemma_fits_field(w, ow, x as int, 64);
}

/// The fields of a `u8` written from and read into `u128`s. A field reads
/// back the low bits last written to it, so all of a value that fits; writing
/// back what a field holds changes nothing; the last of two writes to a
/// field wins; and a write leaves every field apart from it as it was, so
/// that writes to fields apart from each other can be made in either order.
pub proof fn lemma_fields_u8_u128(
    v: u8,
    start: usize,
    end: usize,
    x: u128,
    y: u128,
    other_start: usize,
    other_end: usize,
)
    requires
        <u8 as Bits<u128>>::fits_insert(start, end),
        <u8 as Bits<u128>>::fits_insert(other_start, other_end),
    ensures
        <u8 as Bits<u128>>::fits_extract(start, end) ==> <u8 as Bits<u128>>::extracted(<u8 as Bits<u128>>::inserted(v, start, end, x), start, end)
            == (x as int % (pow2(range_width(start as int, end as int)) as int)) as u128,
        <u8 as Bits<u128>>::fits_extract(start, end) && x < pow2(range_width(start as int, end as int))
            ==> <u8 as Bits<u128>>::extracted(<u8 as Bits<u128>>::inserted(v, start, end, x), start, end) == x,
        <u8 as Bits<u128>>::fits_extract(start, end) ==> <u8 as Bits<u128>>::inserted(v, start, end, <u8 as Bits<u128>>::extracted(v, start, end)) == v,
        <u8 as Bits<u128>>::inserted(<u8 as Bits<u128>>::inserted(v, start, end, x), start, end, y) == <u8 as Bits<u128>>::inserted(v, start, end, y),
        fields_apart(
            start as nat,
            range_width(start as int, end as int),
            other_start as nat,
            range_width(other_start as int, other_end as int),
        ) ==> {
            &&& <u8 as Bits<u128>>::fits_extract(other_start, other_end) ==> <u8 as Bits<u128>>::extracted(
                <u8 as Bits<u128>>::inserted(v, start, end, x),
                other_start,
                other_end,
            ) == <u8 as Bits<u128>>::extracted(v, other_start, other_end)
            &&& <u8 as Bits<u128>>::inserted(<u8 as Bits<u128>>::inserted(v, start, end, x), other_start, other_end, y)
                == <u8 as Bits<u128>>::inserted(<u8 as Bits<u128>>::inserted(v, other_start, other_end, y), start, end, x)
        },
{
    let w = range_width(start as int, end as int);
    let ow = range_width(other_start as int, other_end as int);
    lemma2_to64();
    lemma_pow2_128();
    lemma_pow2_le(start as nat + w, 8);
    lemma_pow2_le(other_start as nat + ow, 8);
    lemma_field_laws(v as int, start as nat, w, x as int, y as int, other_start as nat, ow, 8);
    lemma_fits_field(w, ow, x as int, 128);
}

/// The fields of a `u16` written from and read into `u8`s. A field reads
/// back the low bits last written to it, so all of a value that fits; writing
/// back what a field holds changes nothing; the last of two writes to a
/// field wins; and a write leaves every field apart from it as it was, so
/// that writes to fields apart from each other can be made in either order.
pub proof fn lemma_fields_u16_u8(
    v: u16,
    start: usize,
    end: usize,
    x: u8,
    y: u8,
    other_start: usize,
    other_end: usize,
)
    requires
        <u16 as Bits<u8>>::fits_insert(start, end),
        <u16 as Bits<u8>>::fits_insert(other_start, other_end),
    ensures
        <u16 as Bits<u8>>::fits_extract(start, end) ==> <u16 as Bits<u8>>::extracted(<u16 as Bits<u8>>::inserted(v, start, end, x), start, end)
            == (x as int % (pow2(range_width(start as int, end as int)) as int)) as u8,
        <u16 as Bits<u8>>::fits_extract(start, end) && x < pow2(range_width(start as int, end as int))
            ==> <u16 as Bits<u8>>::extracted(<u16 as Bits<u8>>::inserted(v, start, end, x), start, end) == x,
        <u16 as Bits<u8>>::fits_extract(start, end) ==> <u16 as Bits<u8>>::inserted(v, start, end, <u16 as Bits<u8>>::extracted(v, start, end)) == v,
        <u16 as Bits<u8>>::inserted(<u16 as Bits<u8>>::inserted(v, start, end, x), start, end, y) == <u16 as Bits<u8>>::inserted(v, start, end, y),
        fields_apart(
            start as nat,
            range_width(start as int, end as int),
            other_start as nat,
            range_width(other_start as int, other_end as int),
        ) ==> {
            &&& <u16 as Bits<u8>>::fits_extract(other_start, other_end) ==> <u16 as Bits<u8>>::extracted(
                <u16 as Bits<u8>>::inserted(v, start, end, x),
                other_start,
                other_end,
            ) == <u16 as Bits<u8>>::extracted(v, other_start, other_end)
            &&& <u16 as Bits<u8>>::inserted(<u16 as Bits<u8>>::inserted(v, start, end, x), other_start, other_end, y)
                == <u16 as Bits<u8>>::inserted(<u16 as Bits<u8>>::inserted(v, other_start, other_end, y), start, end, x)
        },
{
    let w = range_width(start as int, end as int);
    let ow = range_width(other_start as int, other_end as int);
    lemma2_to64();
    lemma_pow2_le(start as nat + w, 16);
    lemma_pow2_le(other_start as nat + ow, 16);
    lemma_field_laws(v as int, start as nat, w, x as int, y as int, other_start as nat, ow, 16);
    lemma_fits_field(w, ow, x as int, 8);
}

/// The fields of a `u16` written from and read into `u16`s. A field reads
/// back the low bits last written to it, so all of a value that fits; writing
/// back what a field holds changes nothing; the last of two writes to a
/// field wins; and a write leaves every field apart from it as it was, so
/// that writes to fields apart from each other can be made in either order.
pub proof fn lemma_fields_u16_u16(
    v: u16,
    start: usize,
    end: usize,
    x: u16,
    y: u16,
    other_start: usize,
    other_end: usize,
)
    requires
        <u16 as Bits<u16>>::fits_insert(start, end),
        <u16 as Bits<u16>>::fits_insert(other_start, other_end),
    ensures
        <u16 as Bits<u16>>::fits_extract(start, end) ==> <u16 as Bits<u16>>::extracted(<u16 as Bits<u16>>::inserted(v, start, end, x), start, end)
            == (x as int % (pow2(range_width(start as int, end as int)) as int)) as u16,
        <u16 as Bits<u16>>::fits_extract(start, end) && x < pow2(range_width(start as int, end as int))
            ==> <u16 as Bits<u16>>::extracted(<u16 as Bits<u16>>::inserted(v, start, end, x), start, end) == x,
        <u16 as Bits<u16>>::fits_extract(start, end) ==> <u16 as Bits<u16>>::inserted(v, start, end, <u16 as Bits<u16>>::extracted(v, start, end)) == v,
        <u16 as Bits<u16>>::inserted(<u16 as Bits<u16>>::inserted(v, start, end, x), start, end, y) == <u16 as Bits<u16>>::inserted(v, start, end, y),
        fields_apart(
            start as nat,
            range_width(start as int, end as int),
            other_start as nat,
            range_width(other_start as int, other_end as int),
        ) ==> {
            &&& <u16 as Bits<u16>>::fits_extract(other_start, other_end) ==> <u16 as Bits<u16>>::extracted(
                <u16 as Bits<u16>>::inserted(v, start, end, x),
                other_start,
                other_end,
            ) == <u16 as Bits<u16>>::extracted(v, other_start, other_end)
            &&& <u16 as Bits<u16>>::inserted(<u16 as Bits<u16>>::inserted(v, start, end, x), other_start, other_end, y)
                == <u16 as Bits<u16>>::inserted(<u16 as Bits<u16>>::inserted(v, other_start, other_end, y), start, end, x)
        },
{
    let w = range_width(start as int, end as int);
    let ow = range_width(other_start as int, other_end as int);
    lemma2_to64();
    lemma_pow2_le(start as nat + w, 16);
    lemma_pow2_le(other_start as nat + ow, 16);
    lemma_field_laws(v as int, start as nat, w, x as int, y as int, other_start as nat, ow, 16);
    lemma_fits_field(w, ow, x as int, 16);
}

/// The fields of a `u16` written from and read into `u32`s. A field reads
/// back the low bits last written to it, so all of a value that fits; writing
/// back what a field holds changes nothing; the last of two writes to a
/// field wins; and a write leaves every field apart from it as it was, so
/// that writes to fields apart from each other can be made in either order.
pub proof fn lemma_fields_u16_u32(
    v: u16,
    start: usize,
    end: usize,
    x: u32,
    y: u32,
    other_start: usize,
    other_end: usize,
)
    requires
        <u16 as Bits<u32>>::fits_insert(start, end),
        <u16 as Bits<u32>>::fits_insert(other_start, other_end),
    ensures
        <u16 as Bits<u32>>::fits_extract(start, end) ==> <u16 as Bits<u32>>::extracted(<u16 as Bits<u32>>::inserted(v, start, end, x), start, end)
            == (x as int % (pow2(range_width(start as int, end as int)) as int)) as u32,
        <u16 as Bits<u32>>::fits_extract(start, end) && x < pow2(range_width(start as int, end as int))
            ==> <u16 as Bits<u32>>::extracted(<u16 as Bits<u32>>::inserted(v, start, end, x), start, end) == x,
        <u16 as Bits<u32>>::fits_extract(start, end) ==> <u16 as Bits<u32>>::inserted(v, start, end, <u16 as Bits<u32>>::extracted(v, start, end)) == v,
        <u16 as Bits<u32>>::inserted(<u16 as Bits<u32>>::inserted(v, start, end, x), start, end, y) == <u16 as Bits<u32>>::inserted(v, start, end, y),
        fields_apart(
            start as nat,
            range_width(start as int, end as int),
            other_start as nat,
            range_width(other_start as int, other_end as int),
        ) ==> {
            &&& <u16 as Bits<u32>>::fits_extract(other_start, other_end) ==> <u16 as Bits<u32>>::extracted(
                <u16 as Bits<u32>>::inserted(v, start, end, x),
                other_start,
                other_end,
            ) == <u16 as Bits<u32>>::extracted(v, other_start, other_end)
            &&& <u16 as Bits<u32>>::inserted(<u16 as Bits<u32>>::inserted(v, start, end, x), other_start, other_end, y)
                == <u16 as Bits<u32>>::inserted(<u16 as Bits<u32>>::inserted(v, other_start, other_end, y), start, end, x)
        },
{
    let w = range_width(start as int, end as int);
    let ow = range_width(other_start as int, other_end as int);
    lemma2_to64();
    lemma_pow2_le(start as nat + w, 16);
    lemma_pow2_le(other_start as nat + ow, 16);
    lemma_field_laws(v as int, start as nat, w, x as int, y as int, other_start as nat, ow, 16);
    lemma_fits_field(w, ow, x as int, 32);
}

/// The fields of a `u16` written from and read into `u64`s. A field reads
/// back the low bits last written to it, so all of a value that fits; writing
/// back what a field holds changes nothing; the last of two writes to a
/// field wins; and a write leaves every field apart from it as it was, so
/// that writes to fields apart from each other can be made in either order.
pub proof fn lemma_fields_u16_u64(
    v: u16,
    start: usize,
    end: usize,
    x: u64,
    y: u64,
    other_start: usize,
    other_end: usize,
)
    requires
        <u16 as Bits<u64>>::fits_insert(start, end),
        <u16 as Bits<u64>>::fits_insert(other_start, other_end),
    ensures
        <u16 as Bits<u64>>::fits_extract(start, end) ==> <u16 as Bits<u64>>::extracted(<u16 as Bits<u64>>::inserted(v, start, end, x), start, end)
            == (x as int % (pow2(range_width(start as int, end as int)) as int)) as u64,
        <u16 as Bits<u64>>::fits_extract(start, end) && x < pow2(range_width(start as int, end as int))
            ==> <u16 as Bits<u64>>::extracted(<u16 as Bits<u64>>::inserted(v, start, end, x), start, end) == x,
        <u16 as Bits<u64>>::fits_extract(start, end) ==> <u16 as Bits<u64>>::inserted(v, start, end, <u16 as Bits<u64>>::extracted(v, start, end)) == v,
        <u16 as Bits<u64>>::inserted(<u16 as Bits<u64>>::inserted(v, start, end, x), start, end, y) == <u16 as Bits<u64>>::inserted(v, start, end, y),
        fields_apart(
            start as nat,
            range_width(start as int, end as int),
            other_start as nat,
            range_width(other_start as int, other_end as int),
        ) ==> {
            &&& <u16 as Bits<u64>>::fits_extract(other_start, other_end) ==> <u16 as Bits<u64>>::extracted(
                <u16 as Bits<u64>>::inserted(v, start, end, x),
                other_start,
                other_end,
            ) == <u16 as Bits<u64>>::extracted(v, other_start, other_end)
            &&& <u16 as Bits<u64>>::inserted(<u16 as Bits<u64>>::inserted(v, start, end, x), other_start, other_end, y)
                == <u16 as Bits<u64>>::inserted(<u16 as Bits<u64>>::inserted(v, other_start, other_end, y), start, end, x)
        },
{
    let w = range_width(start as int, end as int);
    let ow = range_width(other_start as int, other_end as int);
    lemma2_to64();
    lemma_pow2_le(start as nat + w, 16);
    lemma_pow2_le(other_start as nat + ow, 16);
    lemma_field_laws(v as int, start as nat, w, x as int, y as int, other_start as nat, ow, 16);
    lemma_fits_field(w, ow, x as int, 64);
}

/// The fields of a `u16` written from and read into `u128`s. A field reads
/// back the low bits last written to it, so all of a value that fits; writing
/// back what a field holds changes nothing; the last of two writes to a
/// field wins; and a write leaves every field apart from it as it was, so
/// that writes to fields apart from each other can be made in either order.
pub proof fn lemma_fields_u16_u128(
    v: u16,
    start: usize,
    end: usize,
    x: u128,
    y: u128,
    other_start: usize,
    other_end: usize,
)
    requires
        <u16 as Bits<u128>>::fits_insert(start, end),
        <u16 as Bits<u128>>::fits_insert(other_start, other_end),
    ensures
        <u16 as Bits<u128>>::fits_extract(start, end) ==> <u16 as Bits<u128>>::extracted(<u16 as Bits<u128>>::inserted(v, start, end, x), start, end)
            == (x as int % (pow2(range_width(start as int, end as int)) as int)) as u128,
        <u16 as Bits<u128>>::fits_extract(start, end) && x < pow2(range_width(start as int, end as int))
            ==> <u16 as Bits<u128>>::extracted(<u16 as Bits<u128>>::inserted(v, start, end, x), start, end) == x,
        <u16 as Bits<u128>>::fits_extract(start, end) ==> <u16 as Bits<u128>>::inserted(v, start, end, <u16 as Bits<u128>>::extracted(v, start, end)) == v,
        <u16 as Bits<u128>>::inserted(<u16 as Bits<u128>>::inserted(v, start, end, x), start, end, y) == <u16 as Bits<u128>>::inserted(v, start, end, y),
        fields_apart(
            start as nat,
            range_width(start as int, end as int),
            other_start as nat,
            range_width(other_start as int, other_end as int),
        ) ==> {
            &&& <u16 as Bits<u128>>::fits_extract(other_start, other_end) ==> <u16 as Bits<u128>>::extracted(
                <u16 as Bits<u128>>::inserted(v, start, end, x),
                other_start,
                other_end,
            ) == <u16 as Bits<u128>>::extracted(v, other_start, other_end)
            &&& <u16 as Bits<u128>>::inserted(<u16 as Bits<u128>>::inserted(v, start, end, x), other_start, other_end, y)
                == <u16 as Bits<u128>>::inserted(<u16 as Bits<u128>>::inserted(v, other_start, other_end, y), start, end, x)
        },
{
    let w = range_width(start as int, end as int);
    let ow = range_width(other_start as int, other_end as int);
    lemma2_to64();
    lemma_pow2_128();
    lemma_pow2_le(start as nat + w, 16);
    lemma_pow2_le(other_start as nat + ow, 16);
    lemma_field_laws(v as int, start as nat, w, x as int, y as int, other_start as nat, ow, 16);
    lemma_fits_field(w, ow, x as int, 128);
}

/// The fields of a `u32` written from and read into `u8`s. A field reads
/// back the low bits last written to it, so all of a value that fits; writing
/// back what a field holds changes nothing; the last of two writes to a
/// field wins; and a write leaves every field apart from it as it was, so
/// that writes to fields apart from each other can be made in either order.
pub proof fn lemma_fields_u32_u8(
    v: u32,
    start: usize,
    end: usize,
    x: u8,
    y: u8,
    other_start: usize,
    other_end: usize,
)
    requires
        <u32 as Bits<u8>>::fits_insert(start, end),
        <u32 as Bits<u8>>::fits_insert(other_start, other_end),
    ensures
        <u32 as Bits<u8>>::fits_extract(start, end) ==> <u32 as Bits<u8>>::extracted(<u32 as Bits<u8>>::inserted(v, start, end, x), start, end)
            == (x as int % (pow2(range_width(start as int, end as int)) as int)) as u8,
        <u32 as Bits<u8>>::fits_extract(start, end) && x < pow2(range_width(start as int, end as int))
            ==> <u32 as Bits<u8>>::extracted(<u32 as Bits<u8>>::inserted(v, start, end, x), start, end) == x,
        <u32 as Bits<u8>>::fits_extract(start, end) ==> <u32 as Bits<u8>>::inserted(v, start, end, <u32 as Bits<u8>>::extracted(v, start, end)) == v,
        <u32 as Bits<u8>>::inserted(<u32 as Bits<u8>>::inserted(v, start, end, x), start, end, y) == <u32 as Bits<u8>>::inserted(v, start, end, y),
        fields_apart(
            start as nat,
            range_width(start as int, end as int),
            other_start as nat,
            range_width(other_start as int, other_end as int),
        ) ==> {
            &&& <u32 as Bits<u8>>::fits_extract(other_start, other_end) ==> <u32 as Bits<u8>>::extracted(
                <u32 as Bits<u8>>::inserted(v, start, end, x),
                other_start,
                other_end,
            ) == <u32 as Bits<u8>>::extracted(v, other_start, other_end)
            &&& <u32 as Bits<u8>>::inserted(<u32 as Bits<u8>>::inserted(v, start, end, x), other_start, other_end, y)
                == <u32 as Bits<u8>>::inserted(<u32 as Bits<u8>>::inserted(v, other_start, other_end, y), start, end, x)
        },
{
    let w = range_width(start as int, end as int);
    let ow = range_width(other_start as int, other_end as int);
    lemma2_to64();
    lemma_pow2_le(start as nat + w, 32);
    lemma_pow2_le(other_start as nat + ow, 32);
    lemma_field_laws(v as int, start as nat, w, x as int, y as int, other_start as nat, ow, 32);
    lemma_fits_field(w, ow, x as int, 8);
}

/// The fields of a `u32` written from and read into `u16`s. A field reads
/// back the low bits last written to it, so all of a value that fits; writing
/// back what a field holds changes nothing; the last of two writes to a
/// field wins; and a write leaves every field apart from it as it was, so
/// that writes to fields apart from each other can be made in either order.
pub proof fn lemma_fields_u32_u16(
    v: u32,
    start: usize,
    end: usize,
    x: u16,
    y: u16,
    other_start: usize,
    other_end: usize,
)
    requires
        <u32 as Bits<u16>>::fits_insert(start, end),
        <u32 as Bits<u16>>::fits_insert(other_start, other_end),
    ensures
        <u32 as Bits<u16>>::fits_extract(start, end) ==> <u32 as Bits<u16>>::extracted(<u32 as Bits<u16>>::inserted(v, start, end, x), start, end)
            == (x as int % (pow2(range_width(start as int, end as int)) as int)) as u16,
        <u32 as Bits<u16>>::fits_extract(start, end) && x < pow2(range_width(start as int, end as int))
            ==> <u32 as Bits<u16>>::extracted(<u32 as Bits<u16>>::inserted(v, start, end, x), start, end) == x,
        <u32 as Bits<u16>>::fits_extract(start, end) ==> <u32 as Bits<u16>>::inserted(v, start, end, <u32 as Bits<u16>>::extracted(v, start, end)) == v,
        <u32 as Bits<u16>>::inserted(<u32 as Bits<u16>>::inserted(v, start, end, x), start, end, y) == <u32 as Bits<u16>>::inserted(v, start, end, y),
        fields_apart(
            start as nat,
            range_width(start as int, end as int),
            other_start as nat,
            range_width(other_start as int, other_end as int),
        ) ==> {
            &&& <u32 as Bits<u16>>::fits_extract(other_start, other_end) ==> <u32 as Bits<u16>>::extracted(
                <u32 as Bits<u16>>::inserted(v, start, end, x),
                other_start,
                other_end,
            ) == <u32 as Bits<u16>>::extracted(v, other_start, other_end)
            &&& <u32 as Bits<u16>>::inserted(<u32 as Bits<u16>>::inserted(v, start, end, x), other_start, other_end, y)
                == <u32 as Bits<u16>>::inserted(<u32 as Bits<u16>>::inserted(v, other_start, other_end, y), start, end, x)
        },
{
    let w = range_width(start as int, end as int);
    let ow = range_width(other_start as int, other_end as int);
    lemma2_to64();
    lemma_pow2_le(start as nat + w, 32);
    lemma_pow2_le(other_start as nat + ow, 32);
    lemma_field_laws(v as int, start as nat, w, x as int, y as int, other_start as nat, ow, 32);
    lemma_fits_field(w, ow, x as int, 16);
}

/// The fields of a `u32` written from and read into `u32`s. A field reads
/// back the low bits last written to it, so all of a value that fits; writing
/// back what a field holds changes nothing; the last of two writes to a
/// field wins; and a write leaves every field apart from it as it was, so
/// that writes to fields apart from each other can be made in either order.
pub proof fn lemma_fields_u32_u32(
    v: u32,
    start: usize,
    end: usize,
    x: u32,
    y: u32,
    other_start: usize,
    other_end: usize,
)
    requires
        <u32 as Bits<u32>>::fits_insert(start, end),
        <u32 as Bits<u32>>::fits_insert(other_start, other_end),
    ensures
        <u32 as Bits<u32>>::fits_extract(start, end) ==> <u32 as Bits<u32>>::extracted(<u32 as Bits<u32>>::inserted(v, start, end, x), start, end)
            == (x as int % (pow2(range_width(start as int, end as int)) as int)) as u32,
        <u32 as Bits<u32>>::fits_extract(start, end) && x < pow2(range_width(start as int, end as int))
            ==> <u32 as Bits<u32>>::extracted(<u32 as Bits<u32>>::inserted(v, start, end, x), start, end) == x,
        <u32 as Bits<u32>>::fits_extract(start, end) ==> <u32 as Bits<u32>>::inserted(v, start, end, <u32 as Bits<u32>>::extracted(v, start, end)) == v,
        <u32 as Bits<u32>>::inserted(<u32 as Bits<u32>>::inserted(v, start, end, x), start, end, y) == <u32 as Bits<u32>>::inserted(v, start, end, y),
        fields_apart(
            start as nat,
            range_width(start as int, end as int),
            other_start as nat,
            range_width(other_start as int, other_end as int),
        ) ==> {
            &&& <u32 as Bits<u32>>::fits_extract(other_start, other_end) ==> <u32 as Bits<u32>>::extracted(
                <u32 as Bits<u32>>::inserted(v, start, end, x),
                other_start,
                other_end,
            ) == <u32 as Bits<u32>>::extracted(v, other_start, other_end)
            &&& <u32 as Bits<u32>>::inserted(<u32 as Bits<u32>>::inserted(v, start, end, x), other_start, other_end, y)
                == <u32 as Bits<u32>>::inserted(<u32 as Bits<u32>>::inserted(v, other_start, other_end, y), start, end, x)
        },
{
    let w = range_width(start as int, end as int);
    let ow = range_width(other_start as int, other_end as int);
    lemma2_to64();
    lemma_pow2_le(start as nat + w, 32);
    lemma_pow2_le(other_start as nat + ow, 32);
    lemma_field_laws(v as int, start as nat, w, x as int, y as int, other_start as nat, ow, 32);
    lemma_fits_field(w, ow, x as int, 32);
}

/// The fields of a `u32` written from and read into `u64`s. A field reads
/// back the low bits last written to it, so all of a value that fits; writing
/// back what a field holds changes nothing; the last of two writes to a
/// field wins; and a write leaves every field apart from it as it was, so
/// that writes to fields apart from each other can be made in either order.
pub proof fn lemma_fields_u32_u64(
    v: u32,
    start: usize,
    end: usize,
    x: u64,
    y: u64,
    other_start: usize,
    other_end: usize,
)
    requires
        <u32 as Bits<u64>>::fits_insert(start, end),
        <u32 as Bits<u64>>::fits_insert(other_start, other_end),
    ensures
        <u32 as Bits<u64>>::fits_extract(start, end) ==> <u32 as Bits<u64>>::extracted(<u32 as Bits<u64>>::inserted(v, start, end, x), start, end)
            == (x as int % (pow2(range_width(start as int, end as int)) as int)) as u64,
        <u32 as Bits<u64>>::fits_extract(start, end) && x < pow2(range_width(start as int, end as int))
            ==> <u32 as Bits<u64>>::extracted(<u32 as Bits<u64>>::inserted(v, start, end, x), start, end) == x,
        <u32 as Bits<u64>>::fits_extract(start, end) ==> <u32 as Bits<u64>>::inserted(v, start, end, <u32 as Bits<u64>>::extracted(v, start, end)) == v,
        <u32 as Bits<u64>>::inserted(<u32 as Bits<u64>>::inserted(v, start, end, x), start, end, y) == <u32 as Bits<u64>>::inserted(v, start, end, y),
        fields_apart(
            start as nat,
            range_width(start as int, end as int),
            other_start as nat,
            range_width(other_start as int, other_end as int),
        ) ==> {
            &&& <u32 as Bits<u64>>::fits_extract(other_start, other_end) ==> <u32 as Bits<u64>>::extracted(
                <u32 as Bits<u64>>::inserted(v, start, end, x),
                other_start,
                other_end,
            ) == <u32 as Bits<u64>>::extracted(v, other_start, other_end)
            &&& <u32 as Bits<u64>>::inserted(<u32 as Bits<u64>>::inserted(v, start, end, x), other_start, other_end, y)
                == <u32 as Bits<u64>>::inserted(<u32 as Bits<u64>>::inserted(v, other_start, other_end, y), start, end, x)
        },
{
    let w = range_width(start as int, end as int);
    let ow = range_width(other_start as int, other_end as int);
    lemma2_to64();
    lemma_pow2_le(start as nat + w, 32);
    lemma_pow2_le(other_start as nat + ow, 32);
    lemma_field_laws(v as int, start as nat, w, x as int, y as int, other_start as nat, ow, 32);
    lemma_fits_field(w, ow, x as int, 64);
}

/// The fields of a `u32` written from and read into `u128`s. A field reads
/// back the low bits last written to it, so all of a value that fits; writing
/// back what a field holds changes nothing; the last of two writes to a
/// field wins; and a write leaves every field apart from it as it was, so
/// that writes to fields apart from each other can be made in either order.
pub proof fn lemma_fields_u32_u128(
    v: u32,
    start: usize,
    end: usize,
    x: u128,
    y: u128,
    other_start: usize,
    other_end: usize,
)
    requires
        <u32 as Bits<u128>>::fits_insert(start, end),
        <u32 as Bits<u128>>::fits_insert(other_start, other_end),
    ensures
        <u32 as Bits<u128>>::fits_extract(start, end) ==> <u32 as Bits<u128>>::extracted(<u32 as Bits<u128>>::inserted(v, start, end, x), start, end)
            == (x as int % (pow2(range_width(start as int, end as int)) as int)) as u128,
        <u32 as Bits<u128>>::fits_extract(start, end) && x < pow2(range_width(start as int, end as int))
            ==> <u32 as Bits<u128>>::extracted(<u32 as Bits<u128>>::inserted(v, start, end, x), start, end) == x,
        <u32 as Bits<u128>>::fits_extract(start, end) ==> <u32 as Bits<u128>>::inserted(v, start, end, <u32 as Bits<u128>>::extracted(v, start, end)) == v,
        <u32 as Bits<u128>>::inserted(<u32 as Bits<u128>>::inserted(v, start, end, x), start, end, y) == <u32 as Bits<u128>>::inserted(v, start, end, y),
        fields_apart(
            start as nat,
            range_width(start as int, end as int),
            other_start as nat,
            range_width(other_start as int, other_end as int),
        ) ==> {
            &&& <u32 as Bits<u128>>::fits_extract(other_start, other_end) ==> <u32 as Bits<u128>>::extracted(
                <u32 as Bits<u128>>::inserted(v, start, end, x),
                other_start,
                other_end,
            ) == <u32 as Bits<u128>>::extracted(v, other_start, other_end)
            &&& <u32 as Bits<u128>>::inserted(<u32 as Bits<u128>>::inserted(v, start, end, x), other_start, other_end, y)
                == <u32 as Bits<u128>>::inserted(<u32 as Bits<u128>>::inserted(v, other_start, other_end, y), start, end, x)
        },
{
    let w = range_width(start as int, end as int);
    let ow = range_width(other_start as int, other_end as int);
    lemma2_to64();
    lemma_pow2_128();
    lemma_pow2_le(start as nat + w, 32);
    lemma_pow2_le(other_start as nat + ow, 32);
    lemma_field_laws(v as int, start as nat, w, x as int, y as int, other_start as nat, ow, 32);
    lemma_fits_field(w, ow, x as int, 128);
}

/// The fields of a `u64` written from and read into `u8`s. A field reads
/// back the low bits last written to it, so all of a value that fits; writing
/// back what a field holds changes nothing; the last of two writes to a
/// field wins; and a write leaves every field apart from it as it was, so
/// that writes to fields apart from each other can be made in either order.
pub proof fn lemma_fields_u64_u8(
    v: u64,
    start: usize,
    end: usize,
    x: u8,
    y: u8,
    other_start: usize,
    other_end: usize,
)
    requires
        <u64 as Bits<u8>>::fits_insert(start, end),
        <u64 as Bits<u8>>::fits_insert(other_start, other_end),
    ensures
        <u64 as Bits<u8>>::fits_extract(start, end) ==> <u64 as Bits<u8>>::extracted(<u64 as Bits<u8>>::inserted(v, start, end, x), start, end)
            == (x as int % (pow2(range_width(start as int, end as int)) as int)) as u8,
        <u64 as Bits<u8>>::fits_extract(start, end) && x < pow2(range_width(start as int, end as int))
            ==> <u64 as Bits<u8>>::extracted(<u64 as Bits<u8>>::inserted(v, start, end, x), start, end) == x,
        <u64 as Bits<u8>>::fits_extract(start, end) ==> <u64 as Bits<u8>>::inserted(v, start, end, <u64 as Bits<u8>>::extracted(v, start, end)) == v,
        <u64 as Bits<u8>>::inserted(<u64 as Bits<u8>>::inserted(v, start, end, x), start, end, y) == <u64 as Bits<u8>>::inserted(v, start, end, y),
        fields_apart(
            start as nat,
            range_width(start as int, end as int),
            other_start as nat,
            range_width(other_start as int, other_end as int),
        ) ==> {
            &&& <u64 as Bits<u8>>::fits_extract(other_start, other_end) ==> <u64 as Bits<u8>>::extracted(
                <u64 as Bits<u8>>::inserted(v, start, end, x),
                other_start,
                other_end,
            ) == <u64 as Bits<u8>>::extracted(v, other_start, other_end)
            &&& <u64 as Bits<u8>>::inserted(<u64 as Bits<u8>>::inserted(v, start, end, x), other_start, other_end, y)
                == <u64 as Bits<u8>>::inserted(<u64 as Bits<u8>>::inserted(v, other_start, other_end, y), start, end, x)
        },
{
    let w = range_width(start as int, end as int);
    let ow = range_width(other_start as int, other_end as int);
    lemma2_to64();
    lemma_pow2_le(start as nat + w, 64);
    lemma_pow2_le(other_start as nat + ow, 64);
    lemma_field_laws(v as int, start as nat, w, x as int, y as int, other_start as nat, ow, 64);
    lemma_fits_field(w, ow, x as int, 8);
}

/// The fields of a `u64` written from and read into `u16`s. A field reads
/// back the low bits last written to it, so all of a value that fits; writing
/// back what a field holds changes nothing; the last of two writes to a
/// field wins; and a write leaves every field apart from it as it was, so
/// that writes to fields apart from each other can be made in either order.
pub proof fn lemma_fields_u64_u16(
    v: u64,
    start: usize,
    end: usize,
    x: u16,
    y: u16,
    other_start: usize,
    other_end: usize,
)
    requires
        <u64 as Bits<u16>>::fits_insert(start, end),
        <u64 as Bits<u16>>::fits_insert(other_start, other_end),
    ensures
        <u64 as Bits<u16>>::fits_extract(start, end) ==> <u64 as Bits<u16>>::extracted(<u64 as Bits<u16>>::inserted(v, start, end, x), start, end)
            == (x as int % (pow2(range_width(start as int, end as int)) as int)) as u16,
        <u64 as Bits<u16>>::fits_extract(start, end) && x < pow2(range_width(start as int, end as int))
            ==> <u64 as Bits<u16>>::extracted(<u64 as Bits<u16>>::inserted(v, start, end, x), start, end) == x,
        <u64 as Bits<u16>>::fits_extract(start, end) ==> <u64 as Bits<u16>>::inserted(v, start, end, <u64 as Bits<u16>>::extracted(v, start, end)) == v,
        <u64 as Bits<u16>>::inserted(<u64 as Bits<u16>>::inserted(v, start, end, x), start, end, y) == <u64 as Bits<u16>>::inserted(v, start, end, y),
        fields_apart(
            start as nat,
            range_width(start as int, end as int),
            other_start as nat,
            range_width(other_start as int, other_end as int),
        ) ==> {
            &&& <u64 as Bits<u16>>::fits_extract(other_start, other_end) ==> <u64 as Bits<u16>>::extracted(
                <u64 as Bits<u16>>::inserted(v, start, end, x),
                other_start,
                other_end,
            ) == <u64 as Bits<u16>>::extracted(v, other_start, other_end)
            &&& <u64 as Bits<u16>>::inserted(<u64 as Bits<u16>>::inserted(v, start, end, x), other_start, other_end, y)
                == <u64 as Bits<u16>>::inserted(<u64 as Bits<u16>>::inserted(v, other_start, other_end, y), start, end, x)
        },
{
    let w = range_width(start as int, end as int);
    let ow = range_width(other_start as int, other_end as int);
    lemma2_to64();
    lemma_pow2_le(start as nat + w, 64);
    lemma_pow2_le(other_start as nat + ow, 64);
    lemma_field_laws(v as int, start as nat, w, x as int, y as int, other_start as nat, ow, 64);
    lemma_fits_field(w, ow, x as int, 16);
}

/// The fields of a `u64` written from and read into `u32`s. A field reads
/// back the low bits last written to it, so all of a value that fits; writing
/// back what a field holds changes nothing; the last of two writes to a
/// field wins; and a write leaves every field apart from it as it was, so
/// that writes to fields apart from each other can be made in either order.
pub proof fn lemma_fields_u64_u32(
    v: u64,
    start: usize,
    end: usize,
    x: u32,
    y: u32,
    other_start: usize,
    other_end: usize,
)
    requires
        <u64 as Bits<u32>>::fits_insert(start, end),
        <u64 as Bits<u32>>::fits_insert(other_start, other_end),
    ensures
        <u64 as Bits<u32>>::fits_extract(start, end) ==> <u64 as Bits<u32>>::extracted(<u64 as Bits<u32>>::inserted(v, start, end, x), start, end)
            == (x as int % (pow2(range_width(start as int, end as int)) as int)) as u32,
        <u64 as Bits<u32>>::fits_extract(start, end) && x < pow2(range_width(start as int, end as int))
            ==> <u64 as Bits<u32>>::extracted(<u64 as Bits<u32>>::inserted(v, start, end, x), start, end) == x,
        <u64 as Bits<u32>>::fits_extract(start, end) ==> <u64 as Bits<u32>>::inserted(v, start, end, <u64 as Bits<u32>>::extracted(v, start, end)) == v,
        <u64 as Bits<u32>>::inserted(<u64 as Bits<u32>>::inserted(v, start, end, x), start, end, y) == <u64 as Bits<u32>>::inserted(v, start, end, y),
        fields_apart(
            start as nat,
            range_width(start as int, end as int),
            other_start as nat,
            range_width(other_start as int, other_end as int),
        ) ==> {
            &&& <u64 as Bits<u32>>::fits_extract(other_start, other_end) ==> <u64 as Bits<u32>>::extracted(
                <u64 as Bits<u32>>::inserted(v, start, end, x),
                other_start,
                other_end,
            ) == <u64 as Bits<u32>>::extracted(v, other_start, other_end)
            &&& <u64 as Bits<u32>>::inserted(<u64 as Bits<u32>>::inserted(v, start, end, x), other_start, other_end, y)
                == <u64 as Bits<u32>>::inserted(<u64 as Bits<u32>>::inserted(v, other_start, other_end, y), start, end, x)
        },
{
    let w = range_width(start as int, end as int);
    let ow = range_width(other_start as int, other_end as int);
    lemma2_to64();
    lemma_pow2_le(start as nat + w, 64);
    lemma_pow2_le(other_start as nat + ow, 64);
    lemma_field_laws(v as int, start as nat, w, x as int, y as int, other_start as nat, ow, 64);
    lemma_fits_field(w, ow, x as int, 32);
}

/// The fields of a `u64` written from and read into `u64`s. A field reads
/// back the low bits last written to it, so all of a value that fits; writing
/// back what a field holds changes nothing; the last of two writes to a
/// field wins; and a write leaves every field apart from it as it was, so
/// that writes to fields apart from each other can be made in either order.
pub proof fn lemma_fields_u64_u64(
    v: u64,
    start: usize,
    end: usize,
    x: u64,
    y: u64,
    other_start: usize,
    other_end: usize,
)
    requires
        <u64 as Bits<u64>>::fits_insert(start, end),
        <u64 as Bits<u64>>::fits_insert(other_start, other_end),
    ensures
        <u64 as Bits<u64>>::fits_extract(start, end) ==> <u64 as Bits<u64>>::extracted(<u64 as Bits<u64>>::inserted(v, start, end, x), start, end)
            == (x as int % (pow2(range_width(start as int, end as int)) as int)) as u64,
        <u64 as Bits<u64>>::fits_extract(start, end) && x < pow2(range_width(start as int, end as int))
            ==> <u64 as Bits<u64>>::extracted(<u64 as Bits<u64>>::inserted(v, start, end, x), start, end) == x,
        <u64 as Bits<u64>>::fits_extract(start, end) ==> <u64 as Bits<u64>>::inserted(v, start, end, <u64 as Bits<u64>>::extracted(v, start, end)) == v,
        <u64 as Bits<u64>>::inserted(<u64 as Bits<u64>>::inserted(v, start, end, x), start, end, y) == <u64 as Bits<u64>>::inserted(v, start, end, y),
        fields_apart(
            start as nat,
            range_width(start as int, end as int),
            other_start as nat,
            range_width(other_start as int, other_end as int),
        ) ==> {
            &&& <u64 as Bits<u64>>::fits_extract(other_start, other_end) ==> <u64 as Bits<u64>>::extracted(
                <u64 as Bits<u64>>::inserted(v, start, end, x),
                other_start,
                other_end,
            ) == <u64 as Bits<u64>>::extracted(v, other_start, other_end)
            &&& <u64 as Bits<u64>>::inserted(<u64 as Bits<u64>>::inserted(v, start, end, x), other_start, other_end, y)
                == <u64 as Bits<u64>>::inserted(<u64 as Bits<u64>>::inserted(v, other_start, other_end, y), start, end, x)
        },
{
    let w = range_width(start as int, end as int);
    let ow = range_width(other_start as int, other_end as int);
    lemma2_to64();
    lemma_pow2_le(start as nat + w, 64);
    lemma_pow2_le(other_start as nat + ow, 64);
    lemma_field_laws(v as int, start as nat, w, x as int, y as int, other_start as nat, ow, 64);
    lemma_fits_field(w, ow, x as int, 64);
}

/// The fields of a `u64` written from and read into `u128`s. A field reads
/// back the low bits last written to it, so all of a value that fits; writing
/// back what a field holds changes nothing; the last of two writes to a
/// field wins; and a write leaves every field apart from it as it was, so
/// that writes to fields apart from each other can be made in either order.
pub proof fn lemma_fields_u64_u128(
    v: u64,
    start: usize,
    end: usize,
    x: u128,
    y: u128,
    other_start: usize,
    other_end: usize,
)
    requires
        <u64 as Bits<u128>>::fits_insert(start, end),
        <u64 as Bits<u128>>::fits_insert(other_start, other_end),
    ensures
        <u64 as Bits<u128>>::fits_extract(start, end) ==> <u64 as Bits<u128>>::extracted(<u64 as Bits<u128>>::inserted(v, start, end, x), start, end)
            == (x as int % (pow2(range_width(start as int, end as int)) as int)) as u128,
        <u64 as Bits<u128>>::fits_extract(start, end) && x < pow2(range_width(start as int, end as int))
            ==> <u64 as Bits<u128>>::extracted(<u64 as Bits<u128>>::inserted(v, start, end, x), start, end) == x,
        <u64 as Bits<u128>>::fits_extract(start, end) ==> <u64 as Bits<u128>>::inserted(v, start, end, <u64 as Bits<u128>>::extracted(v, start, end)) == v,
        <u64 as Bits<u128>>::inserted(<u64 as Bits<u128>>::inserted(v, start, end, x), start, end, y) == <u64 as Bits<u128>>::inserted(v, start, end, y),
        fields_apart(
            start as nat,
            range_width(start as int, end as int),
            other_start as nat,
            range_width(other_start as int, other_end as int),
        ) ==> {
            &&& <u64 as Bits<u128>>::fits_extract(other_start, other_end) ==> <u64 as Bits<u128>>::extracted(
                <u64 as Bits<u128>>::inserted(v, start, end, x),
                other_start,
                other_end,
            ) == <u64 as Bits<u128>>::extracted(v, other_start, other_end)
            &&& <u64 as Bits<u128>>::inserted(<u64 as Bits<u128>>::inserted(v, start, end, x), other_start, other_end, y)
                == <u64 as Bits<u128>>::inserted(<u64 as Bits<u128>>::inserted(v, other_start, other_end, y), start, end, x)
        },
{
    let w = range_width(start as int, end as int);
    let ow = range_width(other_start as int, other_end as int);
    lemma2_to64();
    lemma_pow2_128();
    lemma_pow2_le(start as nat + w, 64);
    lemma_pow2_le(other_start as nat + ow, 64);
    lemma_field_laws(v as int, start as nat, w, x as int, y as int, other_start as nat, ow, 64);
    lemma_fits_field(w, ow, x as int, 128);
}

/// The fields of a `u128` written from and read into `u8`s. A field reads
/// back the low bits last written to it, so all of a value that fits; writing
/// back what a field holds changes nothing; the last of two writes to a
/// field wins; and a write leaves every field apart from it as it was, so
/// that writes to fields apart from each other can be made in either order.
pub proof fn lemma_fields_u128_u8(
    v: u128,
    start: usize,
    end: usize,
    x: u8,
    y: u8,
    other_start: usize,
    other_end: usize,
)
    requires
        <u128 as Bits<u8>>::fits_insert(start, end),
        <u128 as Bits<u8>>::fits_insert(other_start, other_end),
    ensures
        <u128 as Bits<u8>>::fits_extract(start, end) ==> <u128 as Bits<u8>>::extracted(<u128 as Bits<u8>>::inserted(v, start, end, x), start, end)
            == (x as int % (pow2(range_width(start as int, end as int)) as int)) as u8,
        <u128 as Bits<u8>>::fits_extract(start, end) && x < pow2(range_width(start as int, end as int))
            ==> <u128 as Bits<u8>>::extracted(<u128 as Bits<u8>>::inserted(v, start, end, x), start, end) == x,
        <u128 as Bits<u8>>::fits_extract(start, end) ==> <u128 as Bits<u8>>::inserted(v, start, end, <u128 as Bits<u8>>::extracted(v, start, end)) == v,
        <u128 as Bits<u8>>::inserted(<u128 as Bits<u8>>::inserted(v, start, end, x), start, end, y) == <u128 as Bits<u8>>::inserted(v, start, end, y),
        fields_apart(
            start as nat,
            range_width(start as int, end as int),
            other_start as nat,
            range_width(other_start as int, other_end as int),
        ) ==> {
            &&& <u128 as Bits<u8>>::fits_extract(other_start, other_end) ==> <u128 as Bits<u8>>::extracted(
                <u128 as Bits<u8>>::inserted(v, start, end, x),
                other_start,
                other_end,
            ) == <u128 as Bits<u8>>::extracted(v, other_start, other_end)
            &&& <u128 as Bits<u8>>::inserted(<u128 as Bits<u8>>::inserted(v, start, end, x), other_start, other_end, y)
                == <u128 as Bits<u8>>::inserted(<u128 as Bits<u8>>::inserted(v, other_start, other_end, y), start, end, x)
        },
{
    let w = range_width(start as int, end as int);
    let ow = range_width(other_start as int, other_end as int);
    lemma2_to64();
    lemma_pow2_128();
    lemma_pow2_le(start as nat + w, 128);
    lemma_pow2_le(other_start as nat + ow, 128);
    lemma_field_laws(v as int, start as nat, w, x as int, y as int, other_start as nat, ow, 128);
    lemma_fits_field(w, ow, x as int, 8);
}

/// The fields of a `u128` written from and read into `u16`s. A field reads
/// back the low bits last written to it, so all of a value that fits; writing
/// back what a field holds changes nothing; the last of two writes to a
/// field wins; and a write leaves every field apart from it as it was, so
/// that writes to fields apart from each other can be made in either order.
pub proof fn lemma_fields_u128_u16(
    v: u128,
    start: usize,
    end: usize,
    x: u16,
    y: u16,
    other_start: usize,
    other_end: usize,
)
    requires
        <u128 as Bits<u16>>::fits_insert(start, end),
        <u128 as Bits<u16>>::fits_insert(other_start, other_end),
    ensures
        <u128 as Bits<u16>>::fits_extract(start, end) ==> <u128 as Bits<u16>>::extracted(<u128 as Bits<u16>>::inserted(v, start, end, x), start, end)
            == (x as int % (pow2(range_width(start as int, end as int)) as int)) as u16,
        <u128 as Bits<u16>>::fits_extract(start, end) && x < pow2(range_width(start as int, end as int))
            ==> <u128 as Bits<u16>>::extracted(<u128 as Bits<u16>>::inserted(v, start, end, x), start, end) == x,
        <u128 as Bits<u16>>::fits_extract(start, end) ==> <u128 as Bits<u16>>::inserted(v, start, end, <u128 as Bits<u16>>::extracted(v, start, end)) == v,
        <u128 as Bits<u16>>::inserted(<u128 as Bits<u16>>::inserted(v, start, end, x), start, end, y) == <u128 as Bits<u16>>::inserted(v, start, end, y),
        fields_apart(
            start as nat,
            range_width(start as int, end as int),
            other_start as nat,
            range_width(other_start as int, other_end as int),
        ) ==> {
            &&& <u128 as Bits<u16>>::fits_extract(other_start, other_end) ==> <u128 as Bits<u16>>::extracted(
                <u128 as Bits<u16>>::inserted(v, start, end, x),
                other_start,
                other_end,
            ) == <u128 as Bits<u16>>::extracted(v, other_start, other_end)
            &&& <u128 as Bits<u16>>::inserted(<u128 as Bits<u16>>::inserted(v, start, end, x), other_start, other_end, y)
                == <u128 as Bits<u16>>::inserted(<u128 as Bits<u16>>::inserted(v, other_start, other_end, y), start, end, x)
        },
{
    let w = range_width(start as int, end as int);
    let ow = range_width(other_start as int, other_end as int);
    lemma2_to64();
    lemma_pow2_128();
    lemma_pow2_le(start as nat + w, 128);
    lemma_pow2_le(other_start as nat + ow, 128);
    lemma_field_laws(v as int, start as nat, w, x as int, y as int, other_start as nat, ow, 128);
    lemma_fits_field(w, ow, x as int, 16);
}

/// The fields of a `u128` written from and read into `u32`s. A field reads
/// back the low bits last written to it, so all of a value that fits; writing
/// back what a field holds changes nothing; the last of two writes to a
/// field wins; and a write leaves every field apart from it as it was, so
/// that writes to fields apart from each other can be made in either order.
pub proof fn lemma_fields_u128_u32(
    v: u128,
    start: usize,
    end: usize,
    x: u32,
    y: u32,
    other_start: usize,
    other_end: usize,
)
    requires
        <u128 as Bits<u32>>::fits_insert(start, end),
        <u128 as Bits<u32>>::fits_insert(other_start, other_end),
    ensures
        <u128 as Bits<u32>>::fits_extract(start, end) ==> <u128 as Bits<u32>>::extracted(<u128 as Bits<u32>>::inserted(v, start, end, x), start, end)
            == (x as int % (pow2(range_width(start as int, end as int)) as int)) as u32,
        <u128 as Bits<u32>>::fits_extract(start, end) && x < pow2(range_width(start as int, end as int))
            ==> <u128 as Bits<u32>>::extracted(<u128 as Bits<u32>>::inserted(v, start, end, x), start, end) == x,
        <u128 as Bits<u32>>::fits_extract(start, end) ==> <u128 as Bits<u32>>::inserted(v, start, end, <u128 as Bits<u32>>::extracted(v, start, end)) == v,
        <u128 as Bits<u32>>::inserted(<u128 as Bits<u32>>::inserted(v, start, end, x), start, end, y) == <u128 as Bits<u32>>::inserted(v, start, end, y),
        fields_apart(
            start as nat,
            range_width(start as int, end as int),
            other_start as nat,
            range_width(other_start as int, other_end as int),
        ) ==> {
            &&& <u128 as Bits<u32>>::fits_extract(other_start, other_end) ==> <u128 as Bits<u32>>::extracted(
                <u128 as Bits<u32>>::inserted(v, start, end, x),
                other_start,
                other_end,
            ) == <u128 as Bits<u32>>::extracted(v, other_start, other_end)
            &&& <u128 as Bits<u32>>::inserted(<u128 as Bits<u32>>::inserted(v, start, end, x), other_start, other_end, y)
                == <u128 as Bits<u32>>::inserted(<u128 as Bits<u32>>::inserted(v, other_start, other_end, y), start, end, x)
        },
{
    let w = range_width(start as int, end as int);
    let ow = range_width(other_start as int, other_end as int);
    lemma2_to64();
    lemma_pow2_128();
    lemma_pow2_le(start as nat + w, 128);
    lemma_pow2_le(other_start as nat + ow, 128);
    lemma_field_laws(v as int, start as nat, w, x as int, y as int, other_start as nat, ow, 128);
    lemma_fits_field(w, ow, x as int, 32);
}

/// The fields of a `u128` written from and read into `u64`s. A field reads
/// back the low bits last written to it, so all of a value that fits; writing
/// back what a field holds changes nothing; the last of two writes to a
/// field wins; and a write leaves every field apart from it as it was, so
/// that writes to fields apart from each other can be made in either order.
pub proof fn lemma_fields_u128_u64(
    v: u128,
    start: usize,
    end: usize,
    x: u64,
    y: u64,
    other_start: usize,
    other_end: usize,
)
    requires
        <u128 as Bits<u64>>::fits_insert(start, end),
        <u128 as Bits<u64>>::fits_insert(other_start, other_end),
    ensures
        <u128 as Bits<u64>>::fits_extract(start, end) ==> <u128 as Bits<u64>>::extracted(<u128 as Bits<u64>>::inserted(v, start, end, x), start, end)
            == (x as int % (pow2(range_width(start as int, end as int)) as int)) as u64,
        <u128 as Bits<u64>>::fits_extract(start, end) && x < pow2(range_width(start as int, end as int))
            ==> <u128 as Bits<u64>>::extracted(<u128 as Bits<u64>>::inserted(v, start, end, x), start, end) == x,
        <u128 as Bits<u64>>::fits_extract(start, end) ==> <u128 as Bits<u64>>::inserted(v, start, end, <u128 as Bits<u64>>::extracted(v, start, end)) == v,
        <u128 as Bits<u64>>::inserted(<u128 as Bits<u64>>::inserted(v, start, end, x), start, end, y) == <u128 as Bits<u64>>::inserted(v, start, end, y),
        fields_apart(
            start as nat,
            range_width(start as int, end as int),
            other_start as nat,
            range_width(other_start as int, other_end as int),
        ) ==> {
            &&& <u128 as Bits<u64>>::fits_extract(other_start, other_end) ==> <u128 as Bits<u64>>::extracted(
                <u128 as Bits<u64>>::inserted(v, start, end, x),
                other_start,
                other_end,
            ) == <u128 as Bits<u64>>::extracted(v, other_start, other_end)
            &&& <u128 as Bits<u64>>::inserted(<u128 as Bits<u64>>::inserted(v, start, end, x), other_start, other_end, y)
                == <u128 as Bits<u64>>::inserted(<u128 as Bits<u64>>::inserted(v, other_start, other_end, y), start, end, x)
        },
{
    let w = range_width(start as int, end as int);
    let ow = range_width(other_start as int, other_end as int);
    lemma2_to64();
    lemma_pow2_128();
    lemma_pow2_le(start as nat + w, 128);
    lemma_pow2_le(other_start as nat + ow, 128);
    lemma_field_laws(v as int, start as nat, w, x as int, y as int, other_start as nat, ow, 128);
    lemma_fits_field(w, ow, x as int, 64);
}

/// The fields of a `u128` written from and read into `u128`s. A field reads
/// back the low bits last written to it, so all of a value that fits; writing
/// back what a field holds changes nothing; the last of two writes to a
/// field wins; and a write leaves every field apart from it as it was, so
/// that writes to fields apart from each other can be made in either order.
pub proof fn lemma_fields_u128_u128(
    v: u128,
    start: usize,
    end: usize,
    x: u128,
    y: u128,
    other_start: usize,
    other_end: usize,
)
    requires
        <u128 as Bits<u128>>::fits_insert(start, end),
        <u128 as Bits<u128>>::fits_insert(other_start, other_end),
    ensures
        <u128 as Bits<u128>>::fits_extract(start, end) ==> <u128 as Bits<u128>>::extracted(<u128 as Bits<u128>>::inserted(v, start, end, x), start, end)
            == (x as int % (pow2(range_width(start as int, end as int)) as int)) as u128,
        <u128 as Bits<u128>>::fits_extract(start, end) && x < pow2(range_width(start as int, end as int))
            ==> <u128 as Bits<u128>>::extracted(<u128 as Bits<u128>>::inserted(v, start, end, x), start, end) == x,
        <u128 as Bits<u128>>::fits_extract(start, end) ==> <u128 as Bits<u128>>::inserted(v, start, end, <u128 as Bits<u128>>::extracted(v, start, end)) == v,
        <u128 as Bits<u128>>::inserted(<u128 as Bits<u128>>::inserted(v, start, end, x), start, end, y) == <u128 as Bits<u128>>::inserted(v, start, end, y),
        fields_apart(
            start as nat,
            range_width(start as int, end as int),
            other_start as nat,
            range_width(other_start as int, other_end as int),
        ) ==> {
            &&& <u128 as Bits<u128>>::fits_extract(other_start, other_end) ==> <u128 as Bits<u128>>::extracted(
                <u128 as Bits<u128>>::inserted(v, start, end, x),
                other_start,
                other_end,
            ) == <u128 as Bits<u128>>::extracted(v, other_start, other_end)
            &&& <u128 as Bits<u128>>::inserted(<u128 as Bits<u128>>::inserted(v, start, end, x), other_start, other_end, y)
                == <u128 as Bits<u128>>::inserted(<u128 as Bits<u128>>::inserted(v, other_start, other_end, y), start, end, x)
        },
{
    let w = range_width(start as int, end as int);
    let ow = range_width(other_start as int, other_end as int);
    lemma_pow2_128();
    lemma_pow2_le(start as nat + w, 128);
    lemma_pow2_le(other_start as nat + ow, 128);
    lemma_field_laws(v as int, start as nat, w, x as int, y as int, other_start as nat, ow, 128);
    lemma_fits_field(w, ow, x as int, 128);
}


/// Converting between bits of one width changes nothing.
pub proof fn lemma_same_width_conversion(a: u8, b: u16, c: u32, d: u64, e: u128)
    ensures
        <u8 as FromBits<u8>>::converted(a) == a,
        <u16 as FromBits<u16>>::converted(b) == b,
        <u32 as FromBits<u32>>::converted(c) == c,
        <u64 as FromBits<u64>>::converted(d) == d,
        <u128 as FromBits<u128>>::converted(e) == e,
{
    lemma2_to64();
    lemma_pow2_128();
    lemma_small_mod(a as nat, pow2(8));
    lemma_small_mod(b as nat, pow2(16));
    lemma_small_mod(c as nat, pow2(32));
    lemma_small_mod(d as nat, pow2(64));
    lemma_small_mod(e as nat, pow2(128));
}

/// Converting bits into an unsigned type of at least their width keeps their
/// value; converting them into a narrower one keeps their low bits, as many
/// as the narrower type has.
pub proof fn lemma_conversions_keep_values(x_u8: u8, x_u16: u16, x_u32: u32, x_u64: u64, x_u128: u128)
    ensures
        <u8 as FromBits<u8>>::converted(x_u8) as int == x_u8 as int,
        <u8 as FromBits<u16>>::converted(x_u16) as int == x_u16 as int % (pow2(8) as int),
        <u8 as FromBits<u32>>::converted(x_u32) as int == x_u32 as int % (pow2(8) as int),
        <u8 as FromBits<u64>>::converted(x_u64) as int == x_u64 as int % (pow2(8) as int),
        <u8 as FromBits<u128>>::converted(x_u128) as int == x_u128 as int % (pow2(8) as int),
        <u16 as FromBits<u8>>::converted(x_u8) as int == x_u8 as int,
        <u16 as FromBits<u16>>::converted(x_u16) as int == x_u16 as int,
        <u16 as FromBits<u32>>::converted(x_u32) as int == x_u32 as int % (pow2(16) as int),
        <u16 as FromBits<u64>>::converted(x_u64) as int == x_u64 as int % (pow2(16) as int),
        <u16 as FromBits<u128>>::converted(x_u128) as int == x_u128 as int % (pow2(16) as int),
        <u32 as FromBits<u8>>::converted(x_u8) as int == x_u8 as int,
        <u32 as FromBits<u16>>::converted(x_u16) as int == x_u16 as int,
        <u32 as FromBits<u32>>::converted(x_u32) as int == x_u32 as int,
        <u32 as FromBits<u64>>::converted(x_u64) as int == x_u64 as int % (pow2(32) as int),
        <u32 as FromBits<u128>>::converted(x_u128) as int == x_u128 as int % (pow2(32) as int),
        <u64 as FromBits<u8>>::converted(x_u8) as int == x_u8 as int,
        <u64 as FromBits<u16>>::converted(x_u16) as int == x_u16 as int,
        <u64 as FromBits<u32>>::converted(x_u32) as int == x_u32 as int,
        <u64 as FromBits<u64>>::converted(x_u64) as int == x_u64 as int,
        <u64 as FromBits<u128>>::converted(x_u128) as int == x_u128 as int % (pow2(64) as int),
        <u128 as FromBits<u8>>::converted(x_u8) as int == x_u8 as int,
        <u128 as FromBits<u16>>::converted(x_u16) as int == x_u16 as int,
        <u128 as FromBits<u32>>::converted(x_u32) as int == x_u32 as int,
        <u128 as FromBits<u64>>::converted(x_u64) as int == x_u64 as int,
        <u128 as FromBits<u128>>::converted(x_u128) as int == x_u128 as int,
{
    lemma2_to64();
    lemma_pow2_128();
    lemma_small_mod(x_u8 as nat, pow2(8));
    lemma_small_mod(x_u16 as nat, pow2(16));
    lemma_small_mod(x_u32 as nat, pow2(32));
    lemma_small_mod(x_u64 as nat, pow2(64));
    lemma_small_mod(x_u128 as nat, pow2(128));
    lemma_pow2_le(8, 16);
    lemma_pow2_le(16, 32);
    lemma_pow2_le(32, 64);
    lemma_pow2_le(64, 128);
}

/// A `u8` field of a `u8` representation, as a derive packs and unpacks
/// it: the field's value is converted into a `u8`, written into the bits
/// `start..=end`, read back and converted into a `u8` again. A value that
/// fits in the field comes back unchanged.
pub proof fn lemma_field_round_trip_u8_u8(v: u8, start: usize, end: usize, x: u8)
    requires
        <u8 as Bits<u8>>::fits_insert(start, end),
        end - start < 8,
        x < pow2(range_width(start as int, end as int)),
    ensures
        <u8 as FromBits<u8>>::converted(
            <u8 as Bits<u8>>::extracted(<u8 as Bits<u8>>::inserted(v, start, end, x.converted_into()), start, end),
        ) == x,
{
    let w = range_width(start as int, end as int);
    lemma_conversions_keep_values(0, 0, 0, 0, 0);
    lemma2_to64();
    lemma_pow2_128();
    lemma_pow2_le(w, 8);
    lemma_pow2_le(w, 8);
    lemma_pow2_le(8, 8);
    let r = <u8 as FromBits<u8>>::converted(x);
    lemma_conversions_keep_values(x, 0, 0, 0, 0);
    lemma_fields_u8_u8(v, start, end, r, r, start, end);
    let back = <u8 as Bits<u8>>::extracted(<u8 as Bits<u8>>::inserted(v, start, end, r), start, end);
    lemma_conversions_keep_values(back, 0, 0, 0, 0);
}

/// A `u16` field of a `u8` representation, as a derive packs and unpacks
/// it: the field's value is converted into a `u8`, written into the bits
/// `start..=end`, read back and converted into a `u16` again. A value that
/// fits in the field comes back unchanged.
pub proof fn lemma_field_round_trip_u8_u16(v: u8, start: usize, end: usize, x: u16)
    requires
        <u8 as Bits<u8>>::fits_insert(start, end),
        end - start < 16,
        x < pow2(range_width(start as int, end as int)),
    ensures
        <u16 as FromBits<u8>>::converted(
            <u8 as Bits<u8>>::extracted(<u8 as Bits<u8>>::inserted(v, start, end, x.converted_into()), start, end),
        ) == x,
{
    let w = range_width(start as int, end as int);
    lemma_conversions_keep_values(0, 0, 0, 0, 0);
    lemma2_to64();
    lemma_pow2_128();
    lemma_pow2_le(w, 16);
    lemma_pow2_le(w, 8);
    lemma_pow2_le(16, 16);
    let r = <u8 as FromBits<u16>>::converted(x);
    lemma_conversions_keep_values(0, x, 0, 0, 0);
    lemma_fields_u8_u8(v, start, end, r, r, start, end);
    let back = <u8 as Bits<u8>>::extracted(<u8 as Bits<u8>>::inserted(v, start, end, r), start, end);
    lemma_conversions_keep_values(back, 0, 0, 0, 0);
}

/// A `u32` field of a `u8` representation, as a derive packs and unpacks
/// it: the field's value is converted into a `u8`, written into the bits
/// `start..=end`, read back and converted into a `u32` again. A value that
/// fits in the field comes back unchanged.
pub proof fn lemma_field_round_trip_u8_u32(v: u8, start: usize, end: usize, x: u32)
    requires
        <u8 as Bits<u8>>::fits_insert(start, end),
        end - start < 32,
        x < pow2(range_width(start as int, end as int)),
    ensures
        <u32 as FromBits<u8>>::converted(
            <u8 as Bits<u8>>::extracted(<u8 as Bits<u8>>::inserted(v, start, end, x.converted_into()), start, end),
        ) == x,
{
    let w = range_width(start as int, end as int);
    lemma_conversions_keep_values(0, 0, 0, 0, 0);
    lemma2_to64();
    lemma_pow2_128();
    lemma_pow2_le(w, 32);
    lemma_pow2_le(w, 8);
    lemma_pow2_le(32, 32);
    let r = <u8 as FromBits<u32>>::converted(x);
    lemma_conversions_keep_values(0, 0, x, 0, 0);
    lemma_fields_u8_u8(v, start, end, r, r, start, end);
    let back = <u8 as Bits<u8>>::extracted(<u8 as Bits<u8>>::inserted(v, start, end, r), start, end);
    lemma_conversions_keep_values(back, 0, 0, 0, 0);
}

/// A `u64` field of a `u8` representation, as a derive packs and unpacks
/// it: the field's value is converted into a `u8`, written into the bits
/// `start..=end`, read back and converted into a `u64` again. A value that
/// fits in the field comes back unchanged.
pub proof fn lemma_field_round_trip_u8_u64(v: u8, start: usize, end: usize, x: u64)
    requires
        <u8 as Bits<u8>>::fits_insert(start, end),
        end - start < 64,
        x < pow2(range_width(start as int, end as int)),
    ensures
        <u64 as FromBits<u8>>::converted(
            <u8 as Bits<u8>>::extracted(<u8 as Bits<u8>>::inserted(v, start, end, x.converted_into()), start, end),
        ) == x,
{
    let w = range_width(start as int, end as int);
    lemma_conversions_keep_values(0, 0, 0, 0, 0);
    lemma2_to64();
    lemma_pow2_128();
    lemma_pow2_le(w, 64);
    lemma_pow2_le(w, 8);
    lemma_pow2_le(64, 64);
    let r = <u8 as FromBits<u64>>::converted(x);
    lemma_conversions_keep_values(0, 0, 0, x, 0);
    lemma_fields_u8_u8(v, start, end, r, r, start, end);
    let back = <u8 as Bits<u8>>::extracted(<u8 as Bits<u8>>::inserted(v, start, end, r), start, end);
    lemma_conversions_keep_values(back, 0, 0, 0, 0);
}

/// A `u128` field of a `u8` representation, as a derive packs and unpacks
/// it: the field's value is converted into a `u8`, written into the bits
/// `start..=end`, read back and converted into a `u128` again. A value that
/// fits in the field comes back unchanged.
pub proof fn lemma_field_round_trip_u8_u128(v: u8, start: usize, end: usize, x: u128)
    requires
        <u8 as Bits<u8>>::fits_insert(start, end),
        end - start < 128,
        x < pow2(range_width(start as int, end as int)),
    ensures
        <u128 as FromBits<u8>>::converted(
            <u8 as Bits<u8>>::extracted(<u8 as Bits<u8>>::inserted(v, start, end, x.converted_into()), start, end),
        ) == x,
{
    let w = range_width(start as int, end as int);
    lemma_conversions_keep_values(0, 0, 0, 0, 0);
    lemma2_to64();
    lemma_pow2_128();
    lemma_pow2_le(w, 128);
    lemma_pow2_le(w, 8);
    lemma_pow2_le(128, 128);
    let r = <u8 as FromBits<u128>>::converted(x);
    lemma_conversions_keep_values(0, 0, 0, 0, x);
    lemma_fields_u8_u8(v, start, end, r, r, start, end);
    let back = <u8 as Bits<u8>>::extracted(<u8 as Bits<u8>>::inserted(v, start, end, r), start, end);
    lemma_conversions_keep_values(back, 0, 0, 0, 0);
}

/// A `u8` field of a `u16` representation, as a derive packs and unpacks
/// it: the field's value is converted into a `u16`, written into the bits
/// `start..=end`, read back and converted into a `u8` again. A value that
/// fits in the field comes back unchanged.
pub proof fn lemma_field_round_trip_u16_u8(v: u16, start: usize, end: usize, x: u8)
    requires
        <u16 as Bits<u16>>::fits_insert(start, end),
        end - start < 8,
        x < pow2(range_width(start as int, end as int)),
    ensures
        <u8 as FromBits<u16>>::converted(
            <u16 as Bits<u16>>::extracted(<u16 as Bits<u16>>::inserted(v, start, end, x.converted_into()), start, end),
        ) == x,
{
    let w = range_width(start as int, end as int);
    lemma_conversions_keep_values(0, 0, 0, 0, 0);
    lemma2_to64();
    lemma_pow2_128();
    lemma_pow2_le(w, 8);
    lemma_pow2_le(w, 16);
    lemma_pow2_le(8, 16);
    let r = <u16 as FromBits<u8>>::converted(x);
    lemma_conversions_keep_values(x, 0, 0, 0, 0);
    lemma_fields_u16_u16(v, start, end, r, r, start, end);
    let back = <u16 as Bits<u16>>::extracted(<u16 as Bits<u16>>::inserted(v, start, end, r), start, end);
    lemma_conversions_keep_values(0, back, 0, 0, 0);
}

/// A `u16` field of a `u16` representation, as a derive packs and unpacks
/// it: the field's value is converted into a `u16`, written into the bits
/// `start..=end`, read back and converted into a `u16` again. A value that
/// fits in the field comes back unchanged.
pub proof fn lemma_field_round_trip_u16_u16(v: u16, start: usize, end: usize, x: u16)
    requires
        <u16 as Bits<u16>>::fits_insert(start, end),
        end - start < 16,
        x < pow2(range_width(start as int, end as int)),
    ensures
        <u16 as FromBits<u16>>::converted(
            <u16 as Bits<u16>>::extracted(<u16 as Bits<u16>>::inserted(v, start, end, x.converted_into()), start, end),
        ) == x,
{
    let w = range_width(start as int, end as int);
    lemma_conversions_keep_values(0, 0, 0, 0, 0);
    lemma2_to64();
    lemma_pow2_128();
    lemma_pow2_le(w, 16);
    lemma_pow2_le(w, 16);
    lemma_pow2_le(16, 16);
    let r = <u16 as FromBits<u16>>::converted(x);
    lemma_conversions_keep_values(0, x, 0, 0, 0);
    lemma_fields_u16_u16(v, start, end, r, r, start, end);
    let back = <u16 as Bits<u16>>::extracted(<u16 as Bits<u16>>::inserted(v, start, end, r), start, end);
    lemma_conversions_keep_values(0, back, 0, 0, 0);
}

/// A `u32` field of a `u16` representation, as a derive packs and unpacks
/// it: the field's value is converted into a `u16`, written into the bits
/// `start..=end`, read back and converted into a `u32` again. A value that
/// fits in the field comes back unchanged.
pub proof fn lemma_field_round_trip_u16_u32(v: u16, start: usize, end: usize, x: u32)
    requires
        <u16 as Bits<u16>>::fits_insert(start, end),
        end - start < 32,
        x < pow2(range_width(start as int, end as int)),
    ensures
        <u32 as FromBits<u16>>::converted(
            <u16 as Bits<u16>>::extracted(<u16 as Bits<u16>>::inserted(v, start, end, x.converted_into()), start, end),
        ) == x,
{
    let w = range_width(start as int, end as int);
    lemma_conversions_keep_values(0, 0, 0, 0, 0);
    lemma2_to64();
    lemma_pow2_128();
    lemma_pow2_le(w, 32);
    lemma_pow2_le(w, 16);
    lemma_pow2_le(32, 32);
    let r = <u16 as FromBits<u32>>::converted(x);
    lemma_conversions_keep_values(0, 0, x, 0, 0);
    lemma_fields_u16_u16(v, start, end, r, r, start, end);
    let back = <u16 as Bits<u16>>::extracted(<u16 as Bits<u16>>::inserted(v, start, end, r), start, end);
    lemma_conversions_keep_values(0, back, 0, 0, 0);
}

/// A `u64` field of a `u16` representation, as a derive packs and unpacks
/// it: the field's value is converted into a `u16`, written into the bits
/// `start..=end`, read back and converted into a `u64` again. A value that
/// fits in the field comes back unchanged.
pub proof fn lemma_field_round_trip_u16_u64(v: u16, start: usize, end: usize, x: u64)
    requires
        <u16 as Bits<u16>>::fits_insert(start, end),
        end - start < 64,
        x < pow2(range_width(start as int, end as int)),
    ensures
        <u64 as FromBits<u16>>::converted(
            <u16 as Bits<u16>>::extracted(<u16 as Bits<u16>>::inserted(v, start, end, x.converted_into()), start, end),
        ) == x,
{
    let w = range_width(start as int, end as int);
    lemma_conversions_keep_values(0, 0, 0, 0, 0);
    lemma2_to64();
    lemma_pow2_128();
    lemma_pow2_le(w, 64);
    lemma_pow2_le(w, 16);
    lemma_pow2_le(64, 64);
    let r = <u16 as FromBits<u64>>::converted(x);
    lemma_conversions_keep_values(0, 0, 0, x, 0);
    lemma_fields_u16_u16(v, start, end, r, r, start, end);
    let back = <u16 as Bits<u16>>::extracted(<u16 as Bits<u16>>::inserted(v, start, end, r), start, end);
    lemma_conversions_keep_values(0, back, 0, 0, 0);
}

/// A `u128` field of a `u16` representation, as a derive packs and unpacks
/// it: the field's value is converted into a `u16`, written into the bits
/// `start..=end`, read back and converted into a `u128` again. A value that
/// fits in the field comes back unchanged.
pub proof fn lemma_field_round_trip_u16_u128(v: u16, start: usize, end: usize, x: u128)
    requires
        <u16 as Bits<u16>>::fits_insert(start, end),
        end - start < 128,
        x < pow2(range_width(start as int, end as int)),
    ensures
        <u128 as FromBits<u16>>::converted(
            <u16 as Bits<u16>>::extracted(<u16 as Bits<u16>>::inserted(v, start, end, x.converted_into()), start, end),
        ) == x,
{
    let w = range_width(start as int, end as int);
    lemma_conversions_keep_values(0, 0, 0, 0, 0);
    lemma2_to64();
    lemma_pow2_128();
    lemma_pow2_le(w, 128);
    lemma_pow2_le(w, 16);
    lemma_pow2_le(128, 128);
    let r = <u16 as FromBits<u128>>::converted(x);
    lemma_conversions_keep_values(0, 0, 0, 0, x);
    lemma_fields_u16_u16(v, start, end, r, r, start, end);
    let back = <u16 as Bits<u16>>::extracted(<u16 as Bits<u16>>::inserted(v, start, end, r), start, end);
    lemma_conversions_keep_values(0, back, 0, 0, 0);
}

/// A `u8` field of a `u32` representation, as a derive packs and unpacks
/// it: the field's value is converted into a `u32`, written into the bits
/// `start..=end`, read back and converted into a `u8` again. A value that
/// fits in the field comes back unchanged.
pub proof fn lemma_field_round_trip_u32_u8(v: u32, start: usize, end: usize, x: u8)
    requires
        <u32 as Bits<u32>>::fits_insert(start, end),
        end - start < 8,
        x < pow2(range_width(start as int, end as int)),
    ensures
        <u8 as FromBits<u32>>::converted(
            <u32 as Bits<u32>>::extracted(<u32 as Bits<u32>>::inserted(v, start, end, x.converted_into()), start, end),
        ) == x,
{
    let w = range_width(start as int, end as int);
    lemma_conversions_keep_values(0, 0, 0, 0, 0);
    lemma2_to64();
    lemma_pow2_128();
    lemma_pow2_le(w, 8);
    lemma_pow2_le(w, 32);
    lemma_pow2_le(8, 32);
    let r = <u32 as FromBits<u8>>::converted(x);
    lemma_conversions_keep_values(x, 0, 0, 0, 0);
    lemma_fields_u32_u32(v, start, end, r, r, start, end);
    let back = <u32 as Bits<u32>>::extracted(<u32 as Bits<u32>>::inserted(v, start, end, r), start, end);
    lemma_conversions_keep_values(0, 0, back, 0, 0);
}

/// A `u16` field of a `u32` representation, as a derive packs and unpacks
/// it: the field's value is converted into a `u32`, written into the bits
/// `start..=end`, read back and converted into a `u16` again. A value that
/// fits in the field comes back unchanged.
pub proof fn lemma_field_round_trip_u32_u16(v: u32, start: usize, end: usize, x: u16)
    requires
        <u32 as Bits<u32>>::fits_insert(start, end),
        end - start < 16,
        x < pow2(range_width(start as int, end as int)),
    ensures
        <u16 as FromBits<u32>>::converted(
            <u32 as Bits<u32>>::extracted(<u32 as Bits<u32>>::inserted(v, start, end, x.converted_into()), start, end),
        ) == x,
{
    let w = range_width(start as int, end as int);
    lemma_conversions_keep_values(0, 0, 0, 0, 0);
    lemma2_to64();
    lemma_pow2_128();
    lemma_pow2_le(w, 16);
    lemma_pow2_le(w, 32);
    lemma_pow2_le(16, 32);
    let r = <u32 as FromBits<u16>>::converted(x);
    lemma_conversions_keep_values(0, x, 0, 0, 0);
    lemma_fields_u32_u32(v, start, end, r, r, start, end);
    let back = <u32 as Bits<u32>>::extracted(<u32 as Bits<u32>>::inserted(v, start, end, r), start, end);
    lemma_conversions_keep_values(0, 0, back, 0, 0);
}

/// A `u32` field of a `u32` representation, as a derive packs and unpacks
/// it: the field's value is converted into a `u32`, written into the bits
/// `start..=end`, read back and converted into a `u32` again. A value that
/// fits in the field comes back unchanged.
pub proof fn lemma_field_round_trip_u32_u32(v: u32, start: usize, end: usize, x: u32)
    requires
        <u32 as Bits<u32>>::fits_insert(start, end),
        end - start < 32,
        x < pow2(range_width(start as int, end as int)),
    ensures
        <u32 as FromBits<u32>>::converted(
            <u32 as Bits<u32>>::extracted(<u32 as Bits<u32>>::inserted(v, start, end, x.converted_into()), start, end),
        ) == x,
{
    let w = range_width(start as int, end as int);
    lemma_conversions_keep_values(0, 0, 0, 0, 0);
    lemma2_to64();
    lemma_pow2_128();
    lemma_pow2_le(w, 32);
    lemma_pow2_le(w, 32);
    lemma_pow2_le(32, 32);
    let r = <u32 as FromBits<u32>>::converted(x);
    lemma_conversions_keep_values(0, 0, x, 0, 0);
    lemma_fields_u32_u32(v, start, end, r, r, start, end);
    let back = <u32 as Bits<u32>>::extracted(<u32 as Bits<u32>>::inserted(v, start, end, r), start, end);
    lemma_conversions_keep_values(0, 0, back, 0, 0);
}

/// A `u64` field of a `u32` representation, as a derive packs and unpacks
/// it: the field's value is converted into a `u32`, written into the bits
/// `start..=end`, read back and converted into a `u64` again. A value that
/// fits in the field comes back unchanged.
pub proof fn lemma_field_round_trip_u32_u64(v: u32, start: usize, end: usize, x: u64)
    requires
        <u32 as Bits<u32>>::fits_insert(start, end),
        end - start < 64,
        x < pow2(range_width(start as int, end as int)),
    ensures
        <u64 as FromBits<u32>>::converted(
            <u32 as Bits<u32>>::extracted(<u32 as Bits<u32>>::inserted(v, start, end, x.converted_into()), start, end),
        ) == x,
{
    let w = range_width(start as int, end as int);
    lemma_conversions_keep_values(0, 0, 0, 0, 0);
    lemma2_to64();
    lemma_pow2_128();
    lemma_pow2_le(w, 64);
    lemma_pow2_le(w, 32);
    lemma_pow2_le(64, 64);
    let r = <u32 as FromBits<u64>>::converted(x);
    lemma_conversions_keep_values(0, 0, 0, x, 0);
    lemma_fields_u32_u32(v, start, end, r, r, start, end);
    let back = <u32 as Bits<u32>>::extracted(<u32 as Bits<u32>>::inserted(v, start, end, r), start, end);
    lemma_conversions_keep_values(0, 0, back, 0, 0);
}

/// A `u128` field of a `u32` representation, as a derive packs and unpacks
/// it: the field's value is converted into a `u32`, written into the bits
/// `start..=end`, read back and converted into a `u128` again. A value that
/// fits in the field comes back unchanged.
pub proof fn lemma_field_round_trip_u32_u128(v: u32, start: usize, end: usize, x: u128)
    requires
        <u32 as Bits<u32>>::fits_insert(start, end),
        end - start < 128,
        x < pow2(range_width(start as int, end as int)),
    ensures
        <u128 as FromBits<u32>>::converted(
            <u32 as Bits<u32>>::extracted(<u32 as Bits<u32>>::inserted(v, start, end, x.converted_into()), start, end),
        ) == x,
{
    let w = range_width(start as int, end as int);
    lemma_conversions_keep_values(0, 0, 0, 0, 0);
    lemma2_to64();
    lemma_pow2_128();
    lemma_pow2_le(w, 128);
    lemma_pow2_le(w, 32);
    lemma_pow2_le(128, 128);
    let r = <u32 as FromBits<u128>>::converted(x);
    lemma_conversions_keep_values(0, 0, 0, 0, x);
    lemma_fields_u32_u32(v, start, end, r, r, start, end);
    let back = <u32 as Bits<u32>>::extracted(<u32 as Bits<u32>>::inserted(v, start, end, r), start, end);
    lemma_conversions_keep_values(0, 0, back, 0, 0);
}

/// A `u8` field of a `u64` representation, as a derive packs and unpacks
/// it: the field's value is converted into a `u64`, written into the bits
/// `start..=end`, read back and converted into a `u8` again. A value that
/// fits in the field comes back unchanged.
pub proof fn lemma_field_round_trip_u64_u8(v: u64, start: usize, end: usize, x: u8)
    requires
        <u64 as Bits<u64>>::fits_insert(start, end),
        end - start < 8,
        x < pow2(range_width(start as int, end as int)),
    ensures
        <u8 as FromBits<u64>>::converted(
            <u64 as Bits<u64>>::extracted(<u64 as Bits<u64>>::inserted(v, start, end, x.converted_into()), start, end),
        ) == x,
{
    let w = range_width(start as int, end as int);
    lemma_conversions_keep_values(0, 0, 0, 0, 0);
    lemma2_to64();
    lemma_pow2_128();
    lemma_pow2_le(w, 8);
    lemma_pow2_le(w, 64);
    lemma_pow2_le(8, 64);
    let r = <u64 as FromBits<u8>>::converted(x);
    lemma_conversions_keep_values(x, 0, 0, 0, 0);
    lemma_fields_u64_u64(v, start, end, r, r, start, end);
    let back = <u64 as Bits<u64>>::extracted(<u64 as Bits<u64>>::inserted(v, start, end, r), start, end);
    lemma_conversions_keep_values(0, 0, 0, back, 0);
}

/// A `u16` field of a `u64` representation, as a derive packs and unpacks
/// it: the field's value is converted into a `u64`, written into the bits
/// `start..=end`, read back and converted into a `u16` again. A value that
/// fits in the field comes back unchanged.
pub proof fn lemma_field_round_trip_u64_u16(v: u64, start: usize, end: usize, x: u16)
    requires
        <u64 as Bits<u64>>::fits_insert(start, end),
        end - start < 16,
        x < pow2(range_width(start as int, end as int)),
    ensures
        <u16 as FromBits<u64>>::converted(
            <u64 as Bits<u64>>::extracted(<u64 as Bits<u64>>::inserted(v, start, end, x.converted_into()), start, end),
        ) == x,
{
    let w = range_width(start as int, end as int);
    lemma_conversions_keep_values(0, 0, 0, 0, 0);
    lemma2_to64();
    lemma_pow2_128();
    lemma_pow2_le(w, 16);
    lemma_pow2_le(w, 64);
    lemma_pow2_le(16, 64);
    let r = <u64 as FromBits<u16>>::converted(x);
    lemma_conversions_keep_values(0, x, 0, 0, 0);
    lemma_fields_u64_u64(v, start, end, r, r, start, end);
    let back = <u64 as Bits<u64>>::extracted(<u64 as Bits<u64>>::inserted(v, start, end, r), start, end);
    lemma_conversions_keep_values(0, 0, 0, back, 0);
}

/// A `u32` field of a `u64` representation, as a derive packs and unpacks
/// it: the field's value is converted into a `u64`, written into the bits
/// `start..=end`, read back and converted into a `u32` again. A value that
/// fits in the field comes back unchanged.
pub proof fn lemma_field_round_trip_u64_u32(v: u64, start: usize, end: usize, x: u32)
    requires
        <u64 as Bits<u64>>::fits_insert(start, end),
        end - start < 32,
        x < pow2(range_width(start as int, end as int)),
    ensures
        <u32 as FromBits<u64>>::converted(
            <u64 as Bits<u64>>::extracted(<u64 as Bits<u64>>::inserted(v, start, end, x.converted_into()), start, end),
        ) == x,
{
    let w = range_width(start as int, end as int);
    lemma_conversions_keep_values(0, 0, 0, 0, 0);
    lemma2_to64();
    lemma_pow2_128();
    lemma_pow2_le(w, 32);
    lemma_pow2_le(w, 64);
    lemma_pow2_le(32, 64);
    let r = <u64 as FromBits<u32>>::converted(x);
    lemma_conversions_keep_values(0, 0, x, 0, 0);
    lemma_fields_u64_u64(v, start, end, r, r, start, end);
    let back = <u64 as Bits<u64>>::extracted(<u64 as Bits<u64>>::inserted(v, start, end, r), start, end);
    lemma_conversions_keep_values(0, 0, 0, back, 0);
}

/// A `u64` field of a `u64` representation, as a derive packs and unpacks
/// it: the field's value is converted into a `u64`, written into the bits
/// `start..=end`, read back and converted into a `u64` again. A value that
/// fits in the field comes back unchanged.
pub proof fn lemma_field_round_trip_u64_u64(v: u64, start: usize, end: usize, x: u64)
    requires
        <u64 as Bits<u64>>::fits_insert(start, end),
        end - start < 64,
        x < pow2(range_width(start as int, end as int)),
    ensures
        <u64 as FromBits<u64>>::converted(
            <u64 as Bits<u64>>::extracted(<u64 as Bits<u64>>::inserted(v, start, end, x.converted_into()), start, end),
        ) == x,
{
    let w = range_width(start as int, end as int);
    lemma_conversions_keep_values(0, 0, 0, 0, 0);
    lemma2_to64();
    lemma_pow2_128();
    lemma_pow2_le(w, 64);
    lemma_pow2_le(w, 64);
    lemma_pow2_le(64, 64);
    let r = <u64 as FromBits<u64>>::converted(x);
    lemma_conversions_keep_values(0, 0, 0, x, 0);
    lemma_fields_u64_u64(v, start, end, r, r, start, end);
    let back = <u64 as Bits<u64>>::extracted(<u64 as Bits<u64>>::inserted(v, start, end, r), start, end);
    lemma_conversions_keep_values(0, 0, 0, back, 0);
}

/// A `u128` field of a `u64` representation, as a derive packs and unpacks
/// it: the field's value is converted into a `u64`, written into the bits
/// `start..=end`, read back and converted into a `u128` again. A value that
/// fits in the field comes back unchanged.
pub proof fn lemma_field_round_trip_u64_u128(v: u64, start: usize, end: usize, x: u128)
    requires
        <u64 as Bits<u64>>::fits_insert(start, end),
        end - start < 128,
        x < pow2(range_width(start as int, end as int)),
    ensures
        <u128 as FromBits<u64>>::converted(
            <u64 as Bits<u64>>::extracted(<u64 as Bits<u64>>::inserted(v, start, end, x.converted_into()), start, end),
        ) == x,
{
    let w = range_width(start as int, end as int);
    lemma_conversions_keep_values(0, 0, 0, 0, 0);
    lemma2_to64();
    lemma_pow2_128();
    lemma_pow2_le(w, 128);
    lemma_pow2_le(w, 64);
    lemma_pow2_le(128, 128);
    let r = <u64 as FromBits<u128>>::converted(x);
    lemma_conversions_keep_values(0, 0, 0, 0, x);
    lemma_fields_u64_u64(v, start, end, r, r, start, end);
    let back = <u64 as Bits<u64>>::extracted(<u64 as Bits<u64>>::inserted(v, start, end, r), start, end);
    lemma_conversions_keep_values(0, 0, 0, back, 0);
}

/// A `u8` field of a `u128` representation, as a derive packs and unpacks
/// it: the field's value is converted into a `u128`, written into the bits
/// `start..=end`, read back and converted into a `u8` again. A value that
/// fits in the field comes back unchanged.
pub proof fn lemma_field_round_trip_u128_u8(v: u128, start: usize, end: usize, x: u8)
    requires
        <u128 as Bits<u128>>::fits_insert(start, end),
        end - start < 8,
        x < pow2(range_width(start as int, end as int)),
    ensures
        <u8 as FromBits<u128>>::converted(
            <u128 as Bits<u128>>::extracted(<u128 as Bits<u128>>::inserted(v, start, end, x.converted_into()), start, end),
        ) == x,
{
    let w = range_width(start as int, end as int);
    lemma_conversions_keep_values(0, 0, 0, 0, 0);
    lemma2_to64();
    lemma_pow2_128();
    lemma_pow2_le(w, 8);
    lemma_pow2_le(w, 128);
    lemma_pow2_le(8, 128);
    let r = <u128 as FromBits<u8>>::converted(x);
    lemma_conversions_keep_values(x, 0, 0, 0, 0);
    lemma_fields_u128_u128(v, start, end, r, r, start, end);
    let back = <u128 as Bits<u128>>::extracted(<u128 as Bits<u128>>::inserted(v, start, end, r), start, end);
    lemma_conversions_keep_values(0, 0, 0, 0, back);
}

/// A `u16` field of a `u128` representation, as a derive packs and unpacks
/// it: the field's value is converted into a `u128`, written into the bits
/// `start..=end`, read back and converted into a `u16` again. A value that
/// fits in the field comes back unchanged.
pub proof fn lemma_field_round_trip_u128_u16(v: u128, start: usize, end: usize, x: u16)
    requires
        <u128 as Bits<u128>>::fits_insert(start, end),
        end - start < 16,
        x < pow2(range_width(start as int, end as int)),
    ensures
        <u16 as FromBits<u128>>::converted(
            <u128 as Bits<u128>>::extracted(<u128 as Bits<u128>>::inserted(v, start, end, x.converted_into()), start, end),
        ) == x,
{
    let w = range_width(start as int, end as int);
    lemma_conversions_keep_values(0, 0, 0, 0, 0);
    lemma2_to64();
    lemma_pow2_128();
    lemma_pow2_le(w, 16);
    lemma_pow2_le(w, 128);
    lemma_pow2_le(16, 128);
    let r = <u128 as FromBits<u16>>::converted(x);
    lemma_conversions_keep_values(0, x, 0, 0, 0);
    lemma_fields_u128_u128(v, start, end, r, r, start, end);
    let back = <u128 as Bits<u128>>::extracted(<u128 as Bits<u128>>::inserted(v, start, end, r), start, end);
    lemma_conversions_keep_values(0, 0, 0, 0, back);
}

/// A `u32` field of a `u128` representation, as a derive packs and unpacks
/// it: the field's value is converted into a `u128`, written into the bits
/// `start..=end`, read back and converted into a `u32` again. A value that
/// fits in the field comes back unchanged.
pub proof fn lemma_field_round_trip_u128_u32(v: u128, start: usize, end: usize, x: u32)
    requires
        <u128 as Bits<u128>>::fits_insert(start, end),
        end - start < 32,
        x < pow2(range_width(start as int, end as int)),
    ensures
        <u32 as FromBits<u128>>::converted(
            <u128 as Bits<u128>>::extracted(<u128 as Bits<u128>>::inserted(v, start, end, x.converted_into()), start, end),
        ) == x,
{
    let w = range_width(start as int, end as int);
    lemma_conversions_keep_values(0, 0, 0, 0, 0);
    lemma2_to64();
    lemma_pow2_128();
    lemma_pow2_le(w, 32);
    lemma_pow2_le(w, 128);
    lemma_pow2_le(32, 128);
    let r = <u128 as FromBits<u32>>::converted(x);
    lemma_conversions_keep_values(0, 0, x, 0, 0);
    lemma_fields_u128_u128(v, start, end, r, r, start, end);
    let back = <u128 as Bits<u128>>::extracted(<u128 as Bits<u128>>::inserted(v, start, end, r), start, end);
    lemma_conversions_keep_values(0, 0, 0, 0, back);
}

/// A `u64` field of a `u128` representation, as a derive packs and unpacks
/// it: the field's value is converted into a `u128`, written into the bits
/// `start..=end`, read back and converted into a `u64` again. A value that
/// fits in the field comes back unchanged.
pub proof fn lemma_field_round_trip_u128_u64(v: u128, start: usize, end: usize, x: u64)
    requires
        <u128 as Bits<u128>>::fits_insert(start, end),
        end - start < 64,
        x < pow2(range_width(start as int, end as int)),
    ensures
        <u64 as FromBits<u128>>::converted(
            <u128 as Bits<u128>>::extracted(<u128 as Bits<u128>>::inserted(v, start, end, x.converted_into()), start, end),
        ) == x,
{
    let w = range_width(start as int, end as int);
    lemma_conversions_keep_values(0, 0, 0, 0, 0);
    lemma2_to64();
    lemma_pow2_128();
    lemma_pow2_le(w, 64);
    lemma_pow2_le(w, 128);
    lemma_pow2_le(64, 128);
    let r = <u128 as FromBits<u64>>::converted(x);
    lemma_conversions_keep_values(0, 0, 0, x, 0);
    lemma_fields_u128_u128(v, start, end, r, r, start, end);
    let back = <u128 as Bits<u128>>::extracted(<u128 as Bits<u128>>::inserted(v, start, end, r), start, end);
    lemma_conversions_keep_values(0, 0, 0, 0, back);
}

/// A `u128` field of a `u128` representation, as a derive packs and unpacks
/// it: the field's value is converted into a `u128`, written into the bits
/// `start..=end`, read back and converted into a `u128` again. A value that
/// fits in the field comes back unchanged.
pub proof fn lemma_field_round_trip_u128_u128(v: u128, start: usize, end: usize, x: u128)
    requires
        <u128 as Bits<u128>>::fits_insert(start, end),
        end - start < 128,
        x < pow2(range_width(start as int, end as int)),
    ensures
        <u128 as FromBits<u128>>::converted(
            <u128 as Bits<u128>>::extracted(<u128 as Bits<u128>>::inserted(v, start, end, x.converted_into()), start, end),
        ) == x,
{
    let w = range_width(start as int, end as int);
    lemma_conversions_keep_values(0, 0, 0, 0, 0);
    lemma2_to64();
    lemma_pow2_128();
    lemma_pow2_le(w, 128);
    lemma_pow2_le(w, 128);
    lemma_pow2_le(128, 128);
    let r = <u128 as FromBits<u128>>::converted(x);
    lemma_conversions_keep_values(0, 0, 0, 0, x);
    lemma_fields_u128_u128(v, start, end, r, r, start, end);
    let back = <u128 as Bits<u128>>::extracted(<u128 as Bits<u128>>::inserted(v, start, end, r), start, end);
    lemma_conversions_keep_values(0, 0, 0, 0, back);
}

} // verus!

//! The bit representations of the primitive types, and the traits that every
//! bit packable type has through the others.
use vstd::prelude::*;
use crate::{BitPack, BitRepr, TryBitPack, UnsafeBitPack};

verus! {

impl BitRepr for u8 {
    type Repr = u8;
}

impl BitPack for u8 {
    open spec fn obeys_bit_pack_spec() -> bool {
        true
    }

    open spec fn packed(&self) -> u8 {
        *self
    }

    open spec fn unpacked(repr: u8) -> u8 {
        repr
    }

    #[inline(always)]
    fn pack(&self) -> (repr: u8) {
        *self
    }

    #[inline(always)]
    fn unpack(repr: u8) -> (value: u8) {
        repr
    }
}

impl BitRepr for u16 {
    type Repr = u16;
}

impl BitPack for u16 {
    open spec fn obeys_bit_pack_spec() -> bool {
        true
    }

    open spec fn packed(&self) -> u16 {
        *self
    }

    open spec fn unpacked(repr: u16) -> u16 {
        repr
    }

    #[inline(always)]
    fn pack(&self) -> (repr: u16) {
        *self
    }

    #[inline(always)]
    fn unpack(repr: u16) -> (value: u16) {
        repr
    }
}

impl BitRepr for u32 {
    type Repr = u32;
}

impl BitPack for u32 {
    open spec fn obeys_bit_pack_spec() -> bool {
        true
    }

    open spec fn packed(&self) -> u32 {
        *self
    }

    open spec fn unpacked(repr: u32) -> u32 {
        repr
    }

    #[inline(always)]
    fn pack(&self) -> (repr: u32) {
        *self
    }

    #[inline(always)]
    fn unpack(repr: u32) -> (value: u32) {
        repr
    }
}

impl BitRepr for u64 {
    type Repr = u64;
}

impl BitPack for u64 {
    open spec fn obeys_bit_pack_spec() -> bool {
        true
    }

    open spec fn packed(&self) -> u64 {
        *self
    }

    open spec fn unpacked(repr: u64) -> u64 {
        repr
    }

    #[inline(always)]
    fn pack(&self) -> (repr: u64) {
        *self
    }

    #[inline(always)]
    fn unpack(repr: u64) -> (value: u64) {
        repr
    }
}

impl BitRepr for u128 {
    type Repr = u128;
}

impl BitPack for u128 {
    open spec fn obeys_bit_pack_spec() -> bool {
        true
    }

    open spec fn packed(&self) -> u128 {
        *self
    }

    open spec fn unpacked(repr: u128) -> u128 {
        repr
    }

    #[inline(always)]
    fn pack(&self) -> (repr: u128) {
        *self
    }

    #[inline(always)]
    fn unpack(repr: u128) -> (value: u128) {
        repr
    }
}

impl BitRepr for bool {
    type Repr = u8;
}

impl BitPack for bool {
    open spec fn obeys_bit_pack_spec() -> bool {
        true
    }

    open spec fn packed(&self) -> u8 {
        if *self {
            1
        } else {
            0
        }
    }

    open spec fn unpacked(repr: u8) -> bool {
        repr != 0
    }

    #[inline(always)]
    fn pack(&self) -> (repr: u8) {
        *self as u8
    }

    #[inline(always)]
    fn unpack(repr: u8) -> (value: bool) {
        repr != 0
    }
}

/// Whether `v` is a Unicode scalar value: a code point that is no surrogate.
pub open spec fn is_scalar_value(v: u32) -> bool {
    v <= 0xD7FF || (0xE000 <= v && v <= 0x10FFFF)
}

/// Calls `char::from_u32`, which gives the `char` whose value is `repr`, and
/// `None` where `repr` is no Unicode scalar value (a surrogate, or a value
/// above `0x10FFFF`), as its documentation states.
#[verifier::external_body]
fn char_from_u32(repr: u32) -> (c: Option<char>)
    ensures
        c == (if is_scalar_value(repr) {
            Some(repr as char)
        } else {
            None
        }),
{
    char::from_u32(repr)
}

impl BitRepr for char {
    type Repr = u32;
}

impl TryBitPack for char {
    open spec fn obeys_try_bit_pack_spec() -> bool {
        true
    }

    open spec fn try_packed(&self) -> u32 {
        *self as u32
    }

    open spec fn try_unpacked(repr: u32) -> Option<char> {
        if is_scalar_value(repr) {
            Some(repr as char)
        } else {
            None
        }
    }

    #[inline(always)]
    fn pack(&self) -> (repr: u32) {
        *self as u32
    }

    #[inline(always)]
    fn try_unpack(repr: u32) -> (value: Option<char>) {
        char_from_u32(repr)
    }
}

impl<T: BitPack> TryBitPack for T {
    open spec fn obeys_try_bit_pack_spec() -> bool {
        T::obeys_bit_pack_spec()
    }

    open spec fn never_fails_to_unpack() -> bool {
        true
    }

    open spec fn try_packed(&self) -> Self::Repr {
        self.packed()
    }

    open spec fn try_unpacked(repr: Self::Repr) -> Option<Self> {
        Some(T::unpacked(repr))
    }

    #[inline(always)]
    fn pack(&self) -> (repr: Self::Repr) {
        BitPack::pack(self)
    }

    #[inline(always)]
    fn try_unpack(repr: Self::Repr) -> (value: Option<Self>) {
        Some(BitPack::unpack(repr))
    }
}

// This implementation also applies to the types which implement `BitPack`,
// because those implement `TryBitPack` as well.
impl<T: TryBitPack> UnsafeBitPack for T {
    open spec fn obeys_unsafe_bit_pack_spec() -> bool {
        T::obeys_try_bit_pack_spec()
    }

    open spec fn unchecked_packed(&self) -> Self::Repr {
        self.try_packed()
    }

    open spec fn is_valid_repr(repr: Self::Repr) -> bool {
        T::never_fails_to_unpack() || (T::obeys_try_bit_pack_spec() && T::try_unpacked(repr) is Some)
    }

    open spec fn unchecked_unpacked(repr: Self::Repr) -> Self {
        T::try_unpacked(repr)->0
    }

    #[inline(always)]
    fn pack(&self) -> (repr: Self::Repr) {
        TryBitPack::pack(self)
    }

    #[inline(always)]
    fn unsafe_unpack(repr: Self::Repr) -> (value: Self) {
        TryBitPack::try_unpack(repr).unwrap()
    }
}

/// Every unsigned integer is its own bit representation: unpacking what it
/// packs into gives it back, and packing what a representation unpacks into
/// gives the representation back.
pub proof fn lemma_integer_round_trip(a: u8, b: u16, c: u32, d: u64, e: u128)
    ensures
        <u8 as BitPack>::obeys_bit_pack_spec(),
        <u16 as BitPack>::obeys_bit_pack_spec(),
        <u32 as BitPack>::obeys_bit_pack_spec(),
        <u64 as BitPack>::obeys_bit_pack_spec(),
        <u128 as BitPack>::obeys_bit_pack_spec(),
        <u8 as BitPack>::unpacked(a.packed()) == a,
        <u8 as BitPack>::unpacked(a).packed() == a,
        <u16 as BitPack>::unpacked(b.packed()) == b,
        <u16 as BitPack>::unpacked(b).packed() == b,
        <u32 as BitPack>::unpacked(c.packed()) == c,
        <u32 as BitPack>::unpacked(c).packed() == c,
        <u64 as BitPack>::unpacked(d.packed()) == d,
        <u64 as BitPack>::unpacked(d).packed() == d,
        <u128 as BitPack>::unpacked(e.packed()) == e,
        <u128 as BitPack>::unpacked(e).packed() == e,
{
}

/// A `bool` unpacks from what it packs into, and a representation packs back
/// into `1` when it is not zero and into `0` when it is.
pub proof fn lemma_bool_round_trip(b: bool, repr: u8)
    ensures
        <bool as BitPack>::obeys_bit_pack_spec(),
        <bool as BitPack>::unpacked(b.packed()) == b,
        <bool as BitPack>::unpacked(repr).packed() == (if repr != 0 {
            1u8
        } else {
            0u8
        }),
{
}

/// A `char` unpacks from what it packs into; a representation unpacks exactly
/// when it is a Unicode scalar value, and then packs back into itself.
pub proof fn lemma_char_round_trip(c: char, repr: u32)
    ensures
        <char as TryBitPack>::obeys_try_bit_pack_spec(),
        <char as TryBitPack>::try_unpacked(c.try_packed()) == Some(c),
        <char as TryBitPack>::try_unpacked(repr) is Some <==> is_scalar_value(repr),
        <char as TryBitPack>::try_unpacked(repr) matches Some(d) ==> d.try_packed() == repr,
{
}

/// A type that always unpacks never fails to unpack, whatever its impl
/// states: its fallible unpack gives `Some` on every representation, and its
/// unchecked unpack accepts every representation.
pub proof fn lemma_bit_pack_always_unpacks<T: BitPack>(repr: T::Repr)
    ensures
        <T as TryBitPack>::never_fails_to_unpack(),
        <T as UnsafeBitPack>::is_valid_repr(repr),
{
}

/// A type that always unpacks, and keeps to its spec, keeps to the specs of
/// the other two traits as well, and all three traits pack and unpack it
/// alike.
pub proof fn lemma_bit_pack_never_fails<T: BitPack>(value: T, repr: T::Repr)
    requires
        T::obeys_bit_pack_spec(),
    ensures
        <T as TryBitPack>::obeys_try_bit_pack_spec(),
        <T as UnsafeBitPack>::obeys_unsafe_bit_pack_spec(),
        <T as TryBitPack>::try_unpacked(repr) == Some(T::unpacked(repr)),
        <T as UnsafeBitPack>::is_valid_repr(repr),
        <T as UnsafeBitPack>::unchecked_unpacked(repr) == T::unpacked(repr),
        value.try_packed() == value.packed(),
        value.unchecked_packed() == value.packed(),
{
}

/// For a fallibly unpacking type that keeps to its spec, every representation
/// that unpacks is valid for the unchecked unpack, which gives what the
/// checked unpack gives; where the type may fail to unpack, those are the
/// only valid representations.
pub proof fn lemma_unchecked_unpack_agrees<T: TryBitPack>(value: T, repr: T::Repr)
    requires
        T::obeys_try_bit_pack_spec(),
    ensures
        <T as UnsafeBitPack>::obeys_unsafe_bit_pack_spec(),
        T::try_unpacked(repr) is Some ==> <T as UnsafeBitPack>::is_valid_repr(repr),
        !T::never_fails_to_unpack() ==> (<T as UnsafeBitPack>::is_valid_repr(repr)
            <==> T::try_unpacked(repr) is Some),
        T::try_unpacked(repr) is Some ==> T::try_unpacked(repr) == Some(
            <T as UnsafeBitPack>::unchecked_unpacked(repr),
        ),
        value.unchecked_packed() == value.try_packed(),
{
}

/// Every unsigned integer packs into itself and unpacks from itself: its
/// representation is its own value, bit for bit.
pub proof fn lemma_integers_are_their_own_representation(a: u8, b: u16, c: u32, d: u64, e: u128)
    ensures
        a.packed() == a && <u8 as BitPack>::unpacked(a) == a,
        b.packed() == b && <u16 as BitPack>::unpacked(b) == b,
        c.packed() == c && <u32 as BitPack>::unpacked(c) == c,
        d.packed() == d && <u64 as BitPack>::unpacked(d) == d,
        e.packed() == e && <u128 as BitPack>::unpacked(e) == e,
{
}

} // verus!

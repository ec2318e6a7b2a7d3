//! Conversion of values into and from a string of bits: their "bit
//! representation".
//!
//! A type names its bit representation through [`BitRepr`] and converts with
//! one of three traits: [`BitPack`], whose unpacking always succeeds,
//! [`TryBitPack`], whose unpacking may fail, and [`UnsafeBitPack`], whose
//! unpacking is only defined on valid representations. Every [`BitPack`]
//! type is also a [`TryBitPack`] type that never fails, and every
//! [`TryBitPack`] type is also an [`UnsafeBitPack`] type whose valid
//! representations are those that unpack successfully.
//!
//! The module [`bits`] reads and writes bit fields of the unsigned integer
//! types; [`derive`] holds the rules by which a struct's fields are laid out
//! in its representation.
use vstd::prelude::*;

pub mod field;
pub mod word;
pub mod bits;
pub mod impls;
pub mod derive;

verus! {

/// Types which can be represented as bits use this trait to specify the type
/// of the underlying bit representation.
///
/// For example, a `char` uses `u32` as its bit representation. Although any
/// type may be accepted, only unsigned integer types are useful as
/// representation types.
pub trait BitRepr {
    /// The bit representation type of `Self`.
    type Repr;
}

/// Types which are representable as bits may use this trait to convert into
/// or from their bit representation.
///
/// The spec functions of the packing traits say what a type packs into and
/// unpacks from. An impl states that it keeps to them by defining
/// `obeys_bit_pack_spec` (and its siblings of the other traits) as `true`, as
/// the impls of this crate do. An impl that keeps the defaults states
/// nothing: its `obeys_..._spec` is `false`, and each contract below speaks
/// only of impls that obey.
pub trait BitPack: BitRepr + Sized {
    /// Whether the impl keeps to `packed` and `unpacked`.
    closed spec fn obeys_bit_pack_spec() -> bool {
        false
    }

    /// The representation that `self` packs into.
    closed spec fn packed(&self) -> Self::Repr {
        arbitrary()
    }

    /// The value that `repr` unpacks into.
    closed spec fn unpacked(repr: Self::Repr) -> Self {
        arbitrary()
    }

    /// Packs a value of `Self` into its bits representable format.
    fn pack(&self) -> (repr: Self::Repr)
        ensures
            Self::obeys_bit_pack_spec() ==> repr == self.packed(),
    ;

    /// Convert a bit representation of `Self` into an instance of `Self`.
    fn unpack(repr: Self::Repr) -> (value: Self)
        ensures
            Self::obeys_bit_pack_spec() ==> value == Self::unpacked(repr),
    ;
}

/// Types which are representable as bits, where the conversion from the bit
/// representation may fail.
pub trait TryBitPack: BitRepr + Sized {
    /// Whether the impl keeps to `try_packed` and `try_unpacked`.
    closed spec fn obeys_try_bit_pack_spec() -> bool {
        false
    }

    /// The representation that `self` packs into.
    closed spec fn try_packed(&self) -> Self::Repr {
        arbitrary()
    }

    /// Whether unpacking never fails: then `try_unpack` gives `Some` for
    /// every representation, whether or not the impl keeps to
    /// `try_unpacked`.
    closed spec fn never_fails_to_unpack() -> bool {
        false
    }

    /// What unpacking `repr` gives: `None` where `repr` represents no value.
    closed spec fn try_unpacked(repr: Self::Repr) -> Option<Self> {
        arbitrary()
    }

    /// Packs a value of `Self` into its bits representable format.
    fn pack(&self) -> (repr: Self::Repr)
        ensures
            Self::obeys_try_bit_pack_spec() ==> repr == self.try_packed(),
    ;

    /// Attempts to convert a bit representation of `Self` into an instance
    /// of `Self`. Returns `None` on failure.
    fn try_unpack(repr: Self::Repr) -> (value: Option<Self>)
        ensures
            Self::obeys_try_bit_pack_spec() ==> value == Self::try_unpacked(repr),
            Self::never_fails_to_unpack() ==> value is Some,
    ;
}

/// Types which are representable as bits, where the conversion from the bit
/// representation is only defined for valid representations.
pub trait UnsafeBitPack: BitRepr + Sized {
    /// Whether the impl keeps to `unchecked_packed` and `unchecked_unpacked`.
    closed spec fn obeys_unsafe_bit_pack_spec() -> bool {
        false
    }

    /// The representation that `self` packs into.
    closed spec fn unchecked_packed(&self) -> Self::Repr {
        arbitrary()
    }

    /// Whether `repr` is known to be a valid bit representation of `Self`;
    /// for an impl that keeps the default, none is.
    closed spec fn is_valid_repr(repr: Self::Repr) -> bool {
        false
    }

    /// The value that a valid `repr` unpacks into.
    closed spec fn unchecked_unpacked(repr: Self::Repr) -> Self {
        arbitrary()
    }

    /// Packs a value of `Self` into its bits representable format.
    fn pack(&self) -> (repr: Self::Repr)
        ensures
            Self::obeys_unsafe_bit_pack_spec() ==> repr == self.unchecked_packed(),
    ;

    /// Convert a bit representation of `Self` into an instance of `Self`.
    /// The caller has to guarantee that `repr` is a valid bit
    /// representation of `Self`.
    fn unsafe_unpack(repr: Self::Repr) -> (value: Self)
        requires
            Self::is_valid_repr(repr),
        ensures
            Self::obeys_unsafe_bit_pack_spec() ==> value == Self::unchecked_unpacked(repr),
    ;
}

} // verus!

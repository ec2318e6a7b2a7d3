// Each struct below has by hand the impls that its bit layout calls for, in
// the shape that the derives give them: the representation starts at zero,
// each field is inserted into its bits, and each is extracted back.
use bitrepr::bits::{extract, insert};
use bitrepr::{BitPack, BitRepr, TryBitPack, UnsafeBitPack};

/// The bits `start..=end` of `v`.
fn bits(v: u32, start: u32, end: u32) -> u32 {
    (v >> start) & (1u32.unbounded_shl(end + 1 - start)).wrapping_sub(1)
}

/// Whether bit `bit` of `v` is set.
fn bit(v: u32, bit: u32) -> bool {
    bits(v, bit, bit) != 0
}

/// `value`, cut to the bits up to `end`, moved up to bit `start`.
fn value(start: u32, end: u32, value: u32) -> u32 {
    (value & (1u32.unbounded_shl(end + 1)).wrapping_sub(1)) << start
}

/// Whether `l` and `r` agree on one of the given bit ranges.
fn masked_eq(l: u32, r: u32, ranges: &[(u32, u32)]) -> bool {
    ranges.iter().any(|&(s, e)| bits(l, s, e) == bits(r, s, e))
}

/// Values spread over all of `u32`, with its edges and the bits around the
/// fields' ends.
fn samples() -> Vec<u32> {
    let mut v: Vec<u32> = (0..=u32::MAX).step_by(65_521).collect();
    v.extend_from_slice(&[u32::MAX, u32::MAX - 1, 0x8000_0000, 0x7fff_ffff, 0x0100_0000, 0x0400_0000]);
    v
}

#[derive(Debug)]
struct Simple {
    f0: u8,
    f1: u16,
    f2: bool,
    f3: bool,
    f4: u8,
}

impl BitRepr for Simple {
    type Repr = u32;
}

impl BitPack for Simple {
    fn pack(&self) -> u32 {
        let mut repr: u32 = Default::default();
        {
            let f: fn(&u8) -> u8 = <u8 as BitPack>::pack;
            insert::<u32, _, 0, 7>(&mut repr, &f(&self.f0))
        };
        {
            let f: fn(&u16) -> u16 = <u16 as BitPack>::pack;
            insert::<u32, _, 8, 23>(&mut repr, &f(&self.f1))
        };
        {
            let f: fn(&bool) -> u8 = <bool as BitPack>::pack;
            insert::<u32, _, 24, 24>(&mut repr, &f(&self.f2))
        };
        {
            let f: fn(&bool) -> u8 = <bool as BitPack>::pack;
            insert::<u32, _, 26, 26>(&mut repr, &f(&self.f3))
        };
        {
            let f: fn(&u8) -> u8 = <u8 as BitPack>::pack;
            insert::<u32, _, 29, { ::core::mem::size_of::<u32>() * 8 - 1 }>(&mut repr, &f(&self.f4))
        };
        repr
    }

    fn unpack(bits: u32) -> Self {
        Self {
            f0: {
                let f: fn(u8) -> u8 = <u8 as BitPack>::unpack;
                f(extract::<u32, _, _, 0, 7>(bits))
            },
            f1: {
                let f: fn(u16) -> u16 = <u16 as BitPack>::unpack;
                f(extract::<u32, _, _, 8, 23>(bits))
            },
            f2: {
                let f: fn(u8) -> bool = <bool as BitPack>::unpack;
                f(extract::<u32, _, _, 24, 24>(bits))
            },
            f3: {
                let f: fn(u8) -> bool = <bool as BitPack>::unpack;
                f(extract::<u32, _, _, 26, 26>(bits))
            },
            f4: {
                let f: fn(u8) -> u8 = <u8 as BitPack>::unpack;
                f(extract::<u32, _, _, 29, { ::core::mem::size_of::<u32>() * 8 - 1 }>(bits))
            },
        }
    }
}

#[test]
fn transitive_sampled() {
    for v in samples() {
        let simple = Simple::unpack(v);

        assert_eq!(simple.f0 as u32, bits(v, 0, 7));
        assert_eq!(simple.f1 as u32, bits(v, 8, 23));
        assert_eq!(simple.f2, bit(v, 24));
        assert_eq!(simple.f3, bit(v, 26));
        assert_eq!(simple.f4 as u32, bits(v, 29, 31));

        let packed = BitPack::pack(&simple);

        assert!(masked_eq(v, packed, &[(0, 7), (8, 23), (24, 24), (26, 26), (29, 31)]));
        assert!(masked_eq(0, packed, &[(25, 25), (27, 28)]));
        // every field bit is kept, and no other bit is set
        assert_eq!(packed, v & !((1 << 25) | (0b11 << 27)));
    }
}

struct TrySimple {
    f0: u8,
    f1: u16,
    f2: bool,
    f3: bool,
    f4: u8,
}

impl BitRepr for TrySimple {
    type Repr = u32;
}

impl TryBitPack for TrySimple {
    fn pack(&self) -> u32 {
        let mut repr: u32 = Default::default();
        {
            let f: fn(&u8) -> u8 = <u8 as TryBitPack>::pack;
            insert::<u32, _, 0, 7>(&mut repr, &f(&self.f0))
        };
        {
            let f: fn(&u16) -> u16 = <u16 as TryBitPack>::pack;
            insert::<u32, _, 8, 23>(&mut repr, &f(&self.f1))
        };
        {
            let f: fn(&bool) -> u8 = <bool as TryBitPack>::pack;
            insert::<u32, _, 24, 24>(&mut repr, &f(&self.f2))
        };
        {
            let f: fn(&bool) -> u8 = <bool as TryBitPack>::pack;
            insert::<u32, _, 26, 26>(&mut repr, &f(&self.f3))
        };
        {
            let f: fn(&u8) -> u8 = <u8 as TryBitPack>::pack;
            insert::<u32, _, 29, { ::core::mem::size_of::<u32>() * 8 - 1 }>(&mut repr, &f(&self.f4))
        };
        repr
    }

    fn try_unpack(bits: u32) -> Option<Self> {
        Some(Self {
            f0: {
                let f: fn(u8) -> Option<u8> = <u8 as TryBitPack>::try_unpack;
                f(extract::<u32, _, _, 0, 7>(bits))?
            },
            f1: {
                let f: fn(u16) -> Option<u16> = <u16 as TryBitPack>::try_unpack;
                f(extract::<u32, _, _, 8, 23>(bits))?
            },
            f2: {
                let f: fn(u8) -> Option<bool> = <bool as TryBitPack>::try_unpack;
                f(extract::<u32, _, _, 24, 24>(bits))?
            },
            f3: {
                let f: fn(u8) -> Option<bool> = <bool as TryBitPack>::try_unpack;
                f(extract::<u32, _, _, 26, 26>(bits))?
            },
            f4: {
                let f: fn(u8) -> Option<u8> = <u8 as TryBitPack>::try_unpack;
                f(extract::<u32, _, _, 29, { ::core::mem::size_of::<u32>() * 8 - 1 }>(bits))?
            },
        })
    }
}

#[test]
fn try_transitive_sampled() {
    for v in samples() {
        let simple = TrySimple::try_unpack(v).unwrap();

        assert_eq!(simple.f0 as u32, bits(v, 0, 7));
        assert_eq!(simple.f1 as u32, bits(v, 8, 23));
        assert_eq!(simple.f2, bit(v, 24));
        assert_eq!(simple.f3, bit(v, 26));
        assert_eq!(simple.f4 as u32, bits(v, 29, 31));

        let packed = TryBitPack::pack(&simple);

        assert!(masked_eq(v, packed, &[(0, 7), (8, 23), (24, 24), (26, 26), (29, 31)]));
        assert!(masked_eq(0, packed, &[(25, 25), (27, 28)]));
        assert_eq!(packed, v & !((1 << 25) | (0b11 << 27)));
    }
}

struct UnsafeSimple {
    f0: u8,
    f1: u16,
    f2: bool,
    f3: bool,
    f4: u8,
}

impl BitRepr for UnsafeSimple {
    type Repr = u32;
}

impl UnsafeBitPack for UnsafeSimple {
    fn pack(&self) -> u32 {
        let mut repr: u32 = Default::default();
        {
            let f: fn(&u8) -> u8 = <u8 as UnsafeBitPack>::pack;
            insert::<u32, _, 0, 7>(&mut repr, &f(&self.f0))
        };
        {
            let f: fn(&u16) -> u16 = <u16 as UnsafeBitPack>::pack;
            insert::<u32, _, 8, 23>(&mut repr, &f(&self.f1))
        };
        {
            let f: fn(&bool) -> u8 = <bool as UnsafeBitPack>::pack;
            insert::<u32, _, 24, 24>(&mut repr, &f(&self.f2))
        };
        {
            let f: fn(&bool) -> u8 = <bool as UnsafeBitPack>::pack;
            insert::<u32, _, 26, 26>(&mut repr, &f(&self.f3))
        };
        {
            let f: fn(&u8) -> u8 = <u8 as UnsafeBitPack>::pack;
            insert::<u32, _, 29, { ::core::mem::size_of::<u32>() * 8 - 1 }>(&mut repr, &f(&self.f4))
        };
        repr
    }

    fn unsafe_unpack(bits: u32) -> Self {
        Self {
            f0: {
                let f: fn(u8) -> u8 = <u8 as UnsafeBitPack>::unsafe_unpack;
                f(extract::<u32, _, _, 0, 7>(bits))
            },
            f1: {
                let f: fn(u16) -> u16 = <u16 as UnsafeBitPack>::unsafe_unpack;
                f(extract::<u32, _, _, 8, 23>(bits))
            },
            f2: {
                let f: fn(u8) -> bool = <bool as UnsafeBitPack>::unsafe_unpack;
                f(extract::<u32, _, _, 24, 24>(bits))
            },
            f3: {
                let f: fn(u8) -> bool = <bool as UnsafeBitPack>::unsafe_unpack;
                f(extract::<u32, _, _, 26, 26>(bits))
            },
            f4: {
                let f: fn(u8) -> u8 = <u8 as UnsafeBitPack>::unsafe_unpack;
                f(extract::<u32, _, _, 29, { ::core::mem::size_of::<u32>() * 8 - 1 }>(bits))
            },
        }
    }
}

#[test]
fn unsafe_transitive_sampled() {
    for v in samples() {
        let simple = UnsafeSimple::unsafe_unpack(v);

        assert_eq!(simple.f0 as u32, bits(v, 0, 7));
        assert_eq!(simple.f1 as u32, bits(v, 8, 23));
        assert_eq!(simple.f2, bit(v, 24));
        assert_eq!(simple.f3, bit(v, 26));
        assert_eq!(simple.f4 as u32, bits(v, 29, 31));

        let packed = simple.pack();

        assert!(masked_eq(v, packed, &[(0, 7), (8, 23), (24, 24), (26, 26), (29, 31)]));
        assert!(masked_eq(0, packed, &[(25, 25), (27, 28)]));
        assert_eq!(packed, v & !((1 << 25) | (0b11 << 27)));
    }
}

struct TryFullU32 {
    full: u32,
}

impl BitRepr for TryFullU32 {
    type Repr = u32;
}

impl TryBitPack for TryFullU32 {
    fn pack(&self) -> u32 {
        let mut repr: u32 = Default::default();
        {
            let f: fn(&u32) -> u32 = <u32 as TryBitPack>::pack;
            insert::<u32, _, 0, { ::core::mem::size_of::<u32>() * 8 - 1 }>(&mut repr, &f(&self.full))
        };
        repr
    }

    fn try_unpack(bits: u32) -> Option<Self> {
        Some(Self {
            full: {
                let f: fn(u32) -> Option<u32> = <u32 as TryBitPack>::try_unpack;
                f(extract::<u32, _, _, 0, { ::core::mem::size_of::<u32>() * 8 - 1 }>(bits))?
            },
        })
    }
}

struct UnsafeFullU32 {
    full: u32,
}

impl BitRepr for UnsafeFullU32 {
    type Repr = u32;
}

impl UnsafeBitPack for UnsafeFullU32 {
    fn pack(&self) -> u32 {
        let mut repr: u32 = Default::default();
        {
            let f: fn(&u32) -> u32 = <u32 as UnsafeBitPack>::pack;
            insert::<u32, _, 0, { ::core::mem::size_of::<u32>() * 8 - 1 }>(&mut repr, &f(&self.full))
        };
        repr
    }

    fn unsafe_unpack(bits: u32) -> Self {
        Self {
            full: {
                let f: fn(u32) -> u32 = <u32 as UnsafeBitPack>::unsafe_unpack;
                f(extract::<u32, _, _, 0, { ::core::mem::size_of::<u32>() * 8 - 1 }>(bits))
            },
        }
    }
}

struct TryFullU16 {
    full: u16,
}

impl BitRepr for TryFullU16 {
    type Repr = u16;
}

impl TryBitPack for TryFullU16 {
    fn pack(&self) -> u16 {
        let mut repr: u16 = Default::default();
        {
            let f: fn(&u16) -> u16 = <u16 as TryBitPack>::pack;
            insert::<u16, _, 0, { ::core::mem::size_of::<u16>() * 8 - 1 }>(&mut repr, &f(&self.full))
        };
        repr
    }

    fn try_unpack(bits: u16) -> Option<Self> {
        Some(Self {
            full: {
                let f: fn(u16) -> Option<u16> = <u16 as TryBitPack>::try_unpack;
                f(extract::<u16, _, _, 0, { ::core::mem::size_of::<u16>() * 8 - 1 }>(bits))?
            },
        })
    }
}

struct UnsafeFullU16 {
    full: u16,
}

impl BitRepr for UnsafeFullU16 {
    type Repr = u16;
}

impl UnsafeBitPack for UnsafeFullU16 {
    fn pack(&self) -> u16 {
        let mut repr: u16 = Default::default();
        {
            let f: fn(&u16) -> u16 = <u16 as UnsafeBitPack>::pack;
            insert::<u16, _, 0, { ::core::mem::size_of::<u16>() * 8 - 1 }>(&mut repr, &f(&self.full))
        };
        repr
    }

    fn unsafe_unpack(bits: u16) -> Self {
        Self {
            full: {
                let f: fn(u16) -> u16 = <u16 as UnsafeBitPack>::unsafe_unpack;
                f(extract::<u16, _, _, 0, { ::core::mem::size_of::<u16>() * 8 - 1 }>(bits))
            },
        }
    }
}

struct TryFullU8 {
    full: u8,
}

impl BitRepr for TryFullU8 {
    type Repr = u8;
}

impl TryBitPack for TryFullU8 {
    fn pack(&self) -> u8 {
        let mut repr: u8 = Default::default();
        {
            let f: fn(&u8) -> u8 = <u8 as TryBitPack>::pack;
            insert::<u8, _, 0, { ::core::mem::size_of::<u8>() * 8 - 1 }>(&mut repr, &f(&self.full))
        };
        repr
    }

    fn try_unpack(bits: u8) -> Option<Self> {
        Some(Self {
            full: {
                let f: fn(u8) -> Option<u8> = <u8 as TryBitPack>::try_unpack;
                f(extract::<u8, _, _, 0, { ::core::mem::size_of::<u8>() * 8 - 1 }>(bits))?
            },
        })
    }
}

struct UnsafeFullU8 {
    full: u8,
}

impl BitRepr for UnsafeFullU8 {
    type Repr = u8;
}

impl UnsafeBitPack for UnsafeFullU8 {
    fn pack(&self) -> u8 {
        let mut repr: u8 = Default::default();
        {
            let f: fn(&u8) -> u8 = <u8 as UnsafeBitPack>::pack;
            insert::<u8, _, 0, { ::core::mem::size_of::<u8>() * 8 - 1 }>(&mut repr, &f(&self.full))
        };
        repr
    }

    fn unsafe_unpack(bits: u8) -> Self {
        Self {
            full: {
                let f: fn(u8) -> u8 = <u8 as UnsafeBitPack>::unsafe_unpack;
                f(extract::<u8, _, _, 0, { ::core::mem::size_of::<u8>() * 8 - 1 }>(bits))
            },
        }
    }
}

#[test]
fn try_full_small_and_sampled() {
    for v in samples() {
        let full = TryFullU32 { full: v };
        assert_eq!(v, TryBitPack::pack(&full));
        assert_eq!(TryFullU32::try_unpack(v).unwrap().full, v);
    }
    for v in 0..u16::MAX {
        let full = TryFullU16 { full: v };
        assert_eq!(v, TryBitPack::pack(&full));
        assert_eq!(TryFullU16::try_unpack(v).unwrap().full, v);
    }
    for v in 0..u8::MAX {
        let full = TryFullU8 { full: v };
        assert_eq!(v, TryBitPack::pack(&full));
        assert_eq!(TryFullU8::try_unpack(v).unwrap().full, v);
    }
}

#[test]
fn unsafe_full_small_and_sampled() {
    for v in samples() {
        let full = UnsafeFullU32 { full: v };
        assert_eq!(v, full.pack());
        assert_eq!(UnsafeFullU32::unsafe_unpack(v).full, v);
    }
    for v in 0..u16::MAX {
        let full = UnsafeFullU16 { full: v };
        assert_eq!(v, full.pack());
        assert_eq!(UnsafeFullU16::unsafe_unpack(v).full, v);
    }
    for v in 0..u8::MAX {
        let full = UnsafeFullU8 { full: v };
        assert_eq!(v, full.pack());
        assert_eq!(UnsafeFullU8::unsafe_unpack(v).full, v);
    }
}

#[derive(Debug)]
struct Packed {
    f0: bool,
    f1: u8,
    f2: u32,
}

impl BitRepr for Packed {
    type Repr = u32;
}

impl BitPack for Packed {
    fn pack(&self) -> u32 {
        let mut repr: u32 = Default::default();
        {
            let f: fn(&bool) -> u8 = <bool as BitPack>::pack;
            insert::<u32, _, 7, 7>(&mut repr, &f(&self.f0))
        };
        {
            let f: fn(&u8) -> u8 = <u8 as BitPack>::pack;
            insert::<u32, _, 11, 17>(&mut repr, &f(&self.f1))
        };
        {
            let f: fn(&u32) -> u32 = <u32 as BitPack>::pack;
            insert::<u32, _, 21, { ::core::mem::size_of::<u32>() * 8 - 1 }>(&mut repr, &f(&self.f2))
        };
        repr
    }

    fn unpack(bits: u32) -> Self {
        Self {
            f0: {
                let f: fn(u8) -> bool = <bool as BitPack>::unpack;
                f(extract::<u32, _, _, 7, 7>(bits))
            },
            f1: {
                let f: fn(u8) -> u8 = <u8 as BitPack>::unpack;
                f(extract::<u32, _, _, 11, 17>(bits))
            },
            f2: {
                let f: fn(u32) -> u32 = <u32 as BitPack>::unpack;
                f(extract::<u32, _, _, 21, { ::core::mem::size_of::<u32>() * 8 - 1 }>(bits))
            },
        }
    }
}

#[test]
fn unpacks() {
    for (f0, f1, f2) in [(true, 0x7f, 0x7ff), (true, 0, 0)] {
        let packed = value(7, 7, f0 as u32) | value(11, 18, f1 as u32) | value(21, 31, f2);
        let packed = Packed::unpack(packed);

        assert_eq!(f0, packed.f0);
        assert_eq!(f1, packed.f1);
        assert_eq!(f2, packed.f2);
    }

    for ((f0, f1, f2), (cf0, cf1, cf2)) in [
        ((false, 0xff, 0xfff), (false, 0x7f, 0x7ff)),
        ((true, u32::MAX, u32::MAX), (true, 0x7f, 0x7ff)),
    ] {
        let packed = value(7, 31, f0 as u32) | value(11, 31, f1) | value(21, 31, f2);
        let packed = Packed::unpack(packed);

        assert_eq!(cf0, packed.f0);
        assert_eq!(cf1, packed.f1);
        assert_eq!(cf2, packed.f2);
    }
}

#[test]
fn packs() {
    for (unpacked, (cf0, cf1, cf2)) in [
        (Packed { f0: true, f1: 0x78, f2: 0xffff }, (true, 0x78, 0x7ff)),
        (Packed { f0: true, f1: 0x78, f2: 0xffff }, (true, 0x78, 0x7ff)),
    ] {
        let pack = BitPack::pack(&unpacked);

        assert_eq!(cf0, bit(pack, 7));
        assert_eq!(cf1, bits(pack, 11, 17));
        assert_eq!(cf2, bits(pack, 21, 31));
    }
}

struct TryPacked {
    f0: bool,
    f1: u8,
    f2: u32,
}

impl BitRepr for TryPacked {
    type Repr = u32;
}

impl TryBitPack for TryPacked {
    fn pack(&self) -> u32 {
        let mut repr: u32 = Default::default();
        {
            let f: fn(&bool) -> u8 = <bool as TryBitPack>::pack;
            insert::<u32, _, 7, 7>(&mut repr, &f(&self.f0))
        };
        {
            let f: fn(&u8) -> u8 = <u8 as TryBitPack>::pack;
            insert::<u32, _, 11, 17>(&mut repr, &f(&self.f1))
        };
        {
            let f: fn(&u32) -> u32 = <u32 as TryBitPack>::pack;
            insert::<u32, _, 21, 31>(&mut repr, &f(&self.f2))
        };
        repr
    }

    fn try_unpack(bits: u32) -> Option<Self> {
        Some(Self {
            f0: {
                let f: fn(u8) -> Option<bool> = <bool as TryBitPack>::try_unpack;
                f(extract::<u32, _, _, 7, 7>(bits))?
            },
            f1: {
                let f: fn(u8) -> Option<u8> = <u8 as TryBitPack>::try_unpack;
                f(extract::<u32, _, _, 11, 17>(bits))?
            },
            f2: {
                let f: fn(u32) -> Option<u32> = <u32 as TryBitPack>::try_unpack;
                f(extract::<u32, _, _, 21, 31>(bits))?
            },
        })
    }
}

#[test]
fn try_unpacks() {
    for (f0, f1, f2) in [(true, 0x7f, 0x7ff), (true, 0, 0)] {
        let packed = value(7, 7, f0 as u32) | value(11, 18, f1 as u32) | value(21, 31, f2);
        let packed = TryPacked::try_unpack(packed).unwrap();

        assert_eq!(f0, packed.f0);
        assert_eq!(f1, packed.f1);
        assert_eq!(f2, packed.f2);
    }

    for ((f0, f1, f2), (cf0, cf1, cf2)) in [
        ((false, 0xff, 0xfff), (false, 0x7f, 0x7ff)),
        ((true, u32::MAX, u32::MAX), (true, 0x7f, 0x7ff)),
    ] {
        let packed = value(7, 31, f0 as u32) | value(11, 31, f1) | value(21, 31, f2);
        let packed = TryPacked::try_unpack(packed).unwrap();

        assert_eq!(cf0, packed.f0);
        assert_eq!(cf1, packed.f1);
        assert_eq!(cf2, packed.f2);
    }
}

#[test]
fn try_packs() {
    for (unpacked, (cf0, cf1, cf2)) in [
        (TryPacked { f0: true, f1: 0x78, f2: 0xffff }, (true, 0x78, 0x7ff)),
        (TryPacked { f0: true, f1: 0x78, f2: 0xffff }, (true, 0x78, 0x7ff)),
    ] {
        let pack = TryBitPack::pack(&unpacked);

        assert_eq!(cf0, bit(pack, 7));
        assert_eq!(cf1, bits(pack, 11, 17));
        assert_eq!(cf2, bits(pack, 21, 31));
    }
}

struct UnsafePacked {
    f0: bool,
    f1: u8,
    f2: u32,
}

impl BitRepr for UnsafePacked {
    type Repr = u32;
}

impl UnsafeBitPack for UnsafePacked {
    fn pack(&self) -> u32 {
        let mut repr: u32 = Default::default();
        {
            let f: fn(&bool) -> u8 = <bool as UnsafeBitPack>::pack;
            insert::<u32, _, 7, 7>(&mut repr, &f(&self.f0))
        };
        {
            let f: fn(&u8) -> u8 = <u8 as UnsafeBitPack>::pack;
            insert::<u32, _, 11, 17>(&mut repr, &f(&self.f1))
        };
        {
            let f: fn(&u32) -> u32 = <u32 as UnsafeBitPack>::pack;
            insert::<u32, _, 21, 31>(&mut repr, &f(&self.f2))
        };
        repr
    }

    fn unsafe_unpack(bits: u32) -> Self {
        Self {
            f0: {
                let f: fn(u8) -> bool = <bool as UnsafeBitPack>::unsafe_unpack;
                f(extract::<u32, _, _, 7, 7>(bits))
            },
            f1: {
                let f: fn(u8) -> u8 = <u8 as UnsafeBitPack>::unsafe_unpack;
                f(extract::<u32, _, _, 11, 17>(bits))
            },
            f2: {
                let f: fn(u32) -> u32 = <u32 as UnsafeBitPack>::unsafe_unpack;
                f(extract::<u32, _, _, 21, 31>(bits))
            },
        }
    }
}

#[test]
fn unsafe_unpacks() {
    for (f0, f1, f2) in [(true, 0x7f, 0x7ff), (true, 0, 0)] {
        let packed = value(7, 7, f0 as u32) | value(11, 18, f1 as u32) | value(21, 31, f2);
        let packed = UnsafePacked::unsafe_unpack(packed);

        assert_eq!(f0, packed.f0);
        assert_eq!(f1, packed.f1);
        assert_eq!(f2, packed.f2);
    }

    for ((f0, f1, f2), (cf0, cf1, cf2)) in [
        ((false, 0xff, 0xfff), (false, 0x7f, 0x7ff)),
        ((true, u32::MAX, u32::MAX), (true, 0x7f, 0x7ff)),
    ] {
        let packed = value(7, 31, f0 as u32) | value(11, 31, f1) | value(21, 31, f2);
        let packed = UnsafePacked::unsafe_unpack(packed);

        assert_eq!(cf0, packed.f0);
        assert_eq!(cf1, packed.f1);
        assert_eq!(cf2, packed.f2);
    }
}

#[test]
fn unsafe_packs() {
    for (unpacked, (cf0, cf1, cf2)) in [
        (UnsafePacked { f0: true, f1: 0x78, f2: 0xffff }, (true, 0x78, 0x7ff)),
        (UnsafePacked { f0: true, f1: 0x78, f2: 0xffff }, (true, 0x78, 0x7ff)),
    ] {
        let pack = unpacked.pack();

        assert_eq!(cf0, bit(pack, 7));
        assert_eq!(cf1, bits(pack, 11, 17));
        assert_eq!(cf2, bits(pack, 21, 31));
    }
}

struct FullU16 {
    full: u16,
}

impl BitRepr for FullU16 {
    type Repr = u16;
}

impl BitPack for FullU16 {
    fn pack(&self) -> u16 {
        let mut repr: u16 = Default::default();
        {
            let f: fn(&u16) -> u16 = <u16 as BitPack>::pack;
            insert::<u16, _, 0, { ::core::mem::size_of::<u16>() * 8 - 1 }>(&mut repr, &f(&self.full))
        };
        repr
    }

    fn unpack(bits: u16) -> Self {
        Self {
            full: {
                let f: fn(u16) -> u16 = <u16 as BitPack>::unpack;
                f(extract::<u16, _, _, 0, { ::core::mem::size_of::<u16>() * 8 - 1 }>(bits))
            },
        }
    }
}

struct FullU8 {
    full: u8,
}

impl BitRepr for FullU8 {
    type Repr = u8;
}

impl BitPack for FullU8 {
    fn pack(&self) -> u8 {
        let mut repr: u8 = Default::default();
        {
            let f: fn(&u8) -> u8 = <u8 as BitPack>::pack;
            insert::<u8, _, 0, { ::core::mem::size_of::<u8>() * 8 - 1 }>(&mut repr, &f(&self.full))
        };
        repr
    }

    fn unpack(bits: u8) -> Self {
        Self {
            full: {
                let f: fn(u8) -> u8 = <u8 as BitPack>::unpack;
                f(extract::<u8, _, _, 0, { ::core::mem::size_of::<u8>() * 8 - 1 }>(bits))
            },
        }
    }
}

struct FullU32 {
    full: u32,
}

impl BitRepr for FullU32 {
    type Repr = u32;
}

impl BitPack for FullU32 {
    fn pack(&self) -> u32 {
        let mut repr: u32 = Default::default();
        {
            let f: fn(&u32) -> u32 = <u32 as BitPack>::pack;
            insert::<u32, _, 0, 31>(&mut repr, &f(&self.full))
        };
        repr
    }

    fn unpack(bits: u32) -> Self {
        Self {
            full: {
                let f: fn(u32) -> u32 = <u32 as BitPack>::unpack;
                f(extract::<u32, _, _, 0, 31>(bits))
            },
        }
    }
}

#[test]
fn full_small_and_sampled() {
    for v in samples() {
        let full = FullU32 { full: v };
        let pack = BitPack::pack(&full);
        assert_eq!(v, pack);
        let full = FullU32::unpack(v);
        assert_eq!(full.full, v);
    }

    for v in 0..u16::MAX {
        let full = FullU16 { full: v };
        let pack = BitPack::pack(&full);
        assert_eq!(v, pack);
        let full = FullU16::unpack(v);
        assert_eq!(full.full, v);
    }

    for v in 0..u8::MAX {
        let full = FullU8 { full: v };
        let pack = BitPack::pack(&full);
        assert_eq!(v, pack);
        let full = FullU8::unpack(v);
        assert_eq!(full.full, v);
    }
}

#[derive(PartialEq, Debug)]
struct ComplexString(String);

impl BitRepr for ComplexString {
    type Repr = u8;
}

impl BitPack for ComplexString {
    fn pack(&self) -> Self::Repr {
        self.0.as_str().parse::<u8>().unwrap()
    }

    fn unpack(repr: Self::Repr) -> Self {
        Self(repr.to_string())
    }
}

// The library gives floating point numbers no bit representation; these
// stand in for `f32` and `f64` fields.
#[derive(PartialEq, Debug, Clone, Copy)]
struct F32(f32);

impl BitRepr for F32 {
    type Repr = u32;
}

impl BitPack for F32 {
    fn pack(&self) -> u32 {
        f32::to_bits(self.0)
    }

    fn unpack(repr: u32) -> Self {
        F32(f32::from_bits(repr))
    }
}

#[derive(PartialEq, Debug, Clone, Copy)]
struct F64(f64);

impl BitRepr for F64 {
    type Repr = u64;
}

impl BitPack for F64 {
    fn pack(&self) -> u64 {
        f64::to_bits(self.0)
    }

    fn unpack(repr: u64) -> Self {
        F64(f64::from_bits(repr))
    }
}

#[derive(PartialEq, Debug)]
struct Complex {
    f0: F32,
    f1: F64,
    f2: u8,
    f3: ComplexString,
    f4: F64,
}

impl BitRepr for Complex {
    type Repr = u128;
}

impl BitPack for Complex {
    fn pack(&self) -> u128 {
        let mut repr: u128 = Default::default();
        {
            let f: fn(&F32) -> u32 = <F32 as BitPack>::pack;
            insert::<u128, _, 0, 31>(&mut repr, &f(&self.f0))
        };
        {
            let f: fn(&F64) -> u64 = <F64 as BitPack>::pack;
            insert::<u128, _, 32, 95>(&mut repr, &f(&self.f1))
        };
        {
            let f: fn(&u8) -> u8 = <u8 as BitPack>::pack;
            insert::<u128, _, 96, 103>(&mut repr, &f(&self.f2))
        };
        {
            let f: fn(&ComplexString) -> u8 = <ComplexString as BitPack>::pack;
            insert::<u128, _, 104, 111>(&mut repr, &f(&self.f3))
        };
        {
            let f: fn(&F64) -> u64 = <F64 as BitPack>::pack;
            insert::<u128, _, 112, { ::core::mem::size_of::<u128>() * 8 - 1 }>(&mut repr, &f(&self.f4))
        };
        repr
    }

    fn unpack(bits: u128) -> Self {
        Self {
            f0: {
                let f: fn(u32) -> F32 = <F32 as BitPack>::unpack;
                f(extract::<u128, _, _, 0, 31>(bits))
            },
            f1: {
                let f: fn(u64) -> F64 = <F64 as BitPack>::unpack;
                f(extract::<u128, _, _, 32, 95>(bits))
            },
            f2: {
                let f: fn(u8) -> u8 = <u8 as BitPack>::unpack;
                f(extract::<u128, _, _, 96, 103>(bits))
            },
            f3: {
                let f: fn(u8) -> ComplexString = <ComplexString as BitPack>::unpack;
                f(extract::<u128, _, _, 104, 111>(bits))
            },
            f4: {
                let f: fn(u64) -> F64 = <F64 as BitPack>::unpack;
                f(extract::<u128, _, _, 112, { ::core::mem::size_of::<u128>() * 8 - 1 }>(bits))
            },
        }
    }
}

#[test]
fn complex_types() {
    let complex = Complex {
        f0: F32(f32::from_bits(0x1000_2000)),
        f1: F64(f64::from_bits(0x1000_2000_3000_4000)),
        f2: 0x73,
        f3: ComplexString("255".to_string()),
        f4: F64(f64::from_bits(0x1111_2222_3333_4444)),
    };

    let pack = BitPack::pack(&complex);
    assert_eq!(pack, 0x4444_ff73_1000_2000_3000_4000_1000_2000);

    assert_eq!(
        Complex::unpack(pack),
        Complex { f4: F64(f64::from_bits(0x4444)), ..complex }
    );
}

#[derive(PartialEq, Debug)]
struct TryComplex {
    f0: F32,
    f1: F64,
    f2: u8,
    f3: ComplexString,
    f4: F64,
}

impl BitRepr for TryComplex {
    type Repr = u128;
}

impl TryBitPack for TryComplex {
    fn pack(&self) -> u128 {
        let mut repr: u128 = Default::default();
        {
            let f: fn(&F32) -> u32 = <F32 as TryBitPack>::pack;
            insert::<u128, _, 0, 31>(&mut repr, &f(&self.f0))
        };
        {
            let f: fn(&F64) -> u64 = <F64 as TryBitPack>::pack;
            insert::<u128, _, 32, 95>(&mut repr, &f(&self.f1))
        };
        {
            let f: fn(&u8) -> u8 = <u8 as TryBitPack>::pack;
            insert::<u128, _, 96, 103>(&mut repr, &f(&self.f2))
        };
        {
            let f: fn(&ComplexString) -> u8 = <ComplexString as TryBitPack>::pack;
            insert::<u128, _, 104, 111>(&mut repr, &f(&self.f3))
        };
        {
            let f: fn(&F64) -> u64 = <F64 as TryBitPack>::pack;
            insert::<u128, _, 112, { ::core::mem::size_of::<u128>() * 8 - 1 }>(&mut repr, &f(&self.f4))
        };
        repr
    }

    fn try_unpack(bits: u128) -> Option<Self> {
        Some(Self {
            f0: {
                let f: fn(u32) -> Option<F32> = <F32 as TryBitPack>::try_unpack;
                f(extract::<u128, _, _, 0, 31>(bits))?
            },
            f1: {
                let f: fn(u64) -> Option<F64> = <F64 as TryBitPack>::try_unpack;
                f(extract::<u128, _, _, 32, 95>(bits))?
            },
            f2: {
                let f: fn(u8) -> Option<u8> = <u8 as TryBitPack>::try_unpack;
                f(extract::<u128, _, _, 96, 103>(bits))?
            },
            f3: {
                let f: fn(u8) -> Option<ComplexString> = <ComplexString as TryBitPack>::try_unpack;
                f(extract::<u128, _, _, 104, 111>(bits))?
            },
            f4: {
                let f: fn(u64) -> Option<F64> = <F64 as TryBitPack>::try_unpack;
                f(extract::<u128, _, _, 112, { ::core::mem::size_of::<u128>() * 8 - 1 }>(bits))?
            },
        })
    }
}

#[test]
fn try_complex_types() {
    let complex = TryComplex {
        f0: F32(f32::from_bits(0x1000_2000)),
        f1: F64(f64::from_bits(0x1000_2000_3000_4000)),
        f2: 0x73,
        f3: ComplexString("255".to_string()),
        f4: F64(f64::from_bits(0x1111_2222_3333_4444)),
    };

    let pack = TryBitPack::pack(&complex);
    assert_eq!(pack, 0x4444_ff73_1000_2000_3000_4000_1000_2000);

    assert_eq!(
        TryComplex::try_unpack(pack).unwrap(),
        TryComplex { f4: F64(f64::from_bits(0x4444)), ..complex }
    );
}

#[derive(PartialEq, Debug)]
struct UnsafeComplex {
    f0: F32,
    f1: F64,
    f2: u8,
    f3: ComplexString,
    f4: F64,
}

impl BitRepr for UnsafeComplex {
    type Repr = u128;
}

impl UnsafeBitPack for UnsafeComplex {
    fn pack(&self) -> u128 {
        let mut repr: u128 = Default::default();
        {
            let f: fn(&F32) -> u32 = <F32 as UnsafeBitPack>::pack;
            insert::<u128, _, 0, 31>(&mut repr, &f(&self.f0))
        };
        {
            let f: fn(&F64) -> u64 = <F64 as UnsafeBitPack>::pack;
            insert::<u128, _, 32, 95>(&mut repr, &f(&self.f1))
        };
        {
            let f: fn(&u8) -> u8 = <u8 as UnsafeBitPack>::pack;
            insert::<u128, _, 96, 103>(&mut repr, &f(&self.f2))
        };
        {
            let f: fn(&ComplexString) -> u8 = <ComplexString as UnsafeBitPack>::pack;
            insert::<u128, _, 104, 111>(&mut repr, &f(&self.f3))
        };
        {
            let f: fn(&F64) -> u64 = <F64 as UnsafeBitPack>::pack;
            insert::<u128, _, 112, { ::core::mem::size_of::<u128>() * 8 - 1 }>(&mut repr, &f(&self.f4))
        };
        repr
    }

    fn unsafe_unpack(bits: u128) -> Self {
        Self {
            f0: {
                let f: fn(u32) -> F32 = <F32 as UnsafeBitPack>::unsafe_unpack;
                f(extract::<u128, _, _, 0, 31>(bits))
            },
            f1: {
                let f: fn(u64) -> F64 = <F64 as UnsafeBitPack>::unsafe_unpack;
                f(extract::<u128, _, _, 32, 95>(bits))
            },
            f2: {
                let f: fn(u8) -> u8 = <u8 as UnsafeBitPack>::unsafe_unpack;
                f(extract::<u128, _, _, 96, 103>(bits))
            },
            f3: {
                let f: fn(u8) -> ComplexString = <ComplexString as UnsafeBitPack>::unsafe_unpack;
                f(extract::<u128, _, _, 104, 111>(bits))
            },
            f4: {
                let f: fn(u64) -> F64 = <F64 as UnsafeBitPack>::unsafe_unpack;
                f(extract::<u128, _, _, 112, { ::core::mem::size_of::<u128>() * 8 - 1 }>(bits))
            },
        }
    }
}

#[test]
fn unsafe_complex_types() {
    let complex = UnsafeComplex {
        f0: F32(f32::from_bits(0x1000_2000)),
        f1: F64(f64::from_bits(0x1000_2000_3000_4000)),
        f2: 0x73,
        f3: ComplexString("255".to_string()),
        f4: F64(f64::from_bits(0x1111_2222_3333_4444)),
    };

    let pack = UnsafeBitPack::pack(&complex);
    assert_eq!(pack, 0x4444_ff73_1000_2000_3000_4000_1000_2000);

    assert_eq!(
        UnsafeComplex::unsafe_unpack(pack),
        UnsafeComplex { f4: F64(f64::from_bits(0x4444)), ..complex }
    );
}

struct Test(u16);

impl BitRepr for Test {
    type Repr = u16;
}

impl TryBitPack for Test {
    fn pack(&self) -> Self::Repr {
        self.0
    }

    fn try_unpack(repr: Self::Repr) -> Option<Self> {
        match repr {
            0xff00 => None,
            repr => Some(Self(repr)),
        }
    }
}

struct TryPack(Test);

impl BitRepr for TryPack {
    type Repr = u32;
}

impl TryBitPack for TryPack {
    fn pack(&self) -> u32 {
        let mut repr: u32 = Default::default();
        {
            let f: fn(&Test) -> u16 = <Test as TryBitPack>::pack;
            insert::<u32, _, 0, 15>(&mut repr, &f(&self.0))
        };
        repr
    }

    fn try_unpack(bits: u32) -> Option<Self> {
        Some(Self({
            let f: fn(u16) -> Option<Test> = <Test as TryBitPack>::try_unpack;
            f(extract::<u32, _, _, 0, 15>(bits))?
        }))
    }
}

#[test]
fn try_samples() {
    assert!(TryPack::try_unpack(0).is_some());
    assert!(TryPack::try_unpack(0x00ff).is_some());
    assert!(TryPack::try_unpack(0xff000000).is_some());
    assert!(TryPack::try_unpack(0xff00).is_none());
    assert!(TryPack::try_unpack(0xff00ff00).is_none());
}

struct UnwrapPack(Test);

impl BitRepr for UnwrapPack {
    type Repr = u32;
}

impl BitPack for UnwrapPack {
    fn pack(&self) -> u32 {
        let mut repr: u32 = Default::default();
        {
            let f: fn(&Test) -> u16 = <Test as TryBitPack>::pack;
            insert::<u32, _, 0, 15>(&mut repr, &f(&self.0))
        };
        repr
    }

    fn unpack(bits: u32) -> Self {
        Self({
            let f: fn(u16) -> Option<Test> = <Test as TryBitPack>::try_unpack;
            f(extract::<u32, _, _, 0, 15>(bits)).unwrap()
        })
    }
}

#[test]
#[should_panic]
fn unwrap_panic() {
    UnwrapPack::unpack(0xff00ff00);
}

#[test]
fn unwrap_no_panic() {
    UnwrapPack::unpack(0);
    UnwrapPack::unpack(0x00ff);
    UnwrapPack::unpack(0xff000000);
}

fn pack_fn(value: &u32) -> u32 {
    value << 2
}

fn unpack_fn(value: u32) -> u32 {
    value >> 2
}

#[derive(PartialEq, Eq, Debug)]
struct PackFns {
    f0: u32,
    f1: u32,
}

impl BitRepr for PackFns {
    type Repr = u64;
}

impl BitPack for PackFns {
    fn pack(&self) -> u64 {
        let mut repr: u64 = Default::default();
        {
            let f: fn(&u32) -> u32 = |value| *value << 2;
            insert::<u64, _, 0, 31>(&mut repr, &f(&self.f0))
        };
        {
            let f: fn(&u32) -> u32 = pack_fn;
            insert::<u64, _, 32, { ::core::mem::size_of::<u64>() * 8 - 1 }>(&mut repr, &f(&self.f1))
        };
        repr
    }

    fn unpack(bits: u64) -> Self {
        Self {
            f0: {
                let f: fn(u32) -> u32 = <u32 as BitPack>::unpack;
                f(extract::<u64, _, _, 0, 31>(bits))
            },
            f1: {
                let f: fn(u32) -> u32 = <u32 as BitPack>::unpack;
                f(extract::<u64, _, _, 32, { ::core::mem::size_of::<u64>() * 8 - 1 }>(bits))
            },
        }
    }
}

struct UnpackFns {
    f0: u32,
    f1: u32,
}

impl BitRepr for UnpackFns {
    type Repr = u64;
}

impl BitPack for UnpackFns {
    fn pack(&self) -> u64 {
        let mut repr: u64 = Default::default();
        {
            let f: fn(&u32) -> u32 = <u32 as BitPack>::pack;
            insert::<u64, _, 0, 31>(&mut repr, &f(&self.f0))
        };
        {
            let f: fn(&u32) -> u32 = <u32 as BitPack>::pack;
            insert::<u64, _, 32, 63>(&mut repr, &f(&self.f1))
        };
        repr
    }

    fn unpack(bits: u64) -> Self {
        Self {
            f0: {
                let f: fn(u32) -> u32 = |value| value >> 2;
                f(extract::<u64, _, _, 0, 31>(bits))
            },
            f1: {
                let f: fn(u32) -> u32 = unpack_fn;
                f(extract::<u64, _, _, 32, 63>(bits))
            },
        }
    }
}

struct BothFns {
    f0: u32,
    f1: u32,
}

impl BitRepr for BothFns {
    type Repr = u64;
}

impl BitPack for BothFns {
    fn pack(&self) -> u64 {
        let mut repr: u64 = Default::default();
        {
            let f: fn(&u32) -> u32 = |value| *value << 2;
            insert::<u64, _, 0, 31>(&mut repr, &f(&self.f0))
        };
        {
            let f: fn(&u32) -> u32 = pack_fn;
            insert::<u64, _, 32, 63>(&mut repr, &f(&self.f1))
        };
        repr
    }

    fn unpack(bits: u64) -> Self {
        Self {
            f0: {
                let f: fn(u32) -> u32 = |value| value >> 2;
                f(extract::<u64, _, _, 0, 31>(bits))
            },
            f1: {
                let f: fn(u32) -> u32 = unpack_fn;
                f(extract::<u64, _, _, 32, 63>(bits))
            },
        }
    }
}

#[test]
fn function_accessors() {
    let pack = PackFns { f0: 1, f1: 2 };
    assert_eq!(0x00000008_00000004, BitPack::pack(&pack));
    assert_eq!(pack, PackFns::unpack(0x00000002_00000001));

    let unpack = UnpackFns::unpack(0x00000008_00000004);
    assert_eq!(unpack.f0, 1);
    assert_eq!(unpack.f1, 2);
    assert_eq!(0x00000002_00000001, BitPack::pack(&unpack));

    let repr = 0x00000004_00000008;
    let both = BothFns::unpack(repr);
    assert_eq!(both.f0, 2);
    assert_eq!(both.f1, 1);
    assert_eq!(repr, BitPack::pack(&both));
}

#[derive(PartialEq, Eq, Debug)]
struct Skip {
    field: u32,
    skip: u32,
}

impl BitRepr for Skip {
    type Repr = u64;
}

impl BitPack for Skip {
    fn pack(&self) -> u64 {
        let mut repr: u64 = Default::default();
        {
            let f: fn(&u32) -> u32 = <u32 as BitPack>::pack;
            insert::<u64, _, 0, 31>(&mut repr, &f(&self.field))
        };
        repr
    }

    fn unpack(bits: u64) -> Self {
        Self {
            field: {
                let f: fn(u32) -> u32 = <u32 as BitPack>::unpack;
                f(extract::<u64, _, _, 0, 31>(bits))
            },
            skip: ::core::default::Default::default(),
        }
    }
}

#[test]
fn test_skip() {
    assert_eq!(Skip { field: u32::MAX, skip: 0 }, Skip::unpack(u64::MAX));

    assert_eq!(0xffffffff, BitPack::pack(&Skip { field: u32::MAX, skip: u32::MAX }))
}

struct Unsafe(u32);

impl BitRepr for Unsafe {
    type Repr = u32;
}

impl UnsafeBitPack for Unsafe {
    fn pack(&self) -> u32 {
        let mut repr: u32 = Default::default();
        {
            let f: fn(&u32) -> u32 = <u32 as UnsafeBitPack>::pack;
            insert::<u32, _, 0, 31>(&mut repr, &f(&self.0))
        };
        repr
    }

    fn unsafe_unpack(bits: u32) -> Self {
        Self({
            let f: fn(u32) -> u32 = <u32 as UnsafeBitPack>::unsafe_unpack;
            f(extract::<u32, _, _, 0, 31>(bits))
        })
    }
}

struct UnsafeField(Unsafe);

impl BitRepr for UnsafeField {
    type Repr = u32;
}

impl BitPack for UnsafeField {
    fn pack(&self) -> u32 {
        let mut repr: u32 = Default::default();
        {
            let f: fn(&Unsafe) -> u32 = <Unsafe as UnsafeBitPack>::pack;
            insert::<u32, _, 0, 31>(&mut repr, &f(&self.0))
        };
        repr
    }

    fn unpack(bits: u32) -> Self {
        Self({
            let f: fn(u32) -> Unsafe = <Unsafe as UnsafeBitPack>::unsafe_unpack;
            f(extract::<u32, _, _, 0, 31>(bits))
        })
    }
}

#[test]
fn unsafe_accessors() {
    let packed = UnsafeField::unpack(0x1234_5678);
    assert_eq!((packed.0).0, 0x1234_5678);
    assert_eq!(BitPack::pack(&packed), 0x1234_5678);
}

#[test]
fn bit_pack_types_unpack_through_every_trait() {
    for v in [0u32, 0x1234_5678, u32::MAX, 0x0200_0000] {
        let plain = Simple::unpack(v);
        let tried = <Simple as TryBitPack>::try_unpack(v).unwrap();
        let unchecked = <Simple as UnsafeBitPack>::unsafe_unpack(v);
        assert_eq!((tried.f0, tried.f1, tried.f2, tried.f3, tried.f4), (plain.f0, plain.f1, plain.f2, plain.f3, plain.f4));
        assert_eq!((unchecked.f0, unchecked.f1, unchecked.f2, unchecked.f3, unchecked.f4), (plain.f0, plain.f1, plain.f2, plain.f3, plain.f4));
        assert_eq!(TryBitPack::pack(&plain), BitPack::pack(&plain));
        assert_eq!(UnsafeBitPack::pack(&plain), BitPack::pack(&plain));
    }
}

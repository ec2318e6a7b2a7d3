//! The rules of the bit packing derives: which trait a derive implements,
//! how the `#[bitpack(..)]` attribute of a field is read, which bits each
//! field takes, and which conversions pack and unpack it.
//!
//! A derive reads the attribute of each field piece by piece. The pieces are
//! handed to a [`FieldAttrParser`] in the order in which they stand; it
//! decides what each piece means, and what is wrong with the attribute when
//! something is. The expressions that the attribute holds (conversion
//! functions, default values) are carried through as values of a type `E`
//! that the parser never looks into.
use vstd::prelude::*;
use vstd::string::StringExecFns;
use vstd::arithmetic::power2::pow2;
use crate::{BitPack, TryBitPack, UnsafeBitPack};
use crate::impls::lemma_bit_pack_never_fails;
use crate::field::{
    fields_apart,
    range_width,
    field_of,
    pack_fields,
    FieldValue,
    lemma_packed_fields_read_back,
};

verus! {

/// The derive being expanded.
#[derive(Clone, Copy, PartialEq, Eq, Debug)]
pub enum Kind {
    /// `#[derive(UnsafeBitPack)]`
    Unsafe,
    /// `#[derive(TryBitPack)]`
    Try,
    /// `#[derive(BitPack)]`
    Normal,
}

/// One of the three packing traits.
#[derive(Clone, Copy, PartialEq, Eq, Debug)]
pub enum PackTrait {
    /// [`crate::BitPack`]
    BitPack,
    /// [`crate::TryBitPack`]
    TryBitPack,
    /// [`crate::UnsafeBitPack`]
    UnsafeBitPack,
}

impl Kind {
    /// Whether this is the derive of [`crate::TryBitPack`].
    pub fn is_try(self) -> (r: bool)
        ensures
            r == (self is Try),
    {
        matches!(self, Self::Try)
    }

    /// Whether this is the derive of [`crate::UnsafeBitPack`].
    pub fn is_unsafe(self) -> (r: bool)
        ensures
            r == (self is Unsafe),
    {
        matches!(self, Self::Unsafe)
    }

    /// The trait that this derive implements.
    pub open spec fn spec_trait(self) -> PackTrait {
        match self {
            Kind::Unsafe => PackTrait::UnsafeBitPack,
            Kind::Try => PackTrait::TryBitPack,
            Kind::Normal => PackTrait::BitPack,
        }
    }

    /// The trait that this derive implements.
    pub fn self_trait(self) -> (t: PackTrait)
        ensures
            t == self.spec_trait(),
    {
        if self.is_unsafe() {
            PackTrait::UnsafeBitPack
        } else if self.is_try() {
            PackTrait::TryBitPack
        } else {
            PackTrait::BitPack
        }
    }
}

/// A bit range `start..=end` of a representation; an end of `None` reaches
/// to the last bit of the representation.
pub type BitRange = (usize, Option<usize>);

/// The end of the range is not below its start.
pub open spec fn range_is_ordered(r: BitRange) -> bool {
    r.1 matches Some(end) ==> r.0 <= end
}

/// The two ranges share a bit.
pub open spec fn ranges_meet(a: BitRange, b: BitRange) -> bool {
    &&& (b.1 matches Some(end) ==> a.0 <= end)
    &&& (a.1 matches Some(end) ==> b.0 <= end)
}

/// `r` shares a bit with one of `rs`.
pub open spec fn meets_any(rs: Seq<BitRange>, r: BitRange) -> bool {
    exists|i: int| 0 <= i < rs.len() && ranges_meet(#[trigger] rs[i], r)
}

/// No two of `rs` share a bit.
pub open spec fn pairwise_apart(rs: Seq<BitRange>) -> bool {
    forall|i: int, j: int| 0 <= i < j < rs.len() ==> !ranges_meet(#[trigger] rs[i], #[trigger] rs[j])
}

/// The bound `x` lies in the range `r`; a bound of `None` stands past every
/// bit, and so lies only in the ranges that reach to the last bit.
spec fn bound_in(x: Option<usize>, r: BitRange) -> bool {
    match x {
        Some(x) => r.0 <= x && (r.1 matches Some(end) ==> x <= end),
        None => r.1 is None,
    }
}

/// The start or the end of `a` lies in `b`.
spec fn endpoint_in(a: BitRange, b: BitRange) -> bool {
    bound_in(Some(a.0), b) || bound_in(a.1, b)
}

/// Whether the start or the end of the range `p0..=p1` lies in `s..=e`.
fn endpoint_hit(p0: usize, p1: Option<usize>, s: usize, e: Option<usize>) -> (hit: bool)
    ensures
        hit == endpoint_in((p0, p1), (s, e)),
{
    if let Some(e) = e {
        if let Some(p1) = p1 {
            (s <= p0 && p0 <= e) || (s <= p1 && p1 <= e)
        } else {
            s <= p0 && p0 <= e
        }
    } else if let Some(p1) = p1 {
        p0 >= s || p1 >= s
    } else {
        true
    }
}

/// Two ordered ranges share a bit exactly when an endpoint of one lies in
/// the other.
proof fn lemma_endpoints_decide_meeting(a: BitRange, b: BitRange)
    requires
        range_is_ordered(a),
        range_is_ordered(b),
    ensures
        (endpoint_in(a, b) || endpoint_in(b, a)) == ranges_meet(a, b),
{
}

/// The bit ranges that the fields of a struct have taken so far.
pub struct Ranges {
    ranges: Vec<BitRange>,
}

impl View for Ranges {
    type V = Seq<BitRange>;

    closed spec fn view(&self) -> Seq<BitRange> {
        self.ranges@
    }
}

impl Ranges {
    /// Every range taken is ordered.
    #[verifier::type_invariant]
    spec fn ordered(self) -> bool {
        forall|i: int| 0 <= i < self.ranges@.len() ==> range_is_ordered(#[trigger] self.ranges@[i])
    }

    /// No range taken yet.
    pub fn new() -> (ranges: Self)
        ensures
            ranges@ == Seq::<BitRange>::empty(),
    {
        Ranges { ranges: Vec::new() }
    }

    /// Takes the range `start..=end` and says whether it collides with one
    /// taken before.
    pub fn check_range(&mut self, start: usize, end: Option<usize>) -> (overlap: bool)
        requires
            range_is_ordered((start, end)),
        ensures
            overlap == meets_any(old(self)@, (start, end)),
            final(self)@ == old(self)@.push((start, end)),
    {
        let overlap = self.overlap(start, end);
        proof {
            use_type_invariant(&*self);
        }
        let mut ranges = Vec::new();
        std::mem::swap(&mut ranges, &mut self.ranges);
        ranges.push((start, end));
        self.ranges = ranges;
        overlap
    }

    /// Whether the range `start..=end` collides with a range taken before.
    pub fn overlap(&self, start: usize, end: Option<usize>) -> (hit: bool)
        requires
            range_is_ordered((start, end)),
        ensures
            hit == meets_any(self@, (start, end)),
    {
        proof {
            use_type_invariant(self);
        }
        let mut i: usize = 0;
        while i < self.ranges.len()
            invariant
                0 <= i <= self.ranges@.len(),
                range_is_ordered((start, end)),
                forall|k: int| 0 <= k < self.ranges@.len() ==> range_is_ordered(#[trigger] self.ranges@[k]),
                forall|k: int| 0 <= k < i ==> !ranges_meet(#[trigger] self.ranges@[k], (start, end)),
            decreases self.ranges@.len() - i,
        {
            let (s, e) = self.ranges[i];
            let hit = endpoint_hit(start, end, s, e) || endpoint_hit(s, e, start, end);
            proof {
                lemma_endpoints_decide_meeting((start, end), (s, e));
            }
            if hit {
                assert(ranges_meet(self.ranges@[i as int], (start, end)));
                return true;
            }
            i = i + 1;
        }
        false
    }
}

/// A range that collides with none of a set of ranges that share no bit
/// leaves the set sharing no bit when it is added.
pub proof fn lemma_accepted_ranges_stay_apart(rs: Seq<BitRange>, r: BitRange)
    requires
        pairwise_apart(rs),
        !meets_any(rs, r),
    ensures
        pairwise_apart(rs.push(r)),
{
    let rs2 = rs.push(r);
    assert forall|i: int, j: int| 0 <= i < j < rs2.len() implies !ranges_meet(
        #[trigger] rs2[i],
        #[trigger] rs2[j],
    ) by {
        if j == rs.len() {
            assert(rs2[i] == rs[i]);
            if ranges_meet(rs[i], r) {
                assert(ranges_meet(rs[i], r));
            }
        } else {
            assert(rs2[i] == rs[i] && rs2[j] == rs[j]);
        }
    }
}

/// The bit run that the range takes in a representation of `repr_bits` bits:
/// its first bit and its number of bits.
pub open spec fn range_in_repr(r: BitRange, repr_bits: nat) -> (nat, nat) {
    match r.1 {
        Some(end) => (r.0 as nat, range_width(r.0 as int, end as int)),
        None => (r.0 as nat, range_width(r.0 as int, repr_bits - 1)),
    }
}

/// Ranges that share no bit take bit runs that share no bit.
pub proof fn lemma_apart_ranges_take_apart_bits(a: BitRange, b: BitRange, repr_bits: nat)
    requires
        range_is_ordered(a),
        range_is_ordered(b),
        a.0 < repr_bits,
        b.0 < repr_bits,
        !ranges_meet(a, b),
    ensures
        fields_apart(
            range_in_repr(a, repr_bits).0,
            range_in_repr(a, repr_bits).1,
            range_in_repr(b, repr_bits).0,
            range_in_repr(b, repr_bits).1,
        ),
{
}

/// What is wrong with a `#[bitpack(..)]` attribute, or with the item that
/// a derive is given.
#[derive(Clone, Copy, PartialEq, Eq, Debug)]
pub enum AttrError {
    /// An integer literal does not fit in a `usize`.
    IntegerTooLarge,
    /// A bound of a range is a literal, but no integer literal.
    ExpectedIntegerLiteral,
    /// A bound of a range is no literal.
    ExpectedLiteral,
    /// The bits of a field are neither an integer nor a range.
    ExpectedIntegerOrRange,
    /// An exclusive range ends at zero.
    RangeWrapsFromZero,
    /// A range ends below its start.
    RangeEndBelowStart,
    /// A skipped field is given bits.
    RangeOnSkippedField,
    /// A field that is not skipped is given a default.
    DefaultWithoutSkip,
    /// The bits of a field collide with those of an earlier field.
    RangeCollision,
    /// A field is both `unwrap` and `unsafe`.
    UnwrapAndUnsafe,
    /// An option that the attribute does not know.
    InvalidIdentifier,
    /// A skipped field is given both a default value and a default function.
    DefaultAndDefaultFn,
    /// The attribute does not end where it should, or gives the field
    /// neither bits nor `skip`.
    InvalidAttribute,
    /// A piece of the attribute is neither an option nor the field's bits.
    ExpectedValidAttribute,
    /// The item has no `#[bitpack(ty)]` attribute naming its representation.
    MissingReprAttribute,
    /// A field has no `#[bitpack]` attribute.
    FieldMissingAttribute,
    /// The item is an enum.
    EnumUnsupported,
    /// The item is a union.
    UnionUnsupported,
}

/// Where an error is reported.
#[derive(Clone, Copy, PartialEq, Eq, Debug)]
pub enum ErrorSite {
    /// At the literal or the expression that is wrong.
    Expression,
    /// At the field's attribute.
    Attribute,
    /// At the option's name.
    Identifier,
    /// At what follows the last piece that was read.
    Rest,
    /// At the field.
    Field,
    /// At the whole item.
    Item,
}

/// The message of an error.
pub open spec fn error_text(e: AttrError) -> Seq<char> {
    match e {
        AttrError::IntegerTooLarge => "number too large to fit in target type"@,
        AttrError::ExpectedIntegerLiteral => "expected an integer literal"@,
        AttrError::ExpectedLiteral => "expected a literal expression"@,
        AttrError::ExpectedIntegerOrRange => "expected an integer or range expression"@,
        AttrError::RangeWrapsFromZero => "range end wraps from zero. Did you mean to use inclusive range?"@,
        AttrError::RangeEndBelowStart => "range end is below range start"@,
        AttrError::RangeOnSkippedField => "a range is given to a field with the skip attribute"@,
        AttrError::DefaultWithoutSkip => "default values cannot be specified in a field without `skip`"@,
        AttrError::RangeCollision => "range collides with previously created range"@,
        AttrError::UnwrapAndUnsafe => "unwrap and unsafe properties are mutually exclusive"@,
        AttrError::InvalidIdentifier => "invalid identifier in attribute. Expected either 'skip', 'unwrap', 'unsafe', 'pack_fn', 'unpack_fn' 'default' or 'default_fn' but got"@,
        AttrError::DefaultAndDefaultFn => "cannot specify a default expression and function at the same time"@,
        AttrError::InvalidAttribute => "invalid attribute, expected a comma seperated list of values. See crate root documenation for more details on correct attribute syntax"@,
        AttrError::ExpectedValidAttribute => "expected valid attribute. Look in the crate root documentation for more details."@,
        AttrError::MissingReprAttribute => "missing #[bitpack(ty)] attribute at the top denoting represented type"@,
        AttrError::FieldMissingAttribute => "field missing bitpack attribute"@,
        AttrError::EnumUnsupported => "enums are currently unsupported for bitpacking"@,
        AttrError::UnionUnsupported => "unions are currently unsupported for bitpacking"@,
    }
}

/// Where an error is reported.
pub open spec fn error_site(e: AttrError) -> ErrorSite {
    match e {
        AttrError::IntegerTooLarge
        | AttrError::ExpectedIntegerLiteral
        | AttrError::ExpectedLiteral
        | AttrError::ExpectedIntegerOrRange
        | AttrError::RangeWrapsFromZero
        | AttrError::RangeEndBelowStart
        | AttrError::RangeCollision => ErrorSite::Expression,
        AttrError::RangeOnSkippedField
        | AttrError::DefaultWithoutSkip
        | AttrError::UnwrapAndUnsafe
        | AttrError::DefaultAndDefaultFn
        | AttrError::ExpectedValidAttribute => ErrorSite::Attribute,
        AttrError::InvalidIdentifier => ErrorSite::Identifier,
        AttrError::InvalidAttribute => ErrorSite::Rest,
        AttrError::FieldMissingAttribute => ErrorSite::Field,
        AttrError::MissingReprAttribute
        | AttrError::EnumUnsupported
        | AttrError::UnionUnsupported => ErrorSite::Item,
    }
}

impl AttrError {
    /// The message of this error.
    pub fn message(&self) -> (text: &'static str)
        ensures
            text@ == error_text(*self),
    {
        match self {
            AttrError::IntegerTooLarge => "number too large to fit in target type",
            AttrError::ExpectedIntegerLiteral => "expected an integer literal",
            AttrError::ExpectedLiteral => "expected a literal expression",
            AttrError::ExpectedIntegerOrRange => "expected an integer or range expression",
            AttrError::RangeWrapsFromZero => "range end wraps from zero. Did you mean to use inclusive range?",
            AttrError::RangeEndBelowStart => "range end is below range start",
            AttrError::RangeOnSkippedField => "a range is given to a field with the skip attribute",
            AttrError::DefaultWithoutSkip => "default values cannot be specified in a field without `skip`",
            AttrError::RangeCollision => "range collides with previously created range",
            AttrError::UnwrapAndUnsafe => "unwrap and unsafe properties are mutually exclusive",
            AttrError::InvalidIdentifier => "invalid identifier in attribute. Expected either 'skip', 'unwrap', 'unsafe', 'pack_fn', 'unpack_fn' 'default' or 'default_fn' but got",
            AttrError::DefaultAndDefaultFn => "cannot specify a default expression and function at the same time",
            AttrError::InvalidAttribute => "invalid attribute, expected a comma seperated list of values. See crate root documenation for more details on correct attribute syntax",
            AttrError::ExpectedValidAttribute => "expected valid attribute. Look in the crate root documentation for more details.",
            AttrError::MissingReprAttribute => "missing #[bitpack(ty)] attribute at the top denoting represented type",
            AttrError::FieldMissingAttribute => "field missing bitpack attribute",
            AttrError::EnumUnsupported => "enums are currently unsupported for bitpacking",
            AttrError::UnionUnsupported => "unions are currently unsupported for bitpacking",
        }
    }

    /// The message of an [`AttrError::InvalidIdentifier`] error for the name
    /// `name`: the message of that error, followed by the name in quotes.
    pub fn identifier_message(name: &str) -> (text: String)
        ensures
            text@ == error_text(AttrError::InvalidIdentifier) + " '"@ + name@ + "'"@,
    {
        let mut text = AttrError::InvalidIdentifier.message().to_owned();
        text.append(" '");
        text.append(name);
        text.append("'");
        text
    }

    /// Where this error is reported.
    pub fn site(&self) -> (site: ErrorSite)
        ensures
            site == error_site(*self),
    {
        match self {
            AttrError::IntegerTooLarge
            | AttrError::ExpectedIntegerLiteral
            | AttrError::ExpectedLiteral
            | AttrError::ExpectedIntegerOrRange
            | AttrError::RangeWrapsFromZero
            | AttrError::RangeEndBelowStart
            | AttrError::RangeCollision => ErrorSite::Expression,
            AttrError::RangeOnSkippedField
            | AttrError::DefaultWithoutSkip
            | AttrError::UnwrapAndUnsafe
            | AttrError::DefaultAndDefaultFn
            | AttrError::ExpectedValidAttribute => ErrorSite::Attribute,
            AttrError::InvalidIdentifier => ErrorSite::Identifier,
            AttrError::InvalidAttribute => ErrorSite::Rest,
            AttrError::FieldMissingAttribute => ErrorSite::Field,
            AttrError::MissingReprAttribute
            | AttrError::EnumUnsupported
            | AttrError::UnionUnsupported => ErrorSite::Item,
        }
    }
}

/// A literal as the attribute holds it.
#[derive(Clone, Copy, PartialEq, Eq, Debug)]
pub enum LitValue {
    /// An integer literal: its value, or `None` where it does not fit in a `usize`.
    Int(Option<usize>),
    /// A literal of another kind.
    Other,
}

/// A bound of a range expression.
#[derive(Clone, Copy, PartialEq, Eq, Debug)]
pub enum RangeBound {
    /// A literal.
    Lit(LitValue),
    /// An expression that is no literal.
    Other,
}

/// The expression that gives a field its bits.
#[derive(Clone, Copy, PartialEq, Eq, Debug)]
pub enum BitsExpr {
    /// A literal: one bit when it is an integer.
    Lit(LitValue),
    /// A range `start..end` or `start..=end`, where both bounds may be left out.
    Range { start: Option<RangeBound>, end: Option<RangeBound>, inclusive: bool },
    /// Any other expression.
    Other,
}

/// The value of a bound of a range.
pub open spec fn bound_value(b: RangeBound) -> Result<usize, AttrError> {
    match b {
        RangeBound::Lit(LitValue::Int(Some(v))) => Ok(v),
        RangeBound::Lit(LitValue::Int(None)) => Err(AttrError::IntegerTooLarge),
        RangeBound::Lit(LitValue::Other) => Err(AttrError::ExpectedIntegerLiteral),
        RangeBound::Other => Err(AttrError::ExpectedLiteral),
    }
}

/// The inclusive bit range that a range expression denotes, once its bounds
/// are known: a missing start is bit 0, a missing end is the last bit, and an
/// exclusive end is the bit before it.
pub open spec fn range_of_bounds(start: Option<usize>, end: Option<usize>, inclusive: bool) -> Result<
    BitRange,
    AttrError,
> {
    let first = match start {
        Some(s) => s,
        None => 0,
    };
    if !inclusive && end == Some(0usize) {
        Err(AttrError::RangeWrapsFromZero)
    } else {
        let last = match end {
            Some(e) => Some(if inclusive { e } else { (e - 1) as usize }),
            None => None,
        };
        if last matches Some(l) && l < first {
            Err(AttrError::RangeEndBelowStart)
        } else {
            Ok((first, last))
        }
    }
}

/// The bit range that an expression gives a field.
pub open spec fn bits_of_expr(expr: BitsExpr) -> Result<BitRange, AttrError> {
    match expr {
        BitsExpr::Lit(LitValue::Int(Some(bit))) => Ok((bit, Some(bit))),
        BitsExpr::Lit(LitValue::Int(None)) => Err(AttrError::IntegerTooLarge),
        BitsExpr::Lit(LitValue::Other) | BitsExpr::Other => Err(AttrError::ExpectedIntegerOrRange),
        BitsExpr::Range { start, end, inclusive } => {
            if start matches Some(b) && bound_value(b) is Err {
                Err(bound_value(start->0)->Err_0)
            } else if end matches Some(b) && bound_value(b) is Err {
                Err(bound_value(end->0)->Err_0)
            } else {
                range_of_bounds(
                    match start {
                        Some(b) => Some(bound_value(b)->Ok_0),
                        None => None,
                    },
                    match end {
                        Some(b) => Some(bound_value(b)->Ok_0),
                        None => None,
                    },
                    inclusive,
                )
            }
        },
    }
}

/// Reads an integer literal that bounds a range.
pub fn parse_as_unsigned_int(b: RangeBound) -> (value: Result<usize, AttrError>)
    ensures
        value == bound_value(b),
{
    if let RangeBound::Lit(lit) = b {
        if let LitValue::Int(value) = lit {
            match value {
                Some(v) => Ok(v),
                None => Err(AttrError::IntegerTooLarge),
            }
        } else {
            Err(AttrError::ExpectedIntegerLiteral)
        }
    } else {
        Err(AttrError::ExpectedLiteral)
    }
}

/// The bit range that an expression gives a field, or what is wrong with it.
pub fn resolve_bits(expr: BitsExpr) -> (bits: Result<BitRange, AttrError>)
    ensures
        bits == bits_of_expr(expr),
        bits matches Ok(r) ==> range_is_ordered(r),
{
    match expr {
        BitsExpr::Lit(LitValue::Int(Some(pos))) => Ok((pos, Some(pos))),
        BitsExpr::Lit(LitValue::Int(None)) => Err(AttrError::IntegerTooLarge),
        BitsExpr::Range { start, end, inclusive } => {
            let start = if let Some(start) = start {
                parse_as_unsigned_int(start)?
            } else {
                0
            };
            let end = if let Some(end) = end {
                Some(parse_as_unsigned_int(end)?)
            } else {
                None
            };
            let end = if inclusive {
                end
            } else if let Some(end) = end {
                if end > 0 {
                    Some(end - 1)
                } else {
                    return Err(AttrError::RangeWrapsFromZero);
                }
            } else {
                None
            };
            if let Some(end) = end {
                if end < start {
                    return Err(AttrError::RangeEndBelowStart);
                }
            }
            Ok((start, end))
        },
        _ => Err(AttrError::ExpectedIntegerOrRange),
    }
}

/// The options of a field that takes bits of the representation.
pub struct FieldAttributes<E> {
    /// Pack with [`crate::TryBitPack`] and unwrap what unpacking gives.
    pub unwrap: bool,
    /// Pack and unpack with [`crate::UnsafeBitPack`].
    pub unsafe_: bool,
    /// A function that stands in for the trait's packing function.
    pub pack_fn: Option<E>,
    /// A function that stands in for the trait's unpacking function.
    pub unpack_fn: Option<E>,
}

/// The options of a skipped field, which takes no bits.
pub struct SkippedFieldAttributes<E> {
    /// The value the field gets on unpacking.
    pub default: Option<E>,
    /// A function whose result the field gets on unpacking.
    pub default_fn: Option<E>,
}

/// An option of the attribute that is followed by an expression.
#[derive(Clone, Copy, PartialEq, Eq, Debug)]
pub enum ValueSlot {
    /// `pack_fn`
    PackFn,
    /// `unpack_fn`
    UnpackFn,
    /// `default`
    Default,
    /// `default_fn`
    DefaultFn,
}

/// What a name in the attribute stands for.
#[derive(Clone, Copy, PartialEq, Eq, Debug)]
pub enum OptionName {
    /// `skip`
    Skip,
    /// `unwrap`
    Unwrap,
    /// An option followed by an expression.
    Valued(ValueSlot),
    /// A name the attribute does not know.
    Unknown,
}

/// What the name `name` stands for in a field's attribute.
pub open spec fn option_name(name: Seq<char>) -> OptionName {
    if name == "skip"@ {
        OptionName::Skip
    } else if name == "unwrap"@ {
        OptionName::Unwrap
    } else if name == "pack_fn"@ {
        OptionName::Valued(ValueSlot::PackFn)
    } else if name == "unpack_fn"@ {
        OptionName::Valued(ValueSlot::UnpackFn)
    } else if name == "default"@ {
        OptionName::Valued(ValueSlot::Default)
    } else if name == "default_fn"@ {
        OptionName::Valued(ValueSlot::DefaultFn)
    } else {
        OptionName::Unknown
    }
}

/// What a field's attribute gives the derive.
pub enum FieldPlan<E> {
    /// The field takes the bits `start..=end` (to the last bit where `end`
    /// is `None`), with these options.
    Packed { attrs: FieldAttributes<E>, start: usize, end: Option<usize> },
    /// The field takes no bits, and gets a default on unpacking.
    Skipped { skip_attrs: SkippedFieldAttributes<E> },
}

/// Reads the attribute of one field, piece by piece.
///
/// The attribute is a comma separated list of options, `unsafe`, `skip`,
/// `unwrap`, `pack_fn f`, `unpack_fn f`, `default v` and `default_fn f`,
/// that ends either with the field's bits or, for a skipped field, with its
/// last option.
pub struct FieldAttrParser<E> {
    /// `skip` was given.
    pub skip: bool,
    /// The options read so far.
    pub attrs: FieldAttributes<E>,
    /// The options of a skipped field read so far.
    pub skip_attrs: SkippedFieldAttributes<E>,
    /// The bits of the field, once they were read.
    pub bits: Option<BitRange>,
}

impl<E> FieldAttrParser<E> {
    /// Nothing read yet.
    pub fn new() -> (parser: Self)
        ensures
            !parser.skip,
            !parser.attrs.unwrap,
            !parser.attrs.unsafe_,
            parser.attrs.pack_fn is None,
            parser.attrs.unpack_fn is None,
            parser.skip_attrs.default is None,
            parser.skip_attrs.default_fn is None,
            parser.bits is None,
    {
        FieldAttrParser {
            skip: false,
            attrs: FieldAttributes { unwrap: false, unsafe_: false, pack_fn: None, unpack_fn: None },
            skip_attrs: SkippedFieldAttributes { default: None, default_fn: None },
            bits: None,
        }
    }

    /// Reads the option `unsafe`.
    pub fn take_unsafe(&mut self)
        ensures
            final(self).attrs.unsafe_,
            final(self).skip == old(self).skip,
            final(self).attrs.unwrap == old(self).attrs.unwrap,
            final(self).attrs.pack_fn == old(self).attrs.pack_fn,
            final(self).attrs.unpack_fn == old(self).attrs.unpack_fn,
            final(self).skip_attrs == old(self).skip_attrs,
            final(self).bits == old(self).bits,
    {
        self.attrs.unsafe_ = true;
    }

    /// Reads an option given by its name. Says which expression the option
    /// takes, where it takes one: the caller reads it and hands it to
    /// [`Self::take_value`].
    pub fn take_name(&mut self, name: &String) -> (needs: Result<Option<ValueSlot>, AttrError>)
        ensures
            needs == (match option_name(name@) {
                OptionName::Skip | OptionName::Unwrap => Ok(None),
                OptionName::Valued(slot) => Ok(Some(slot)),
                OptionName::Unknown => Err(AttrError::InvalidIdentifier),
            }),
            final(self).skip == (old(self).skip || option_name(name@) is Skip),
            final(self).attrs.unwrap == (old(self).attrs.unwrap || option_name(name@) is Unwrap),
            final(self).attrs.unsafe_ == old(self).attrs.unsafe_,
            final(self).attrs.pack_fn == old(self).attrs.pack_fn,
            final(self).attrs.unpack_fn == old(self).attrs.unpack_fn,
            final(self).skip_attrs == old(self).skip_attrs,
            final(self).bits == old(self).bits,
    {
        proof {
            reveal_strlit("skip");
            reveal_strlit("unwrap");
            reveal_strlit("pack_fn");
            reveal_strlit("unpack_fn");
            reveal_strlit("default");
            reveal_strlit("default_fn");
        }
        if *name == "skip".to_owned() {
            self.skip = true;
            Ok(None)
        } else if *name == "unwrap".to_owned() {
            self.attrs.unwrap = true;
            Ok(None)
        } else if *name == "pack_fn".to_owned() {
            Ok(Some(ValueSlot::PackFn))
        } else if *name == "unpack_fn".to_owned() {
            Ok(Some(ValueSlot::UnpackFn))
        } else if *name == "default".to_owned() {
            Ok(Some(ValueSlot::Default))
        } else if *name == "default_fn".to_owned() {
            Ok(Some(ValueSlot::DefaultFn))
        } else {
            Err(AttrError::InvalidIdentifier)
        }
    }

    /// Reads the expression that an option takes.
    pub fn take_value(&mut self, slot: ValueSlot, value: E)
        ensures
            final(self).skip == old(self).skip,
            final(self).attrs.unwrap == old(self).attrs.unwrap,
            final(self).attrs.unsafe_ == old(self).attrs.unsafe_,
            final(self).attrs.pack_fn == (if slot is PackFn {
                Some(value)
            } else {
                old(self).attrs.pack_fn
            }),
            final(self).attrs.unpack_fn == (if slot is UnpackFn {
                Some(value)
            } else {
                old(self).attrs.unpack_fn
            }),
            final(self).skip_attrs.default == (if slot is Default {
                Some(value)
            } else {
                old(self).skip_attrs.default
            }),
            final(self).skip_attrs.default_fn == (if slot is DefaultFn {
                Some(value)
            } else {
                old(self).skip_attrs.default_fn
            }),
            final(self).bits == old(self).bits,
    {
        match slot {
            ValueSlot::PackFn => self.attrs.pack_fn = Some(value),
            ValueSlot::UnpackFn => self.attrs.unpack_fn = Some(value),
            ValueSlot::Default => self.skip_attrs.default = Some(value),
            ValueSlot::DefaultFn => self.skip_attrs.default_fn = Some(value),
        }
    }

    /// Reads the bits of the field, and takes them in `ranges`.
    ///
    /// Fails where the expression gives no bits, where the field is skipped
    /// or has a default, where the bits collide with those of an earlier
    /// field, or where the field is both `unwrap` and `unsafe`, in this
    /// order. The bits are taken in `ranges` once the expression gave them
    /// and the field is neither skipped nor has a default.
    pub fn take_bits(&mut self, ranges: &mut Ranges, expr: BitsExpr) -> (result: Result<(), AttrError>)
        ensures
            ({
                let rs = old(ranges)@;
                match bits_of_expr(expr) {
                    Err(e) => result == Err::<(), AttrError>(e) && final(ranges)@ == rs,
                    Ok(r) => if old(self).skip {
                        result == Err::<(), AttrError>(AttrError::RangeOnSkippedField) && final(ranges)@ == rs
                    } else if old(self).skip_attrs.default is Some || old(self).skip_attrs.default_fn is Some {
                        result == Err::<(), AttrError>(AttrError::DefaultWithoutSkip) && final(ranges)@ == rs
                    } else {
                        &&& final(ranges)@ == rs.push(r)
                        &&& result == if meets_any(rs, r) {
                            Err(AttrError::RangeCollision)
                        } else if old(self).attrs.unwrap && old(self).attrs.unsafe_ {
                            Err(AttrError::UnwrapAndUnsafe)
                        } else {
                            Ok(())
                        }
                    },
                }
            }),
            final(self).skip == old(self).skip,
            final(self).attrs.unwrap == old(self).attrs.unwrap,
            final(self).attrs.unsafe_ == old(self).attrs.unsafe_,
            final(self).attrs.pack_fn == old(self).attrs.pack_fn,
            final(self).attrs.unpack_fn == old(self).attrs.unpack_fn,
            final(self).skip_attrs == old(self).skip_attrs,
            final(self).bits == (if result is Ok {
                Some(bits_of_expr(expr)->Ok_0)
            } else {
                old(self).bits
            }),
    {
        let (start, end) = resolve_bits(expr)?;
        if self.skip {
            return Err(AttrError::RangeOnSkippedField);
        }
        if self.skip_attrs.default.is_some() || self.skip_attrs.default_fn.is_some() {
            return Err(AttrError::DefaultWithoutSkip);
        }
        if ranges.check_range(start, end) {
            return Err(AttrError::RangeCollision);
        }
        if self.attrs.unwrap && self.attrs.unsafe_ {
            return Err(AttrError::UnwrapAndUnsafe);
        }
        self.bits = Some((start, end));
        Ok(())
    }

    /// Ends the attribute, `rest_is_empty` telling whether anything follows
    /// the last piece read.
    ///
    /// A skipped field must not have both a default value and a default
    /// function; then nothing may follow, and the field must be skipped or
    /// have its bits.
    pub fn finish(self, rest_is_empty: bool) -> (plan: Result<FieldPlan<E>, AttrError>)
        ensures
            (self.skip && self.skip_attrs.default is Some && self.skip_attrs.default_fn is Some)
                ==> plan == Err::<FieldPlan<E>, AttrError>(AttrError::DefaultAndDefaultFn),
            !(self.skip && self.skip_attrs.default is Some && self.skip_attrs.default_fn is Some)
                ==> (plan is Ok <==> rest_is_empty && (self.skip || self.bits is Some)),
            !(self.skip && self.skip_attrs.default is Some && self.skip_attrs.default_fn is Some)
                && plan is Err ==> plan == Err::<FieldPlan<E>, AttrError>(AttrError::InvalidAttribute),
            plan matches Ok(FieldPlan::Skipped { skip_attrs }) ==> self.skip && skip_attrs == self.skip_attrs,
            plan matches Ok(FieldPlan::Packed { attrs, start, end }) ==> {
                &&& !self.skip
                &&& self.bits == Some((start, end))
                &&& attrs == self.attrs
            },
    {
        if self.skip {
            if self.skip_attrs.default.is_some() && self.skip_attrs.default_fn.is_some() {
                return Err(AttrError::DefaultAndDefaultFn);
            }
        }
        if !rest_is_empty {
            return Err(AttrError::InvalidAttribute);
        }
        if self.skip {
            Ok(FieldPlan::Skipped { skip_attrs: self.skip_attrs })
        } else if let Some((start, end)) = self.bits {
            Ok(FieldPlan::Packed { attrs: self.attrs, start, end })
        } else {
            Err(AttrError::InvalidAttribute)
        }
    }
}

/// The function that packs a field.
#[derive(Clone, Copy, PartialEq, Eq, Debug)]
pub enum PackSource {
    /// The `pack` method of a packing trait.
    Trait(PackTrait),
    /// The field's `pack_fn`.
    Custom,
}

/// Which function packs a field: `unwrap` and the fallible derive pack with
/// [`crate::TryBitPack`], `unsafe` and the unsafe derive with
/// [`crate::UnsafeBitPack`]; otherwise a `pack_fn` stands in for the
/// derived trait's `pack`.
pub open spec fn spec_pack_source<E>(kind: Kind, attrs: FieldAttributes<E>) -> PackSource {
    if attrs.unwrap || kind is Try {
        PackSource::Trait(PackTrait::TryBitPack)
    } else if attrs.unsafe_ || kind is Unsafe {
        PackSource::Trait(PackTrait::UnsafeBitPack)
    } else if attrs.pack_fn is Some {
        PackSource::Custom
    } else {
        PackSource::Trait(kind.spec_trait())
    }
}

/// Which function packs a field with the options `attrs` in the derive `kind`.
pub fn pack_source<E>(kind: Kind, attrs: &FieldAttributes<E>) -> (source: PackSource)
    ensures
        source == spec_pack_source(kind, *attrs),
{
    if attrs.unwrap || kind.is_try() {
        PackSource::Trait(PackTrait::TryBitPack)
    } else if attrs.unsafe_ || kind.is_unsafe() {
        PackSource::Trait(PackTrait::UnsafeBitPack)
    } else if attrs.pack_fn.is_some() {
        PackSource::Custom
    } else {
        PackSource::Trait(kind.self_trait())
    }
}

/// What the function that unpacks a field yields.
#[derive(Clone, Copy, PartialEq, Eq, Debug)]
pub enum UnpackReturn {
    /// The field's value: `fn(Repr) -> T`.
    Value,
    /// The field's value, or `None`: `fn(Repr) -> Option<T>`.
    Optional,
    /// The field's value, by an unsafe function: `unsafe fn(Repr) -> T`.
    UnsafeValue,
}

/// What is done with what the unpacking function yields.
#[derive(Clone, Copy, PartialEq, Eq, Debug)]
pub enum UnpackSuffix {
    /// It is the field's value.
    Plain,
    /// A `None` ends the unpacking of the whole struct with `None` (`?`).
    Propagate,
    /// A `None` panics (`.unwrap()`).
    Unwrap,
}

/// How a field is unpacked.
#[derive(Clone, Copy, PartialEq, Eq, Debug)]
pub struct UnpackPlan {
    /// The function that unpacks: the `unpack`, `try_unpack` or
    /// `unsafe_unpack` method of a packing trait, or the field's `unpack_fn`.
    pub source: PackSource,
    /// What that function yields.
    pub yields: UnpackReturn,
    /// What is done with it.
    pub suffix: UnpackSuffix,
    /// The call stands in an `unsafe` block.
    pub unsafe_block: bool,
}

/// How a field is unpacked: `unwrap` unwraps a fallible unpack, `unsafe`
/// and the unsafe derive call the unsafe unpack in an `unsafe` block (the
/// derived `unsafe_unpack` is itself no unsafe function: its callers owe it
/// a valid representation), the fallible derive propagates a failure,
/// and the plain derive unpacks with [`crate::BitPack`]. An `unpack_fn`
/// stands in for the function, with the same signature.
pub open spec fn spec_unpack_plan<E>(kind: Kind, attrs: FieldAttributes<E>) -> UnpackPlan {
    let (trait_, yields, suffix, unsafe_block) = if attrs.unwrap {
        (PackTrait::TryBitPack, UnpackReturn::Optional, UnpackSuffix::Unwrap, false)
    } else if attrs.unsafe_ {
        (PackTrait::UnsafeBitPack, UnpackReturn::UnsafeValue, UnpackSuffix::Plain, true)
    } else if kind is Unsafe {
        (PackTrait::UnsafeBitPack, UnpackReturn::UnsafeValue, UnpackSuffix::Plain, true)
    } else if kind is Try {
        (PackTrait::TryBitPack, UnpackReturn::Optional, UnpackSuffix::Propagate, false)
    } else {
        (PackTrait::BitPack, UnpackReturn::Value, UnpackSuffix::Plain, false)
    };
    UnpackPlan {
        source: if attrs.unpack_fn is Some {
            PackSource::Custom
        } else {
            PackSource::Trait(trait_)
        },
        yields,
        suffix,
        unsafe_block,
    }
}

/// How a field with the options `attrs` is unpacked in the derive `kind`.
pub fn unpack_plan<E>(kind: Kind, attrs: &FieldAttributes<E>) -> (plan: UnpackPlan)
    ensures
        plan == spec_unpack_plan(kind, *attrs),
{
    let mut unsafe_block = false;
    let mut suffix = UnpackSuffix::Plain;
    let mut source;
    let yields;
    if attrs.unwrap {
        source = PackSource::Trait(PackTrait::TryBitPack);
        yields = UnpackReturn::Optional;
        suffix = UnpackSuffix::Unwrap;
    } else if attrs.unsafe_ {
        source = PackSource::Trait(PackTrait::UnsafeBitPack);
        yields = UnpackReturn::UnsafeValue;
        unsafe_block = true;
    } else if kind.is_unsafe() {
        source = PackSource::Trait(PackTrait::UnsafeBitPack);
        yields = UnpackReturn::UnsafeValue;
        unsafe_block = true;
    } else if kind.is_try() {
        source = PackSource::Trait(PackTrait::TryBitPack);
        yields = UnpackReturn::Optional;
        suffix = UnpackSuffix::Propagate;
    } else {
        source = PackSource::Trait(PackTrait::BitPack);
        yields = UnpackReturn::Value;
    }
    if attrs.unpack_fn.is_some() {
        source = PackSource::Custom;
    }
    UnpackPlan { source, yields, suffix, unsafe_block }
}

/// Where a skipped field gets its value on unpacking.
#[derive(Clone, Copy, PartialEq, Eq, Debug)]
pub enum DefaultSource {
    /// The field's `default` value.
    Value,
    /// The result of the field's `default_fn`.
    Function,
    /// `Default::default()`.
    DefaultTrait,
}

/// Where a skipped field with the options `attrs` gets its value.
pub open spec fn spec_default_source<E>(attrs: SkippedFieldAttributes<E>) -> DefaultSource {
    if attrs.default is Some {
        DefaultSource::Value
    } else if attrs.default_fn is Some {
        DefaultSource::Function
    } else {
        DefaultSource::DefaultTrait
    }
}

/// Where a skipped field with the options `attrs` gets its value: its
/// `default`, else its `default_fn`, else `Default::default()`.
pub fn default_source<E>(attrs: &SkippedFieldAttributes<E>) -> (source: DefaultSource)
    ensures
        source == spec_default_source(*attrs),
{
    if attrs.default.is_some() {
        DefaultSource::Value
    } else if attrs.default_fn.is_some() {
        DefaultSource::Function
    } else {
        DefaultSource::DefaultTrait
    }
}

/// The kind of item that a derive is given.
#[derive(Clone, Copy, PartialEq, Eq, Debug)]
pub enum ItemKind {
    /// A struct, with named or unnamed fields.
    Struct,
    /// An enum.
    Enum,
    /// A union.
    Union,
}

/// Whether a derive can lay out the item: it needs a `#[bitpack(ty)]`
/// attribute naming its representation, and it must be a struct.
pub fn check_item(has_repr_attr: bool, item: ItemKind) -> (checked: Result<(), AttrError>)
    ensures
        checked == (if !has_repr_attr {
            Err(AttrError::MissingReprAttribute)
        } else {
            match item {
                ItemKind::Struct => Ok(()),
                ItemKind::Enum => Err(AttrError::EnumUnsupported),
                ItemKind::Union => Err(AttrError::UnionUnsupported),
            }
        }),
{
    if !has_repr_attr {
        return Err(AttrError::MissingReprAttribute);
    }
    match item {
        ItemKind::Struct => Ok(()),
        ItemKind::Enum => Err(AttrError::EnumUnsupported),
        ItemKind::Union => Err(AttrError::UnionUnsupported),
    }
}

/// The fields that the ranges lay out, holding `values`, in a
/// representation of `repr_bits` bits.
pub open spec fn laid_out_fields(rs: Seq<BitRange>, values: Seq<int>, repr_bits: nat) -> Seq<
    FieldValue,
> {
    Seq::new(
        rs.len(),
        |i: int|
            (range_in_repr(rs[i], repr_bits).0, range_in_repr(rs[i], repr_bits).1, values[i]),
    )
}

/// The promise of the derives: fields whose ranges were taken without a
/// collision pack independently. Packing values into them and reading each
/// field back gives the low bits of its value, and the bits of no field stay
/// zero.
pub proof fn lemma_laid_out_fields_read_back(rs: Seq<BitRange>, values: Seq<int>, repr_bits: nat)
    requires
        rs.len() == values.len(),
        pairwise_apart(rs),
        forall|i: int| 0 <= i < rs.len() ==> range_is_ordered(#[trigger] rs[i]),
        forall|i: int| 0 <= i < rs.len() ==> (#[trigger] rs[i]).0 < repr_bits,
    ensures
        ({
            let fields = laid_out_fields(rs, values, repr_bits);
            &&& forall|i: int|
                0 <= i < rs.len() ==> field_of(
                    pack_fields(fields),
                    #[trigger] range_in_repr(rs[i], repr_bits).0,
                    range_in_repr(rs[i], repr_bits).1,
                ) == values[i] % (pow2(range_in_repr(rs[i], repr_bits).1) as int)
            &&& forall|s: nat, w: nat|
                (forall|i: int|
                    0 <= i < rs.len() ==> fields_apart(
                        s,
                        w,
                        #[trigger] range_in_repr(rs[i], repr_bits).0,
                        range_in_repr(rs[i], repr_bits).1,
                    )) ==> #[trigger] field_of(pack_fields(fields), s, w) == 0
        }),
{
    let fields = laid_out_fields(rs, values, repr_bits);
    assert forall|i: int, j: int| 0 <= i < j < fields.len() implies fields_apart(
        #[trigger] fields[i].0,
        fields[i].1,
        #[trigger] fields[j].0,
        fields[j].1,
    ) by {
        assert(!ranges_meet(rs[i], rs[j]));
        lemma_apart_ranges_take_apart_bits(rs[i], rs[j], repr_bits);
    }
    lemma_packed_fields_read_back(fields);
    assert forall|i: int| 0 <= i < rs.len() implies field_of(
        pack_fields(fields),
        #[trigger] range_in_repr(rs[i], repr_bits).0,
        range_in_repr(rs[i], repr_bits).1,
    ) == values[i] % (pow2(range_in_repr(rs[i], repr_bits).1) as int) by {
        assert(fields[i].0 == range_in_repr(rs[i], repr_bits).0);
    }
    assert forall|s: nat, w: nat|
        (forall|i: int|
            0 <= i < rs.len() ==> fields_apart(
                s,
                w,
                #[trigger] range_in_repr(rs[i], repr_bits).0,
                range_in_repr(rs[i], repr_bits).1,
            )) implies #[trigger] field_of(pack_fields(fields), s, w) == 0 by {
        assert forall|i: int| 0 <= i < fields.len() implies fields_apart(s, w, #[trigger] fields[i].0, fields[i].1) by {
            assert(fields[i].0 == range_in_repr(rs[i], repr_bits).0);
        }
    }
}

/// What the `pack` of the packing trait `t` gives for `value`.
pub open spec fn trait_packed<T: BitPack>(t: PackTrait, value: T) -> T::Repr {
    match t {
        PackTrait::BitPack => value.packed(),
        PackTrait::TryBitPack => value.try_packed(),
        PackTrait::UnsafeBitPack => value.unchecked_packed(),
    }
}

/// What unpacking `repr` with the packing trait `t` gives a field: `None`
/// where a fallible unpack fails, or where the representation is not known
/// to be valid for the unsafe unpack.
pub open spec fn trait_unpacked<T: BitPack>(t: PackTrait, repr: T::Repr) -> Option<T> {
    match t {
        PackTrait::BitPack => Some(T::unpacked(repr)),
        PackTrait::TryBitPack => <T as TryBitPack>::try_unpacked(repr),
        PackTrait::UnsafeBitPack => if <T as UnsafeBitPack>::is_valid_repr(repr) {
            Some(<T as UnsafeBitPack>::unchecked_unpacked(repr))
        } else {
            None
        },
    }
}

/// The three derives agree on a field of a type that always unpacks and has
/// no options: each packs and unpacks it with its own trait, and all three
/// traits pack it into the same bits and unpack every representation into
/// the same value, which never fails.
pub proof fn lemma_derives_agree_on_plain_fields<T: BitPack, E>(
    attrs: FieldAttributes<E>,
    value: T,
    repr: T::Repr,
)
    requires
        T::obeys_bit_pack_spec(),
        !attrs.unwrap,
        !attrs.unsafe_,
        attrs.pack_fn is None,
        attrs.unpack_fn is None,
    ensures
        forall|kind: Kind| #[trigger]
            spec_pack_source(kind, attrs) == PackSource::Trait(kind.spec_trait()),
        forall|kind: Kind| #[trigger]
            spec_unpack_plan(kind, attrs).source == PackSource::Trait(kind.spec_trait()),
        forall|t: PackTrait| #[trigger] trait_packed(t, value) == value.packed(),
        forall|t: PackTrait| #[trigger] trait_unpacked::<T>(t, repr) == Some(T::unpacked(repr)),
{
    lemma_bit_pack_never_fails(value, repr);
}

/// A piece of a field's attribute, as [`FieldAttrParser`] takes them.
#[derive(Clone, Copy, PartialEq, Eq, Debug)]
pub enum AttrPiece {
    /// The option `unsafe`.
    Unsafe,
    /// An option given by its name, with the expression it takes.
    Name,
    /// The field's bits.
    Bits,
}

/// What the reading of an attribute does after a piece.
#[derive(Clone, Copy, PartialEq, Eq, Debug)]
pub enum NextStep {
    /// Read another piece.
    ReadPiece,
    /// End the attribute with [`FieldAttrParser::finish`].
    Finish,
}

impl AttrPiece {
    /// Whether a comma is looked for after the piece: after an option, but
    /// not after the field's bits, which end the attribute.
    pub fn takes_comma(self) -> (takes: bool)
        ensures
            takes == !(self is Bits),
    {
        !matches!(self, AttrPiece::Bits)
    }
}

/// What follows a piece, `comma` telling whether a comma was read after it:
/// an option followed by a comma is followed by another piece; anything
/// else ends the attribute.
pub fn step_after(piece: AttrPiece, comma: bool) -> (step: NextStep)
    ensures
        step == (if comma && !(piece is Bits) {
            NextStep::ReadPiece
        } else {
            NextStep::Finish
        }),
{
    if comma && piece.takes_comma() {
        NextStep::ReadPiece
    } else {
        NextStep::Finish
    }
}

/// The path of an attribute is the single name `bitpack`; `path` is the
/// attribute's path where it is a single plain name, and `None` otherwise.
pub open spec fn is_bitpack_path(path: Option<String>) -> bool {
    path matches Some(name) && name@ == "bitpack"@
}

/// Finds the `#[bitpack]` attribute among the attributes whose paths are
/// `paths`: the first one, or `None` where there is none.
pub fn get_attribute(paths: &Vec<Option<String>>) -> (found: Option<usize>)
    ensures
        match found {
            Some(i) => {
                &&& i < paths.len()
                &&& is_bitpack_path(paths@[i as int])
                &&& forall|j: int| 0 <= j < i ==> !is_bitpack_path(#[trigger] paths@[j])
            },
            None => forall|j: int| 0 <= j < paths.len() ==> !is_bitpack_path(#[trigger] paths@[j]),
        },
{
    proof {
        reveal_strlit("bitpack");
    }
    let name = "bitpack".to_owned();
    let mut i: usize = 0;
    while i < paths.len()
        invariant
            i <= paths.len(),
            name@ == "bitpack"@,
            forall|j: int| 0 <= j < i ==> !is_bitpack_path(#[trigger] paths@[j]),
        decreases paths.len() - i,
    {
        if let Some(path) = &paths[i] {
            if *path == name {
                return Some(i);
            }
        }
        i = i + 1;
    }
    None
}

/// The name of the option that takes an expression into `slot`.
pub open spec fn slot_keyword(slot: ValueSlot) -> Seq<char> {
    match slot {
        ValueSlot::PackFn => "pack_fn"@,
        ValueSlot::UnpackFn => "unpack_fn"@,
        ValueSlot::Default => "default"@,
        ValueSlot::DefaultFn => "default_fn"@,
    }
}

/// Each option that takes an expression is known by its own name, and only
/// by it: the name `default` gives the default value of a skipped field,
/// `default_fn` its default function, `pack_fn` the packing function and
/// `unpack_fn` the unpacking function; `skip` and `unwrap` take nothing.
pub proof fn lemma_option_names(name: Seq<char>, slot: ValueSlot)
    ensures
        option_name(name) == OptionName::Valued(slot) <==> name == slot_keyword(slot),
        option_name("default"@) == OptionName::Valued(ValueSlot::Default),
        option_name("default_fn"@) == OptionName::Valued(ValueSlot::DefaultFn),
        option_name("pack_fn"@) == OptionName::Valued(ValueSlot::PackFn),
        option_name("unpack_fn"@) == OptionName::Valued(ValueSlot::UnpackFn),
        option_name("skip"@) == OptionName::Skip,
        option_name("unwrap"@) == OptionName::Unwrap,
{
    reveal_strlit("skip");
    reveal_strlit("unwrap");
    reveal_strlit("pack_fn");
    reveal_strlit("unpack_fn");
    reveal_strlit("default");
    reveal_strlit("default_fn");
    // the names differ in length, but for `pack_fn` and `default`, which
    // differ in their first letter
    assert("skip"@.len() == 4 && "unwrap"@.len() == 6 && "pack_fn"@.len() == 7);
    assert("unpack_fn"@.len() == 9 && "default"@.len() == 7 && "default_fn"@.len() == 10);
    assert("pack_fn"@[0] != "default"@[0]);
}

/// A skipped field gets the value that `default` gives it, else the result
/// of the function that `default_fn` gives it, else `Default::default()`.
pub proof fn lemma_skipped_field_default<E>(attrs: SkippedFieldAttributes<E>)
    ensures
        attrs.default is Some ==> spec_default_source(attrs) == DefaultSource::Value,
        attrs.default is None && attrs.default_fn is Some ==> spec_default_source(attrs)
            == DefaultSource::Function,
        attrs.default is None && attrs.default_fn is None ==> spec_default_source(attrs)
            == DefaultSource::DefaultTrait,
{
}

/// An exclusive end leaves out its own bit, whether or not the range has a
/// start: `a..e` is `a..=e - 1`, a missing start is bit 0, and an exclusive
/// end of 0 is refused.
pub proof fn lemma_exclusive_end_is_excluded(start: Option<usize>, end: usize)
    ensures
        ({
            let bound = |v: usize| RangeBound::Lit(LitValue::Int(Some(v)));
            let first: usize = match start {
                Some(v) => v,
                None => 0,
            };
            let exclusive = BitsExpr::Range {
                start: match start {
                    Some(v) => Some(bound(v)),
                    None => None,
                },
                end: Some(bound(end)),
                inclusive: false,
            };
            let inclusive = BitsExpr::Range {
                start: match start {
                    Some(v) => Some(bound(v)),
                    None => None,
                },
                end: Some(bound((end - 1) as usize)),
                inclusive: true,
            };
            &&& end == 0 ==> bits_of_expr(exclusive) == Err::<BitRange, AttrError>(AttrError::RangeWrapsFromZero)
            &&& end > 0 ==> bits_of_expr(exclusive) == bits_of_expr(inclusive)
            &&& end > 0 && first < end ==> bits_of_expr(exclusive) == Ok::<BitRange, AttrError>((first, Some((end - 1) as usize)))
            &&& end > 0 && first >= end ==> bits_of_expr(exclusive) == Err::<BitRange, AttrError>(AttrError::RangeEndBelowStart)
        }),
{
}

/// A field's own `unwrap` or `unsafe` decides how it is unpacked, whatever
/// the derive: an `unwrap` field is unpacked fallibly and unwrapped, an
/// `unsafe` one (without `unwrap`) by the unsafe unpack in an `unsafe`
/// block; only an `unpack_fn` stands in for the function.
pub proof fn lemma_field_options_decide_unpacking<E>(kind: Kind, other: Kind, attrs: FieldAttributes<E>)
    ensures
        attrs.unwrap ==> {
            let plan = spec_unpack_plan(kind, attrs);
            &&& plan.yields == UnpackReturn::Optional
            &&& plan.suffix == UnpackSuffix::Unwrap
            &&& !plan.unsafe_block
            &&& attrs.unpack_fn is None ==> plan.source == PackSource::Trait(PackTrait::TryBitPack)
        },
        !attrs.unwrap && attrs.unsafe_ ==> {
            let plan = spec_unpack_plan(kind, attrs);
            &&& plan.yields == UnpackReturn::UnsafeValue
            &&& plan.suffix == UnpackSuffix::Plain
            &&& plan.unsafe_block
            &&& attrs.unpack_fn is None ==> plan.source == PackSource::Trait(PackTrait::UnsafeBitPack)
        },
        attrs.unwrap || attrs.unsafe_ ==> spec_unpack_plan(kind, attrs) == spec_unpack_plan(other, attrs),
        attrs.unwrap ==> spec_pack_source(kind, attrs) == PackSource::Trait(PackTrait::TryBitPack),
        attrs.unpack_fn is Some ==> spec_unpack_plan(kind, attrs).source == PackSource::Custom,
{
}

} // verus!

use bitrepr::derive::{
    get_attribute,
    step_after, AttrPiece, NextStep,
    check_item, ItemKind,
    default_source, pack_source, resolve_bits, unpack_plan, AttrError, BitsExpr, DefaultSource,
    ErrorSite, FieldAttrParser, FieldAttributes, FieldPlan, Kind, LitValue, PackSource, PackTrait,
    RangeBound, Ranges, SkippedFieldAttributes, UnpackReturn, UnpackSuffix, ValueSlot,
};

fn lit(v: usize) -> RangeBound {
    RangeBound::Lit(LitValue::Int(Some(v)))
}

fn range(start: Option<RangeBound>, end: Option<RangeBound>, inclusive: bool) -> BitsExpr {
    BitsExpr::Range { start, end, inclusive }
}

fn attrs(unwrap: bool, unsafe_: bool, pack_fn: bool, unpack_fn: bool) -> FieldAttributes<&'static str> {
    FieldAttributes {
        unwrap,
        unsafe_,
        pack_fn: if pack_fn { Some("pack") } else { None },
        unpack_fn: if unpack_fn { Some("unpack") } else { None },
    }
}

#[test]
fn kind_predicates() {
    assert!(Kind::Try.is_try());
    assert!(!Kind::Try.is_unsafe());
    assert!(Kind::Unsafe.is_unsafe());
    assert!(!Kind::Unsafe.is_try());
    assert!(!Kind::Normal.is_try());
    assert!(!Kind::Normal.is_unsafe());
    assert_eq!(Kind::Normal.self_trait(), PackTrait::BitPack);
    assert_eq!(Kind::Try.self_trait(), PackTrait::TryBitPack);
    assert_eq!(Kind::Unsafe.self_trait(), PackTrait::UnsafeBitPack);
}

#[test]
fn bits_of_literals_and_ranges() {
    assert_eq!(resolve_bits(BitsExpr::Lit(LitValue::Int(Some(24)))), Ok((24, Some(24))));
    assert_eq!(resolve_bits(range(Some(lit(0)), Some(lit(8)), false)), Ok((0, Some(7))));
    assert_eq!(resolve_bits(range(Some(lit(8)), Some(lit(23)), true)), Ok((8, Some(23))));
    assert_eq!(resolve_bits(range(Some(lit(29)), None, false)), Ok((29, None)));
    assert_eq!(resolve_bits(range(None, None, false)), Ok((0, None)));
    assert_eq!(resolve_bits(range(None, Some(lit(31)), true)), Ok((0, Some(31))));
    assert_eq!(resolve_bits(range(Some(lit(5)), Some(lit(6)), false)), Ok((5, Some(5))));
}

#[test]
fn bits_errors() {
    assert_eq!(resolve_bits(BitsExpr::Lit(LitValue::Int(None))), Err(AttrError::IntegerTooLarge));
    assert_eq!(resolve_bits(BitsExpr::Lit(LitValue::Other)), Err(AttrError::ExpectedIntegerOrRange));
    assert_eq!(resolve_bits(BitsExpr::Other), Err(AttrError::ExpectedIntegerOrRange));
    assert_eq!(
        resolve_bits(range(Some(RangeBound::Lit(LitValue::Other)), Some(lit(3)), false)),
        Err(AttrError::ExpectedIntegerLiteral)
    );
    assert_eq!(
        resolve_bits(range(Some(lit(1)), Some(RangeBound::Other), false)),
        Err(AttrError::ExpectedLiteral)
    );
    // the start is read before the end
    assert_eq!(
        resolve_bits(range(Some(RangeBound::Other), Some(RangeBound::Lit(LitValue::Other)), false)),
        Err(AttrError::ExpectedLiteral)
    );
    assert_eq!(
        resolve_bits(range(Some(lit(0)), Some(lit(0)), false)),
        Err(AttrError::RangeWrapsFromZero)
    );
    assert_eq!(
        resolve_bits(range(Some(lit(4)), Some(lit(3)), true)),
        Err(AttrError::RangeEndBelowStart)
    );
    assert_eq!(
        resolve_bits(range(Some(lit(4)), Some(lit(4)), false)),
        Err(AttrError::RangeEndBelowStart)
    );
    assert_eq!(
        resolve_bits(range(Some(RangeBound::Lit(LitValue::Int(None))), None, false)),
        Err(AttrError::IntegerTooLarge)
    );
}

#[test]
fn ranges_detect_collisions() {
    let mut ranges = Ranges::new();
    assert!(!ranges.check_range(0, Some(7)));
    assert!(!ranges.check_range(8, Some(23)));
    assert!(!ranges.check_range(24, Some(24)));
    assert!(!ranges.check_range(26, Some(26)));
    assert!(!ranges.check_range(29, None));
    assert!(ranges.overlap(25, Some(28)));
    assert!(!ranges.overlap(25, Some(25)));
    assert!(!ranges.overlap(27, Some(28)));
    assert!(ranges.overlap(30, Some(30)));
    assert!(ranges.overlap(40, None));
    assert!(ranges.overlap(20, Some(21)));
    assert!(ranges.overlap(0, None));
    // a range inside another, and one around another
    assert!(ranges.check_range(3, Some(4)));
    let mut ranges = Ranges::new();
    assert!(!ranges.check_range(10, Some(12)));
    assert!(ranges.check_range(0, Some(40)));
    assert!(ranges.check_range(11, None));
    // a collision still takes the range
    assert!(ranges.check_range(100, Some(100)));
    let mut ranges = Ranges::new();
    assert!(!ranges.check_range(10, Some(12)));
    assert!(!ranges.check_range(13, None));
    assert!(ranges.check_range(100, None));
    assert!(!ranges.check_range(0, Some(9)));
}

#[test]
fn parser_reads_a_plain_field() {
    let mut ranges = Ranges::new();
    let mut p: FieldAttrParser<&str> = FieldAttrParser::new();
    assert_eq!(p.take_bits(&mut ranges, range(Some(lit(0)), Some(lit(8)), false)), Ok(()));
    match p.finish(true) {
        Ok(FieldPlan::Packed { attrs, start, end }) => {
            assert_eq!((start, end), (0, Some(7)));
            assert!(!attrs.unwrap && !attrs.unsafe_ && attrs.pack_fn.is_none());
        },
        _ => panic!("the field should be packed"),
    }
}

#[test]
fn parser_reads_options() {
    let mut ranges = Ranges::new();
    let mut p: FieldAttrParser<&str> = FieldAttrParser::new();
    assert_eq!(p.take_name(&"unpack_fn".to_string()), Ok(Some(ValueSlot::UnpackFn)));
    p.take_value(ValueSlot::UnpackFn, "|value| value >> 2");
    assert_eq!(p.take_name(&"pack_fn".to_string()), Ok(Some(ValueSlot::PackFn)));
    p.take_value(ValueSlot::PackFn, "|value| *value << 2");
    assert_eq!(p.take_name(&"unwrap".to_string()), Ok(None));
    assert_eq!(p.take_bits(&mut ranges, range(None, Some(lit(31)), true)), Ok(()));
    match p.finish(true) {
        Ok(FieldPlan::Packed { attrs, start, end }) => {
            assert_eq!((start, end), (0, Some(31)));
            assert!(attrs.unwrap);
            assert_eq!(attrs.pack_fn, Some("|value| *value << 2"));
            assert_eq!(attrs.unpack_fn, Some("|value| value >> 2"));
        },
        _ => panic!("the field should be packed"),
    }
}

#[test]
fn parser_reads_a_skipped_field() {
    let mut p: FieldAttrParser<&str> = FieldAttrParser::new();
    assert_eq!(p.take_name(&"skip".to_string()), Ok(None));
    assert_eq!(p.take_name(&"default_fn".to_string()), Ok(Some(ValueSlot::DefaultFn)));
    p.take_value(ValueSlot::DefaultFn, "make");
    match p.finish(true) {
        Ok(FieldPlan::Skipped { skip_attrs }) => {
            assert_eq!(skip_attrs.default_fn, Some("make"));
            assert_eq!(default_source(&skip_attrs), DefaultSource::Function);
        },
        _ => panic!("the field should be skipped"),
    }
}

#[test]
fn parser_errors() {
    let mut p: FieldAttrParser<&str> = FieldAttrParser::new();
    assert_eq!(p.take_name(&"skp".to_string()), Err(AttrError::InvalidIdentifier));

    let mut ranges = Ranges::new();
    let mut p: FieldAttrParser<&str> = FieldAttrParser::new();
    p.take_name(&"skip".to_string()).unwrap();
    assert_eq!(
        p.take_bits(&mut ranges, BitsExpr::Lit(LitValue::Int(Some(3)))),
        Err(AttrError::RangeOnSkippedField)
    );

    let mut p: FieldAttrParser<&str> = FieldAttrParser::new();
    p.take_value(ValueSlot::Default, "0");
    assert_eq!(
        p.take_bits(&mut ranges, BitsExpr::Lit(LitValue::Int(Some(3)))),
        Err(AttrError::DefaultWithoutSkip)
    );

    let mut p: FieldAttrParser<&str> = FieldAttrParser::new();
    p.take_unsafe();
    p.take_name(&"unwrap".to_string()).unwrap();
    assert_eq!(
        p.take_bits(&mut ranges, BitsExpr::Lit(LitValue::Int(Some(3)))),
        Err(AttrError::UnwrapAndUnsafe)
    );

    // the bits of a field collide with those taken before
    let mut p: FieldAttrParser<&str> = FieldAttrParser::new();
    assert_eq!(
        p.take_bits(&mut ranges, range(Some(lit(2)), Some(lit(5)), true)),
        Err(AttrError::RangeCollision)
    );

    let mut p: FieldAttrParser<&str> = FieldAttrParser::new();
    p.take_name(&"skip".to_string()).unwrap();
    p.take_value(ValueSlot::Default, "0");
    p.take_value(ValueSlot::DefaultFn, "zero");
    assert!(matches!(p.finish(true), Err(AttrError::DefaultAndDefaultFn)));

    // something follows the bits
    let mut ranges = Ranges::new();
    let mut p: FieldAttrParser<&str> = FieldAttrParser::new();
    p.take_bits(&mut ranges, BitsExpr::Lit(LitValue::Int(Some(1)))).unwrap();
    assert!(matches!(p.finish(false), Err(AttrError::InvalidAttribute)));

    // neither bits nor skip
    let mut p: FieldAttrParser<&str> = FieldAttrParser::new();
    p.take_name(&"unwrap".to_string()).unwrap();
    assert!(matches!(p.finish(true), Err(AttrError::InvalidAttribute)));
}

#[test]
fn error_messages_and_sites() {
    assert_eq!(AttrError::RangeCollision.message(), "range collides with previously created range");
    assert_eq!(AttrError::RangeCollision.site(), ErrorSite::Expression);
    assert_eq!(
        AttrError::InvalidAttribute.message(),
        "invalid attribute, expected a comma seperated list of values. See crate root documenation for more details on correct attribute syntax"
    );
    assert_eq!(AttrError::InvalidAttribute.site(), ErrorSite::Rest);
    assert_eq!(AttrError::UnwrapAndUnsafe.site(), ErrorSite::Attribute);
    assert_eq!(AttrError::InvalidIdentifier.site(), ErrorSite::Identifier);
    assert_eq!(
        AttrError::MissingReprAttribute.message(),
        "missing #[bitpack(ty)] attribute at the top denoting represented type"
    );
    assert_eq!(AttrError::EnumUnsupported.site(), ErrorSite::Item);
    assert_eq!(AttrError::FieldMissingAttribute.site(), ErrorSite::Field);
}

#[test]
fn pack_sources() {
    assert_eq!(pack_source(Kind::Normal, &attrs(false, false, false, false)), PackSource::Trait(PackTrait::BitPack));
    assert_eq!(pack_source(Kind::Try, &attrs(false, false, true, false)), PackSource::Trait(PackTrait::TryBitPack));
    assert_eq!(pack_source(Kind::Normal, &attrs(true, false, true, false)), PackSource::Trait(PackTrait::TryBitPack));
    assert_eq!(pack_source(Kind::Normal, &attrs(false, true, false, false)), PackSource::Trait(PackTrait::UnsafeBitPack));
    assert_eq!(pack_source(Kind::Unsafe, &attrs(false, false, false, false)), PackSource::Trait(PackTrait::UnsafeBitPack));
    assert_eq!(pack_source(Kind::Normal, &attrs(false, false, true, false)), PackSource::Custom);
}

#[test]
fn unpack_plans() {
    let p = unpack_plan(Kind::Normal, &attrs(false, false, false, false));
    assert_eq!(p.source, PackSource::Trait(PackTrait::BitPack));
    assert_eq!((p.yields, p.suffix, p.unsafe_block), (UnpackReturn::Value, UnpackSuffix::Plain, false));

    let p = unpack_plan(Kind::Normal, &attrs(true, false, false, false));
    assert_eq!(p.source, PackSource::Trait(PackTrait::TryBitPack));
    assert_eq!((p.yields, p.suffix, p.unsafe_block), (UnpackReturn::Optional, UnpackSuffix::Unwrap, false));

    let p = unpack_plan(Kind::Normal, &attrs(false, true, false, true));
    assert_eq!(p.source, PackSource::Custom);
    assert_eq!((p.yields, p.suffix, p.unsafe_block), (UnpackReturn::UnsafeValue, UnpackSuffix::Plain, true));

    let p = unpack_plan(Kind::Try, &attrs(false, false, false, false));
    assert_eq!(p.source, PackSource::Trait(PackTrait::TryBitPack));
    assert_eq!((p.yields, p.suffix), (UnpackReturn::Optional, UnpackSuffix::Propagate));

    let p = unpack_plan(Kind::Unsafe, &attrs(false, false, false, false));
    assert_eq!(p.source, PackSource::Trait(PackTrait::UnsafeBitPack));
    assert_eq!((p.yields, p.unsafe_block), (UnpackReturn::UnsafeValue, true));
}

#[test]
fn default_sources() {
    let s: SkippedFieldAttributes<&str> = SkippedFieldAttributes { default: Some("1"), default_fn: None };
    assert_eq!(default_source(&s), DefaultSource::Value);
    let s: SkippedFieldAttributes<&str> = SkippedFieldAttributes { default: None, default_fn: None };
    assert_eq!(default_source(&s), DefaultSource::DefaultTrait);
}

#[test]
fn items_that_can_be_laid_out() {
    assert_eq!(check_item(true, ItemKind::Struct), Ok(()));
    assert_eq!(check_item(false, ItemKind::Struct), Err(AttrError::MissingReprAttribute));
    assert_eq!(check_item(false, ItemKind::Enum), Err(AttrError::MissingReprAttribute));
    assert_eq!(check_item(true, ItemKind::Enum), Err(AttrError::EnumUnsupported));
    assert_eq!(check_item(true, ItemKind::Union), Err(AttrError::UnionUnsupported));
}

#[test]
fn attribute_sequencing() {
    assert!(AttrPiece::Unsafe.takes_comma());
    assert!(AttrPiece::Name.takes_comma());
    assert!(!AttrPiece::Bits.takes_comma());
    assert_eq!(step_after(AttrPiece::Unsafe, true), NextStep::ReadPiece);
    assert_eq!(step_after(AttrPiece::Name, true), NextStep::ReadPiece);
    assert_eq!(step_after(AttrPiece::Name, false), NextStep::Finish);
    assert_eq!(step_after(AttrPiece::Unsafe, false), NextStep::Finish);
    assert_eq!(step_after(AttrPiece::Bits, true), NextStep::Finish);
    assert_eq!(step_after(AttrPiece::Bits, false), NextStep::Finish);
}

#[test]
fn invalid_identifier_names_the_identifier() {
    assert_eq!(
        AttrError::identifier_message("skp"),
        "invalid identifier in attribute. Expected either 'skip', 'unwrap', 'unsafe', 'pack_fn', 'unpack_fn' 'default' or 'default_fn' but got 'skp'"
    );
}

#[test]
fn finds_the_bitpack_attribute() {
    let paths = vec![Some("derive".to_string()), None, Some("bitpack".to_string()), Some("bitpack".to_string())];
    assert_eq!(get_attribute(&paths), Some(2));
    let paths = vec![Some("doc".to_string()), Some("bitpacks".to_string()), None];
    assert_eq!(get_attribute(&paths), None);
    assert_eq!(get_attribute(&vec![]), None);
}

#![allow(dead_code)]

use num_enum::convert::{from_integer_total, EnumValue};
use num_enum::resolve::{resolve, ResolvedMapping};
use num_enum::schema::{EnumSchema, IntegerType, PayloadShape, VariantSpec};

fn variant(name: &str, value: Option<i128>) -> VariantSpec {
    VariantSpec {
        name: name.to_string(),
        explicit_value: value,
        is_default: false,
        is_catch_all: false,
        alternatives: Vec::new(),
        payload: PayloadShape::Unit,
        loc: None,
    }
}

fn default_variant(name: &str, value: Option<i128>) -> VariantSpec {
    VariantSpec {
        is_default: true,
        ..variant(name, value)
    }
}

fn catch_all_variant(name: &str, value: Option<i128>) -> VariantSpec {
    VariantSpec {
        is_catch_all: true,
        payload: PayloadShape::SingleIntegerField,
        ..variant(name, value)
    }
}

fn alt_variant(name: &str, value: Option<i128>, alternatives: Vec<i128>) -> VariantSpec {
    VariantSpec {
        alternatives,
        ..variant(name, value)
    }
}

fn enum_schema(name: &str, underlying: IntegerType, variants: Vec<VariantSpec>) -> EnumSchema {
    EnumSchema {
        name: name.to_string(),
        underlying,
        variants,
        error_decls: Vec::new(),
    }
}

fn resolved(name: &str, underlying: IntegerType, variants: Vec<VariantSpec>) -> ResolvedMapping {
    resolve(&enum_schema(name, underlying, variants)).unwrap()
}

#[test]
fn const_from_primitive_has_from_primitive_number_standard_default_attribute() {
    let m = resolved(
        "Enum",
        IntegerType::U8,
        vec![variant("Zero", Some(0)), default_variant("NonZero", Some(1))],
    );

    let zero = from_integer_total(&m, 0);
    assert_eq!(zero, EnumValue::unit(0));

    let one = from_integer_total(&m, 1);
    assert_eq!(one, EnumValue::unit(1));

    let two = from_integer_total(&m, 2);
    assert_eq!(two, EnumValue::unit(1));
}

#[test]
fn const_from_primitive_from_primitive_number_catch_all() {
    let m = resolved(
        "Enum",
        IntegerType::U8,
        vec![variant("Zero", Some(0)), catch_all_variant("NonZero", None)],
    );

    let zero = from_integer_total(&m, 0);
    assert_eq!(zero, EnumValue::unit(0));

    let one = from_integer_total(&m, 1);
    assert_eq!(one, EnumValue::caught(1, 1));

    let two = from_integer_total(&m, 2);
    assert_eq!(two, EnumValue::caught(1, 2));
}

#[test]
fn from_primitive_number_with_inclusive_range() {
    // The range of alternatives `2..=255` arrives expanded: the schema is
    // then naturally exhaustive and needs no fallback.
    let m = resolved(
        "Enum",
        IntegerType::U8,
        vec![
            variant("Zero", Some(0)),
            alt_variant("NonZero", None, (2..=255).collect()),
        ],
    );
    assert!(m.is_naturally_exhaustive);

    let zero = from_integer_total(&m, 0);
    assert_eq!(zero, EnumValue::unit(0));

    let one = from_integer_total(&m, 1);
    assert_eq!(one, EnumValue::unit(1));

    let two = from_integer_total(&m, 2);
    assert_eq!(two, EnumValue::unit(1));

    let three = from_integer_total(&m, 3);
    assert_eq!(three, EnumValue::unit(1));

    let twofivefive = from_integer_total(&m, 255);
    assert_eq!(twofivefive, EnumValue::unit(1));
}

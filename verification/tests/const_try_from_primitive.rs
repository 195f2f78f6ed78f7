#![allow(dead_code)]

use num_enum::convert::{from_integer_fallible, EnumValue};
use num_enum::resolve::{resolve, ResolvedMapping};
use num_enum::schema::{EnumSchema, ErrorTypeDecl, IntegerType, PayloadShape, VariantSpec};
use num_enum::TryFromPrimitiveError;

fn variant(name: &str, value: Option<i128>) -> VariantSpec {
    VariantSpec {
        name: name.to_string(),
        explicit_value: value,
        is_default: false,
        is_catch_all: false,
        alternatives: Vec::new(),
        payload: PayloadShape::Unit,
        loc: None,
    }
}

fn default_variant(name: &str, value: Option<i128>) -> VariantSpec {
    VariantSpec {
        is_default: true,
        ..variant(name, value)
    }
}

fn alt_variant(name: &str, value: Option<i128>, alternatives: Vec<i128>) -> VariantSpec {
    VariantSpec {
        alternatives,
        ..variant(name, value)
    }
}

fn enum_schema(name: &str, underlying: IntegerType, variants: Vec<VariantSpec>) -> EnumSchema {
    EnumSchema {
        name: name.to_string(),
        underlying,
        variants,
        error_decls: Vec::new(),
    }
}

fn resolved(name: &str, underlying: IntegerType, variants: Vec<VariantSpec>) -> ResolvedMapping {
    resolve(&enum_schema(name, underlying, variants)).unwrap()
}

fn message(m: &ResolvedMapping, r: Result<EnumValue, TryFromPrimitiveError<i128>>) -> String {
    m.conversion_error_message(&r.unwrap_err())
}

#[test]
fn const_try_from_primitive_simple() {
    let m = resolved(
        "Enum",
        IntegerType::U8,
        vec![variant("Zero", None), variant("One", None), variant("Two", None)],
    );

    let zero = from_integer_fallible(&m, 0);
    assert_eq!(zero, Ok(EnumValue::unit(0)));

    let three = from_integer_fallible(&m, 3);
    assert_eq!(
        message(&m, three),
        "No discriminant in enum `Enum` matches the value `3`"
    );
}

#[test]
fn const_try_from_primitive_even() {
    let m = resolved(
        "Enum",
        IntegerType::U8,
        vec![
            variant("Zero", Some(0)),
            variant("Two", Some(2)),
            variant("Four", Some(4)),
        ],
    );

    let zero = from_integer_fallible(&m, 0);
    assert_eq!(zero, Ok(EnumValue::unit(0)));

    let one = from_integer_fallible(&m, 1);
    assert_eq!(
        message(&m, one),
        "No discriminant in enum `Enum` matches the value `1`"
    );

    let two = from_integer_fallible(&m, 2);
    assert_eq!(two, Ok(EnumValue::unit(1)));

    let three = from_integer_fallible(&m, 3);
    assert_eq!(
        message(&m, three),
        "No discriminant in enum `Enum` matches the value `3`"
    );

    let four = from_integer_fallible(&m, 4);
    assert_eq!(four, Ok(EnumValue::unit(2)));
}

#[test]
fn const_try_from_primitive_skipped_value() {
    let m = resolved(
        "Enum",
        IntegerType::U8,
        vec![
            variant("Zero", None),
            variant("One", None),
            variant("Three", Some(3)),
            variant("Four", None),
        ],
    );

    let zero = from_integer_fallible(&m, 0);
    assert_eq!(zero, Ok(EnumValue::unit(0)));

    let one = from_integer_fallible(&m, 1);
    assert_eq!(one, Ok(EnumValue::unit(1)));

    let two = from_integer_fallible(&m, 2);
    assert_eq!(
        message(&m, two),
        "No discriminant in enum `Enum` matches the value `2`"
    );

    let three = from_integer_fallible(&m, 3);
    assert_eq!(three, Ok(EnumValue::unit(2)));

    let four = from_integer_fallible(&m, 4);
    assert_eq!(four, Ok(EnumValue::unit(3)));
}

#[test]
fn const_try_from_primitive_wrong_order() {
    let m = resolved(
        "Enum",
        IntegerType::U8,
        vec![
            variant("Four", Some(4)),
            variant("Three", Some(3)),
            variant("Zero", Some(0)),
            variant("One", None), // Zero + 1
        ],
    );

    let zero = from_integer_fallible(&m, 0);
    assert_eq!(zero, Ok(EnumValue::unit(2)));

    let one = from_integer_fallible(&m, 1);
    assert_eq!(one, Ok(EnumValue::unit(3)));

    let two = from_integer_fallible(&m, 2);
    assert_eq!(
        message(&m, two),
        "No discriminant in enum `Enum` matches the value `2`"
    );

    let three = from_integer_fallible(&m, 3);
    assert_eq!(three, Ok(EnumValue::unit(1)));

    let four = from_integer_fallible(&m, 4);
    assert_eq!(four, Ok(EnumValue::unit(0)));
}

#[test]
fn negative_values() {
    let m = resolved(
        "Enum",
        IntegerType::I8,
        vec![
            variant("MinusTwo", Some(-2)),
            variant("MinusOne", Some(-1)),
            variant("Zero", Some(0)),
            variant("One", Some(1)),
            variant("Two", Some(2)),
        ],
    );

    let minus_two = from_integer_fallible(&m, -2);
    assert_eq!(minus_two, Ok(EnumValue::unit(0)));

    let minus_one = from_integer_fallible(&m, -1);
    assert_eq!(minus_one, Ok(EnumValue::unit(1)));

    let zero = from_integer_fallible(&m, 0);
    assert_eq!(zero, Ok(EnumValue::unit(2)));

    let one = from_integer_fallible(&m, 1);
    assert_eq!(one, Ok(EnumValue::unit(3)));

    let two = from_integer_fallible(&m, 2);
    assert_eq!(two, Ok(EnumValue::unit(4)));
}

#[test]
fn discriminant_expressions() {
    // Constant discriminant expressions, handed over already folded.
    let m = resolved(
        "Enum",
        IntegerType::U8,
        vec![
            variant("Zero", None),
            variant("One", Some(1)),
            variant("Two", None),
            variant("Four", Some(4)),
            variant("Five", None),
            variant("Six", Some(6)),
        ],
    );

    let zero = from_integer_fallible(&m, 0);
    assert_eq!(zero, Ok(EnumValue::unit(0)));

    let one = from_integer_fallible(&m, 1);
    assert_eq!(one, Ok(EnumValue::unit(1)));

    let two = from_integer_fallible(&m, 2);
    assert_eq!(two, Ok(EnumValue::unit(2)));

    let three = from_integer_fallible(&m, 3);
    assert_eq!(
        message(&m, three),
        "No discriminant in enum `Enum` matches the value `3`"
    );

    let four = from_integer_fallible(&m, 4);
    assert_eq!(four, Ok(EnumValue::unit(3)));

    let five = from_integer_fallible(&m, 5);
    assert_eq!(five, Ok(EnumValue::unit(4)));

    let six = from_integer_fallible(&m, 6);
    assert_eq!(six, Ok(EnumValue::unit(5)));
}

#[test]
fn const_try_from_primitive_different_values() {
    let m = resolved(
        "Enum",
        IntegerType::U8,
        vec![
            variant("Zero", None),
            variant("One", Some(1)),
            variant("Two", None),
            variant("Four", Some(4)),
            variant("Five", None),
            variant("Six", Some(6)),
            variant("Seven", Some(7)),
        ],
    );

    let zero = from_integer_fallible(&m, 0);
    assert_eq!(zero, Ok(EnumValue::unit(0)));

    let one = from_integer_fallible(&m, 1);
    assert_eq!(one, Ok(EnumValue::unit(1)));

    let two = from_integer_fallible(&m, 2);
    assert_eq!(two, Ok(EnumValue::unit(2)));

    let three = from_integer_fallible(&m, 3);
    assert_eq!(
        message(&m, three),
        "No discriminant in enum `Enum` matches the value `3`"
    );

    let four = from_integer_fallible(&m, 4);
    assert_eq!(four, Ok(EnumValue::unit(3)));

    let five = from_integer_fallible(&m, 5);
    assert_eq!(five, Ok(EnumValue::unit(4)));

    let six = from_integer_fallible(&m, 6);
    assert_eq!(six, Ok(EnumValue::unit(5)));

    let seven = from_integer_fallible(&m, 7);
    assert_eq!(seven, Ok(EnumValue::unit(6)));
}

#[test]
fn different_values_with_exclusive_range() {
    // The exclusive range of alternatives `2..4` arrives expanded.
    let m = resolved(
        "EnumWithExclusiveRange",
        IntegerType::U8,
        vec![
            variant("Zero", Some(0)),
            alt_variant("OneOrTwoOrThree", None, vec![2, 3]),
        ],
    );

    let zero = from_integer_fallible(&m, 0);
    assert_eq!(zero, Ok(EnumValue::unit(0)));

    let one = from_integer_fallible(&m, 1);
    assert_eq!(one, Ok(EnumValue::unit(1)));

    let two = from_integer_fallible(&m, 2);
    assert_eq!(two, Ok(EnumValue::unit(1)));

    let three = from_integer_fallible(&m, 3);
    assert_eq!(three, Ok(EnumValue::unit(1)));

    let four = from_integer_fallible(&m, 4);
    assert_eq!(
        message(&m, four),
        "No discriminant in enum `EnumWithExclusiveRange` matches the value `4`"
    );
}

#[test]
fn different_values_with_inclusive_range() {
    // The inclusive range of alternatives `2..=3` arrives expanded.
    let m = resolved(
        "EnumWithInclusiveRange",
        IntegerType::U8,
        vec![
            variant("Zero", Some(0)),
            alt_variant("OneOrTwoOrThree", None, vec![2, 3]),
        ],
    );

    let zero = from_integer_fallible(&m, 0);
    assert_eq!(zero, Ok(EnumValue::unit(0)));

    let one = from_integer_fallible(&m, 1);
    assert_eq!(one, Ok(EnumValue::unit(1)));

    let two = from_integer_fallible(&m, 2);
    assert_eq!(two, Ok(EnumValue::unit(1)));

    let three = from_integer_fallible(&m, 3);
    assert_eq!(three, Ok(EnumValue::unit(1)));

    let four = from_integer_fallible(&m, 4);
    assert_eq!(
        message(&m, four),
        "No discriminant in enum `EnumWithInclusiveRange` matches the value `4`"
    );
}

#[test]
fn const_try_from_primitive_missing_trailing_comma() {
    let m = resolved(
        "Enum",
        IntegerType::U8,
        vec![variant("Zero", None), variant("One", None)],
    );

    let zero = from_integer_fallible(&m, 0);
    assert_eq!(zero, Ok(EnumValue::unit(0)));

    let one = from_integer_fallible(&m, 1);
    assert_eq!(one, Ok(EnumValue::unit(1)));

    let two = from_integer_fallible(&m, 2);
    assert_eq!(
        message(&m, two),
        "No discriminant in enum `Enum` matches the value `2`"
    );
}

#[test]
fn const_try_from_primitive_ignores_extra_attributes() {
    let m = resolved(
        "Enum",
        IntegerType::U8,
        vec![variant("Zero", None), variant("One", None)],
    );

    let zero = from_integer_fallible(&m, 0);
    assert_eq!(zero, Ok(EnumValue::unit(0)));

    let one = from_integer_fallible(&m, 1);
    assert_eq!(one, Ok(EnumValue::unit(1)));

    let two = from_integer_fallible(&m, 2);
    assert_eq!(
        message(&m, two),
        "No discriminant in enum `Enum` matches the value `2`"
    );
}

#[test]
fn const_try_from_primitive_visibility_is_fine() {
    let m = resolved(
        "Enum",
        IntegerType::U8,
        vec![variant("Zero", None), variant("One", None)],
    );

    let zero = from_integer_fallible(&m, 0);
    assert_eq!(zero, Ok(EnumValue::unit(0)));

    let one = from_integer_fallible(&m, 1);
    assert_eq!(one, Ok(EnumValue::unit(1)));

    let two = from_integer_fallible(&m, 2);
    assert_eq!(
        message(&m, two),
        "No discriminant in enum `Enum` matches the value `2`"
    );
}

#[test]
fn const_try_from_primitive_error_variant_is_allowed() {
    let m = resolved(
        "Enum",
        IntegerType::U8,
        vec![variant("Ok", None), variant("Error", None)],
    );

    let ok = from_integer_fallible(&m, 0);
    assert_eq!(ok, Ok(EnumValue::unit(0)));

    let err = from_integer_fallible(&m, 1);
    assert_eq!(err, Ok(EnumValue::unit(1)));

    let unknown = from_integer_fallible(&m, 2);
    assert_eq!(
        message(&m, unknown),
        "No discriminant in enum `Enum` matches the value `2`"
    );
}

#[test]
fn const_try_from_primitive_alternative_values() {
    let m = resolved(
        "Enum",
        IntegerType::I8,
        vec![
            variant("Zero", Some(0)),
            alt_variant("OneTwoThreeOrMinusOne", Some(1), vec![-1, 2, 3]),
        ],
    );

    let minus_one = from_integer_fallible(&m, -1);
    assert_eq!(minus_one, Ok(EnumValue::unit(1)));

    let zero = from_integer_fallible(&m, 0);
    assert_eq!(zero, Ok(EnumValue::unit(0)));

    let one = from_integer_fallible(&m, 1);
    assert_eq!(one, Ok(EnumValue::unit(1)));

    let two = from_integer_fallible(&m, 2);
    assert_eq!(two, Ok(EnumValue::unit(1)));

    let three = from_integer_fallible(&m, 3);
    assert_eq!(three, Ok(EnumValue::unit(1)));

    let four = from_integer_fallible(&m, 4);
    assert_eq!(
        message(&m, four),
        "No discriminant in enum `Enum` matches the value `4`"
    );
}

#[test]
fn const_try_from_primitive_default_value() {
    let m = resolved(
        "Enum",
        IntegerType::U8,
        vec![
            variant("Zero", Some(0)),
            variant("One", Some(1)),
            default_variant("Other", Some(2)),
        ],
    );

    let zero = from_integer_fallible(&m, 0);
    assert_eq!(zero, Ok(EnumValue::unit(0)));

    let one = from_integer_fallible(&m, 1);
    assert_eq!(one, Ok(EnumValue::unit(1)));

    let two = from_integer_fallible(&m, 2);
    assert_eq!(two, Ok(EnumValue::unit(2)));

    let max_value = from_integer_fallible(&m, u8::MAX as i128);
    assert_eq!(max_value, Ok(EnumValue::unit(2)));
}

#[test]
fn const_try_from_primitive_alternative_values_and_default_value() {
    let m = resolved(
        "Enum",
        IntegerType::U8,
        vec![
            default_variant("Zero", Some(0)),
            variant("One", Some(1)),
            alt_variant("TwoOrThree", Some(2), vec![3]),
            variant("Four", Some(4)),
        ],
    );

    let zero = from_integer_fallible(&m, 0);
    assert_eq!(zero, Ok(EnumValue::unit(0)));

    let one = from_integer_fallible(&m, 1);
    assert_eq!(one, Ok(EnumValue::unit(1)));

    let two = from_integer_fallible(&m, 2);
    assert_eq!(two, Ok(EnumValue::unit(2)));

    let three = from_integer_fallible(&m, 3);
    assert_eq!(three, Ok(EnumValue::unit(2)));

    let four = from_integer_fallible(&m, 4);
    assert_eq!(four, Ok(EnumValue::unit(3)));

    let five = from_integer_fallible(&m, 5);
    assert_eq!(five, Ok(EnumValue::unit(0)));
}

#[test]
fn const_try_from_primitive_try_from_primitive_number() {
    let m = resolved(
        "Enum",
        IntegerType::U8,
        vec![default_variant("Whatever", Some(0))],
    );

    let try_from_primitive = from_integer_fallible(&m, 0);
    assert_eq!(try_from_primitive, Ok(EnumValue::unit(0)));

    let try_from = from_integer_fallible(&m, 0);
    assert_eq!(try_from, Ok(EnumValue::unit(0)));
}

#[derive(Debug, PartialEq, Eq)]
struct CustomError {
    bad_value: u8,
}

impl CustomError {
    fn new(value: u8) -> CustomError {
        CustomError { bad_value: value }
    }
}

#[test]
fn custom_error() {
    let first = EnumSchema {
        name: "FirstNumber".to_string(),
        underlying: IntegerType::U8,
        variants: vec![variant("Zero", None), variant("One", None), variant("Two", None)],
        error_decls: vec![ErrorTypeDecl {
            name: "CustomError".to_string(),
            constructor: "CustomError::new".to_string(),
            loc: None,
        }],
    };
    let second = EnumSchema {
        name: "SecondNumber".to_string(),
        underlying: IntegerType::U8,
        variants: vec![variant("Zero", None), variant("One", None), variant("Two", None)],
        error_decls: vec![ErrorTypeDecl {
            name: "CustomError".to_string(),
            constructor: "CustomError::new".to_string(),
            loc: None,
        }],
    };

    let first = resolve(&first).unwrap();
    let second = resolve(&second).unwrap();

    let decl = first.error_type.as_ref().unwrap();
    assert_eq!(decl.name, "CustomError");
    assert_eq!(decl.constructor, "CustomError::new");

    let zero = from_integer_fallible(&first, 0);
    assert_eq!(zero, Ok(EnumValue::unit(0)));

    let three = from_integer_fallible(&first, 3);
    assert_eq!(
        CustomError::new(three.unwrap_err().number as u8),
        CustomError { bad_value: 3u8 }
    );

    let three = from_integer_fallible(&second, 3);
    assert_eq!(
        CustomError::new(three.unwrap_err().number as u8),
        CustomError { bad_value: 3u8 }
    );
}

//! Schema resolution and conversion semantics for tagged-integer enumerations.
//!
//! An [`EnumSchema`](schema::EnumSchema) describes an enumeration: an ordered
//! list of named variants, each with an optional explicit discriminant and a
//! small set of modifiers (`default`, `catch_all`, alternative values).  The
//! resolver computes every variant's canonical discriminant, expands the
//! alternative values, and rejects ill-formed schemas.  From the resolved
//! mapping the library derives and realises the conversion families between
//! the enumeration and its underlying integer type.

use vstd::prelude::*;

pub mod convert;
pub mod message;
pub mod plan;
pub mod resolve;
pub mod schema;

verus! {

/// A conversion from an integer that always produces a value, backed by a
/// default or catch-all variant (or natural exhaustiveness).  Implemented by
/// enumeration types whose schema admits the total conversion family.
pub trait FromPrimitive: Sized {
    /// The underlying primitive integer type.
    type Primitive;

    fn from_primitive(number: Self::Primitive) -> Self;
}

/// A conversion from an integer that can fail on unmatched values.
pub trait TryFromPrimitive: Sized {
    /// The underlying primitive integer type.
    type Primitive;

    fn try_from_primitive(number: Self::Primitive) -> Result<Self, TryFromPrimitiveError<Self::Primitive>>;
}

/// The error of a failed integer-to-enumeration conversion: it carries the
/// raw integer that no discriminant matched.
#[derive(Clone, Copy, PartialEq, Eq, Structural, Debug)]
pub struct TryFromPrimitiveError<P> {
    pub number: P,
}

/// A worked example of the conversions the engine derives: an enumeration
/// over `u8` with the two implicit discriminants zero and one.
#[derive(Clone, Copy, PartialEq, Eq, Structural, Debug)]
pub enum Number {
    Zero,
    One,
}

impl Number {
    /// The canonical discriminant of the variant.
    pub open spec fn canonical_spec(self) -> int {
        match self {
            Number::Zero => 0,
            Number::One => 1,
        }
    }

    /// The enumeration-to-integer conversion: each variant to its canonical
    /// discriminant.
    pub fn into_primitive(self) -> (r: u8)
        ensures
            r as int == self.canonical_spec(),
    {
        match self {
            Number::Zero => 0,
            Number::One => 1,
        }
    }

    /// The unchecked integer-to-enumeration conversion: the caller must pass
    /// a canonical discriminant; no validation is performed.
    pub fn from_unchecked(number: u8) -> (r: Number)
        requires
            number <= 1,
        ensures
            r.canonical_spec() == number as int,
    {
        if number == 0 {
            Number::Zero
        } else {
            Number::One
        }
    }
}

impl TryFromPrimitive for Number {
    type Primitive = u8;

    fn try_from_primitive(number: u8) -> Result<Number, TryFromPrimitiveError<u8>> {
        if number == 0 {
            Ok(Number::Zero)
        } else if number == 1 {
            Ok(Number::One)
        } else {
            Err(TryFromPrimitiveError { number })
        }
    }
}

} // verus!

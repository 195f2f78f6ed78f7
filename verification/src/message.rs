//! Rendering of the fallible conversion's error message.
//!
//! The raw unmatched integer is rendered in decimal, with a leading minus
//! sign for negative values, exactly as the underlying primitive type would
//! render itself.

use vstd::prelude::*;
use vstd::string::StringExecFns;
use crate::resolve::{ResolvedMapping, SchemaError};
use crate::TryFromPrimitiveError;

verus! {

/// The decimal digit character for `d`.
pub open spec fn spec_digit(d: int) -> char {
    if d == 0 {
        '0'
    } else if d == 1 {
        '1'
    } else if d == 2 {
        '2'
    } else if d == 3 {
        '3'
    } else if d == 4 {
        '4'
    } else if d == 5 {
        '5'
    } else if d == 6 {
        '6'
    } else if d == 7 {
        '7'
    } else if d == 8 {
        '8'
    } else {
        '9'
    }
}

/// The decimal digits of a non-negative integer, most significant first.
pub open spec fn spec_udec(n: int) -> Seq<char>
    decreases n,
{
    if n < 10 {
        seq![spec_digit(n)]
    } else {
        spec_udec(n / 10).push(spec_digit(n % 10))
    }
}

/// The decimal rendering of an integer: a minus sign and the magnitude for
/// negative values, the plain digits otherwise.
pub open spec fn spec_decimal(v: int) -> Seq<char> {
    if v < 0 {
        seq!['-'] + spec_udec(-v)
    } else {
        spec_udec(v)
    }
}

/// The text of the default conversion error for enumeration `name` and
/// unmatched raw value `v`.
pub open spec fn error_message_spec(name: Seq<char>, v: int) -> Seq<char> {
    "No discriminant in enum `"@ + name + "` matches the value `"@ + spec_decimal(v) + "`"@
}

/// One decimal digit as a string.
fn digit_string(d: u128) -> (r: String)
    requires
        d < 10,
    ensures
        r@ == seq![spec_digit(d as int)],
{
    if d == 0 {
        proof {
            reveal_strlit("0");
        }
        let r = String::from_str("0");
        proof {
            assert(r@ =~= seq![spec_digit(d as int)]);
        }
        r
    } else if d == 1 {
        proof {
            reveal_strlit("1");
        }
        let r = String::from_str("1");
        proof {
            assert(r@ =~= seq![spec_digit(d as int)]);
        }
        r
    } else if d == 2 {
        proof {
            reveal_strlit("2");
        }
        let r = String::from_str("2");
        proof {
            assert(r@ =~= seq![spec_digit(d as int)]);
        }
        r
    } else if d == 3 {
        proof {
            reveal_strlit("3");
        }
        let r = String::from_str("3");
        proof {
            assert(r@ =~= seq![spec_digit(d as int)]);
        }
        r
    } else if d == 4 {
        proof {
            reveal_strlit("4");
        }
        let r = String::from_str("4");
        proof {
            assert(r@ =~= seq![spec_digit(d as int)]);
        }
        r
    } else if d == 5 {
        proof {
            reveal_strlit("5");
        }
        let r = String::from_str("5");
        proof {
            assert(r@ =~= seq![spec_digit(d as int)]);
        }
        r
    } else if d == 6 {
        proof {
            reveal_strlit("6");
        }
        let r = String::from_str("6");
        proof {
            assert(r@ =~= seq![spec_digit(d as int)]);
        }
        r
    } else if d == 7 {
        proof {
            reveal_strlit("7");
        }
        let r = String::from_str("7");
        proof {
            assert(r@ =~= seq![spec_digit(d as int)]);
        }
        r
    } else if d == 8 {
        proof {
            reveal_strlit("8");
        }
        let r = String::from_str("8");
        proof {
            assert(r@ =~= seq![spec_digit(d as int)]);
        }
        r
    } else {
        proof {
            reveal_strlit("9");
        }
        let r = String::from_str("9");
        proof {
            assert(r@ =~= seq![spec_digit(d as int)]);
        }
        r
    }
}

/// The decimal digits of a non-negative value.
fn udec_string(n: u128) -> (r: String)
    ensures
        r@ == spec_udec(n as int),
    decreases n,
{
    if n < 10 {
        digit_string(n)
    } else {
        proof {
            assert(n / 10 < n);
        }
        let mut s = udec_string(n / 10);
        let d = digit_string(n % 10);
        s.append(d.as_str());
        proof {
            assert(s@ =~= spec_udec((n as int) / 10).push(spec_digit((n as int) % 10)));
        }
        s
    }
}

/// The decimal rendering of a value, minus sign included.
pub fn decimal_string(v: i128) -> (r: String)
    ensures
        r@ == spec_decimal(v as int),
{
    if v < 0 {
        // The magnitude, computed without overflowing at the type's minimum.
        let mag: u128 = ((-(v + 1)) as u128) + 1;
        proof {
            assert(mag as int == -(v as int));
            reveal_strlit("-");
        }
        let mut s = String::from_str("-");
        let d = udec_string(mag);
        s.append(d.as_str());
        proof {
            assert(s@ =~= seq!['-'] + spec_udec(-(v as int)));
        }
        s
    } else {
        udec_string(v as u128)
    }
}

impl ResolvedMapping {
    /// The message of the default conversion error: the enumeration's name
    /// and the raw unmatched value, rendered in decimal.
    pub fn conversion_error_message(&self, err: &TryFromPrimitiveError<i128>) -> (r: String)
        ensures
            r@ == error_message_spec(self.enum_name@, err.number as int),
    {
        let mut s = String::from_str("No discriminant in enum `");
        s.append(self.enum_name.as_str());
        s.append("` matches the value `");
        let d = decimal_string(err.number);
        s.append(d.as_str());
        s.append("`");
        s
    }
}

/// The text of a structural schema error.
pub open spec fn schema_error_message_spec(e: SchemaError) -> Seq<char> {
    match e {
        SchemaError::DiscriminantCollision { first_variant, second_variant, value, .. } => {
            "discriminant value `"@ + spec_decimal(value as int) + "` is claimed by both `"@
                + first_variant@ + "` and `"@ + second_variant@ + "`"@
        },
        SchemaError::ConflictingModifiers { variant, .. } => {
            "conflicting num_enum modifiers on variant `"@ + variant@ + "`"@
        },
        SchemaError::MalformedCatchAll { variant, .. } => {
            "variant `"@ + variant@ + "` has the wrong fields for its modifiers"@
        },
        SchemaError::MissingFallback => {
            "the enum must be exhaustive, or have a variant marked `default` or `catch_all`"@
        },
        SchemaError::ConflictingErrorType { .. } => {
            "num_enum attribute must have at most one error_type"@
        },
    }
}

impl SchemaError {
    /// The human-readable message of the error, for the host toolchain's
    /// diagnostics.
    pub fn describe(&self) -> (r: String)
        ensures
            r@ == schema_error_message_spec(*self),
    {
        match self {
            SchemaError::DiscriminantCollision { first_variant, second_variant, value, .. } => {
                let mut s = String::from_str("discriminant value `");
                let d = decimal_string(*value);
                s.append(d.as_str());
                s.append("` is claimed by both `");
                s.append(first_variant.as_str());
                s.append("` and `");
                s.append(second_variant.as_str());
                s.append("`");
                s
            },
            SchemaError::ConflictingModifiers { variant, .. } => {
                let mut s = String::from_str("conflicting num_enum modifiers on variant `");
                s.append(variant.as_str());
                s.append("`");
                s
            },
            SchemaError::MalformedCatchAll { variant, .. } => {
                let mut s = String::from_str("variant `");
                s.append(variant.as_str());
                s.append("` has the wrong fields for its modifiers");
                s
            },
            SchemaError::MissingFallback => {
                String::from_str(
                    "the enum must be exhaustive, or have a variant marked `default` or `catch_all`",
                )
            },
            SchemaError::ConflictingErrorType { .. } => {
                String::from_str("num_enum attribute must have at most one error_type")
            },
        }
    }
}

} // verus!

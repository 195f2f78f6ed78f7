//! The schema model: the immutable description of one enumeration that the
//! front end hands to the resolver.
//!
//! Discriminants are represented as `i128` values so that every supported
//! underlying integer type (8 to 64 bits, signed or unsigned, and the
//! pointer-sized types) embeds losslessly.  All discriminant arithmetic is
//! performed modulo the underlying type's value range.

use vstd::prelude::*;

verus! {

/// A primitive integer kind: the underlying representation of an
/// enumeration.  The pointer-sized kinds are treated as 64 bits wide.
#[derive(Clone, Copy, PartialEq, Eq, Structural, Debug)]
pub enum IntegerType {
    U8,
    U16,
    U32,
    U64,
    Usize,
    I8,
    I16,
    I32,
    I64,
    Isize,
}

impl IntegerType {
    /// The smallest value of the type.
    pub open spec fn min_spec(self) -> int {
        match self {
            IntegerType::U8 | IntegerType::U16 | IntegerType::U32 | IntegerType::U64
            | IntegerType::Usize => 0,
            IntegerType::I8 => -0x80,
            IntegerType::I16 => -0x8000,
            IntegerType::I32 => -0x8000_0000,
            IntegerType::I64 | IntegerType::Isize => -0x8000_0000_0000_0000,
        }
    }

    /// The largest value of the type.
    pub open spec fn max_spec(self) -> int {
        match self {
            IntegerType::U8 => 0xff,
            IntegerType::U16 => 0xffff,
            IntegerType::U32 => 0xffff_ffff,
            IntegerType::U64 | IntegerType::Usize => 0xffff_ffff_ffff_ffff,
            IntegerType::I8 => 0x7f,
            IntegerType::I16 => 0x7fff,
            IntegerType::I32 => 0x7fff_ffff,
            IntegerType::I64 | IntegerType::Isize => 0x7fff_ffff_ffff_ffff,
        }
    }

    /// The number of distinct values of the type.
    pub open spec fn card_spec(self) -> int {
        self.max_spec() - self.min_spec() + 1
    }

    /// Whether `v` is a value of the type.
    pub open spec fn in_range(self, v: int) -> bool {
        self.min_spec() <= v <= self.max_spec()
    }

    /// The smallest value of the type.
    pub fn min_value(self) -> (r: i128)
        ensures
            r as int == self.min_spec(),
    {
        match self {
            IntegerType::U8 | IntegerType::U16 | IntegerType::U32 | IntegerType::U64
            | IntegerType::Usize => 0,
            IntegerType::I8 => -0x80,
            IntegerType::I16 => -0x8000,
            IntegerType::I32 => -0x8000_0000,
            IntegerType::I64 | IntegerType::Isize => -0x8000_0000_0000_0000,
        }
    }

    /// The largest value of the type.
    pub fn max_value(self) -> (r: i128)
        ensures
            r as int == self.max_spec(),
    {
        match self {
            IntegerType::U8 => 0xff,
            IntegerType::U16 => 0xffff,
            IntegerType::U32 => 0xffff_ffff,
            IntegerType::U64 | IntegerType::Usize => 0xffff_ffff_ffff_ffff,
            IntegerType::I8 => 0x7f,
            IntegerType::I16 => 0x7fff,
            IntegerType::I32 => 0x7fff_ffff,
            IntegerType::I64 | IntegerType::Isize => 0x7fff_ffff_ffff_ffff,
        }
    }

    /// The number of distinct values of the type.
    pub fn card(self) -> (r: u128)
        ensures
            r as int == self.card_spec(),
    {
        match self {
            IntegerType::U8 | IntegerType::I8 => 0x100,
            IntegerType::U16 | IntegerType::I16 => 0x1_0000,
            IntegerType::U32 | IntegerType::I32 => 0x1_0000_0000,
            IntegerType::U64 | IntegerType::Usize | IntegerType::I64 | IntegerType::Isize =>
                0x1_0000_0000_0000_0000,
        }
    }

    /// `v + 1` wrapped to the type's range: overflowing the maximum wraps
    /// silently to the minimum.
    pub open spec fn wrapping_inc_spec(self, v: int) -> int {
        if v + 1 > self.max_spec() {
            self.min_spec()
        } else {
            v + 1
        }
    }

    /// `v + 1` wrapped to the type's range.
    pub fn wrapping_inc(self, v: i128) -> (r: i128)
        requires
            self.in_range(v as int),
        ensures
            r as int == self.wrapping_inc_spec(v as int),
    {
        if v == self.max_value() {
            self.min_value()
        } else {
            v + 1
        }
    }
}

/// The shape of a variant's fields: no fields, or exactly one field of the
/// enumeration's own underlying integer type (the catch-all payload).
#[derive(Clone, Copy, PartialEq, Eq, Structural, Debug)]
pub enum PayloadShape {
    Unit,
    SingleIntegerField,
}

/// One declared variant of an enumeration.
#[derive(Clone, Debug)]
pub struct VariantSpec {
    /// The variant's identifier, unique within the schema.
    pub name: String,
    /// The constant-folded explicit discriminant, if one was declared.
    pub explicit_value: Option<i128>,
    /// Whether the variant carries the `default` modifier.
    pub is_default: bool,
    /// Whether the variant carries the `catch_all` modifier.
    pub is_catch_all: bool,
    /// The constant-folded alternative values, in declaration order.
    pub alternatives: Vec<i128>,
    /// The shape of the variant's fields.
    pub payload: PayloadShape,
    /// An opaque source-location tag for the variant's modifiers, passed
    /// through into diagnostics.
    pub loc: Option<u64>,
}

/// A user-supplied error type for the fallible conversion: a type name and a
/// unary constructor taking the raw unmatched integer.
#[derive(Clone, Debug)]
pub struct ErrorTypeDecl {
    pub name: String,
    pub constructor: String,
    /// An opaque source-location tag, passed through into diagnostics.
    pub loc: Option<u64>,
}

/// The immutable description of one enumeration, as produced by the front
/// end: its name, its underlying integer type, its ordered variant list, and
/// any custom error-type declarations.
#[derive(Clone, Debug)]
pub struct EnumSchema {
    pub name: String,
    pub underlying: IntegerType,
    /// The variants in declaration order; the order drives implicit
    /// discriminant inference and collision reporting.
    pub variants: Vec<VariantSpec>,
    /// Custom error-type declarations, in declaration order.  At most one is
    /// permitted; the resolver rejects more.
    pub error_decls: Vec<ErrorTypeDecl>,
}

impl EnumSchema {
    /// Input validity: every declared discriminant and alternative value is a
    /// value of the underlying type, and variant names are distinct.  The
    /// front end guarantees this; the host toolchain rejects out-of-range
    /// discriminants and duplicate identifiers before a schema is formed.
    pub open spec fn wf(self) -> bool {
        &&& forall|i: int| 0 <= i < self.variants@.len() ==> {
            &&& (#[trigger] self.variants@[i]).explicit_value matches Some(v)
                ==> self.underlying.in_range(v as int)
            &&& forall|k: int| 0 <= k < self.variants@[i].alternatives@.len()
                ==> self.underlying.in_range(#[trigger] self.variants@[i].alternatives@[k] as int)
        }
        &&& forall|i: int, j: int| 0 <= i < j < self.variants@.len()
            ==> (#[trigger] self.variants@[i]).name@ != (#[trigger] self.variants@[j]).name@
    }
}

} // verus!

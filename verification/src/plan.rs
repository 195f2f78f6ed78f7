//! The conversion-semantics deriver: from a resolved mapping, a decision
//! record per conversion family, stating which family is legal for the
//! schema and what its generated body must do.
//!
//! Every integer-to-enumeration record carries the shared mapping table: one
//! arm per variant, in declaration order, holding the variant's canonical
//! value followed by its sorted alternative values.  The arms are disjoint
//! by construction, so the dispatch order never affects which arm matches.

use vstd::prelude::*;
use crate::resolve::{ResolvedMapping, ResolvedVariant, SchemaError};

verus! {

/// How the fallible conversion's error arm builds its value: the library's
/// own error, or a user-supplied constructor applied to the raw integer.
#[derive(Clone, Debug, PartialEq, Eq)]
pub enum ErrorStrategy {
    DefaultError,
    Custom { name: String, constructor: String },
}

/// One dispatch arm: all values, canonical first, that select one variant.
#[derive(Clone, Debug, PartialEq, Eq)]
pub struct MatchArm {
    pub values: Vec<i128>,
    pub variant: usize,
}

/// What the total conversion does with an unmatched input.
#[derive(Clone, Copy, Debug, PartialEq, Eq, Structural)]
pub enum TotalFallback {
    /// No input can be unmatched: the schema is naturally exhaustive.
    Unreachable,
    /// The default variant, without payload.
    UseDefault(usize),
    /// The catch-all variant, capturing the raw input.
    UseCatchAll(usize),
}

/// What the fallible conversion does with an unmatched input.
#[derive(Clone, Debug, PartialEq, Eq)]
pub enum FallibleFallback {
    /// The default variant, without payload.
    UseDefault(usize),
    /// The catch-all variant, capturing the raw input.
    UseCatchAll(usize),
    /// An error built from the raw input.
    FailWith(ErrorStrategy),
}

/// The decision record of one conversion family, handed to the back end.
#[derive(Clone, Debug, PartialEq, Eq)]
pub enum ConversionPlan {
    /// Enumeration to integer: each variant by its canonical value; the
    /// catch-all variant, when present, by its payload verbatim.  Without a
    /// catch-all the body may reinterpret the tag directly.
    ToInteger { pairs: Vec<(usize, i128)>, catch_all: Option<usize> },
    /// Integer to enumeration, total.
    FromIntegerTotal { arms: Vec<MatchArm>, fallback: TotalFallback },
    /// Integer to enumeration, fallible.
    FromIntegerFallible { arms: Vec<MatchArm>, fallback: FallibleFallback },
    /// Integer to enumeration, unchecked: reinterpret the raw bits, with no
    /// validation; the caller must pass a canonical value.
    FromIntegerUnchecked,
    /// The default-value selection.
    DefaultValue { variant: usize },
}

/// The arms reproduce the mapping table: one arm per variant, in declaration
/// order, holding the canonical value and then the sorted alternatives.
pub open spec fn arms_match(m: ResolvedMapping, arms: Seq<MatchArm>) -> bool {
    &&& arms.len() == m.variants@.len()
    &&& forall|i: int| 0 <= i < arms.len() ==> {
        &&& (#[trigger] arms[i]).variant == i
        &&& arms[i].values@ == seq![m.variants@[i].canonical] + m.variants@[i].aliases@
    }
}

/// The error strategy records the custom error type exactly when one was
/// declared.
pub open spec fn strategy_matches(m: ResolvedMapping, st: ErrorStrategy) -> bool {
    match m.error_type {
        Some(d) => {
            &&& st is Custom
            &&& st->Custom_name@ == d.name@
            &&& st->Custom_constructor@ == d.constructor@
        },
        None => st is DefaultError,
    }
}

/// The values, canonical first, that select one variant.
fn arm_values(rv: &ResolvedVariant) -> (r: Vec<i128>)
    ensures
        r@ == seq![rv.canonical] + rv.aliases@,
{
    let mut out: Vec<i128> = Vec::new();
    out.push(rv.canonical);
    let mut k: usize = 0;
    let alen = rv.aliases.len();
    while k < alen
        invariant
            alen == rv.aliases@.len(),
            k <= alen,
            out@ == seq![rv.canonical] + rv.aliases@.subrange(0, k as int),
        decreases alen - k,
    {
        out.push(rv.aliases[k]);
        proof {
            assert(out@ =~= seq![rv.canonical] + rv.aliases@.subrange(0, k as int + 1));
        }
        k += 1;
    }
    proof {
        assert(rv.aliases@.subrange(0, alen as int) =~= rv.aliases@);
    }
    out
}

/// The shared mapping table of the integer-to-enumeration families.
fn build_arms(m: &ResolvedMapping) -> (r: Vec<MatchArm>)
    ensures
        arms_match(*m, r@),
{
    let n = m.variants.len();
    let mut arms: Vec<MatchArm> = Vec::new();
    let mut i: usize = 0;
    while i < n
        invariant
            n == m.variants@.len(),
            i <= n,
            arms@.len() == i,
            forall|j: int| 0 <= j < i ==> {
                &&& (#[trigger] arms@[j]).variant == j
                &&& arms@[j].values@ == seq![m.variants@[j].canonical] + m.variants@[j].aliases@
            },
        decreases n - i,
    {
        let values = arm_values(&m.variants[i]);
        arms.push(MatchArm { values, variant: i });
        i += 1;
    }
    arms
}

/// Derive the enumeration-to-integer record.  Always legal: each variant
/// maps to its canonical value; a catch-all variant, when present, maps to
/// its payload verbatim instead.
pub fn derive_to_integer(m: &ResolvedMapping) -> (r: ConversionPlan)
    requires
        m.wf(),
    ensures
        r is ToInteger,
        r->ToInteger_catch_all == m.catch_all_variant,
        r->ToInteger_pairs@.len() == m.variants@.len(),
        forall|i: int| 0 <= i < m.variants@.len() ==> #[trigger] r->ToInteger_pairs@[i] == (
            i as usize,
            m.variants@[i].canonical,
        ),
{
    let n = m.variants.len();
    let mut pairs: Vec<(usize, i128)> = Vec::new();
    let mut i: usize = 0;
    while i < n
        invariant
            n == m.variants@.len(),
            i <= n,
            pairs@.len() == i,
            forall|j: int| 0 <= j < i ==> #[trigger] pairs@[j] == (
                j as usize,
                m.variants@[j].canonical,
            ),
        decreases n - i,
    {
        pairs.push((i, m.variants[i].canonical));
        i += 1;
    }
    ConversionPlan::ToInteger { pairs, catch_all: m.catch_all_variant }
}

/// Derive the total integer-to-enumeration record.  Legal exactly when the
/// schema is naturally exhaustive or a default or catch-all variant exists;
/// the fallback is unreachable, the default variant, or the catch-all
/// variant, in that order of preference.
pub fn derive_from_integer_total(m: &ResolvedMapping) -> (r: Result<ConversionPlan, SchemaError>)
    requires
        m.wf(),
    ensures
        r is Ok <==> m.supports_total_spec(),
        r matches Ok(p) ==> p is FromIntegerTotal && arms_match(*m, p->FromIntegerTotal_arms@),
        r is Ok && m.is_naturally_exhaustive ==> r->Ok_0->FromIntegerTotal_fallback
            == TotalFallback::Unreachable,
        r is Ok && !m.is_naturally_exhaustive && m.default_variant is Some
            ==> r->Ok_0->FromIntegerTotal_fallback == TotalFallback::UseDefault(
            m.default_variant->0,
        ),
        r is Ok && !m.is_naturally_exhaustive && m.default_variant is None
            ==> r->Ok_0->FromIntegerTotal_fallback == TotalFallback::UseCatchAll(
            m.catch_all_variant->0,
        ),
        r matches Err(e) ==> e == SchemaError::MissingFallback,
{
    let fallback = if m.is_naturally_exhaustive {
        TotalFallback::Unreachable
    } else if let Some(d) = m.default_variant {
        TotalFallback::UseDefault(d)
    } else if let Some(c) = m.catch_all_variant {
        TotalFallback::UseCatchAll(c)
    } else {
        return Err(SchemaError::MissingFallback);
    };
    let arms = build_arms(m);
    Ok(ConversionPlan::FromIntegerTotal { arms, fallback })
}

/// Derive the fallible integer-to-enumeration record.  Always legal: an
/// unmatched input falls back to the default variant, then to the catch-all
/// variant, and otherwise to the error strategy — the declared custom error
/// constructor, or the library's own error.
pub fn derive_from_integer_fallible(m: &ResolvedMapping) -> (r: ConversionPlan)
    requires
        m.wf(),
    ensures
        r is FromIntegerFallible,
        arms_match(*m, r->FromIntegerFallible_arms@),
        m.default_variant is Some ==> r->FromIntegerFallible_fallback
            == FallibleFallback::UseDefault(m.default_variant->0),
        m.default_variant is None && m.catch_all_variant is Some
            ==> r->FromIntegerFallible_fallback == FallibleFallback::UseCatchAll(
            m.catch_all_variant->0,
        ),
        m.default_variant is None && m.catch_all_variant is None ==> {
            &&& r->FromIntegerFallible_fallback is FailWith
            &&& strategy_matches(*m, r->FromIntegerFallible_fallback->FailWith_0)
        },
{
    let fallback = if let Some(d) = m.default_variant {
        FallibleFallback::UseDefault(d)
    } else if let Some(c) = m.catch_all_variant {
        FallibleFallback::UseCatchAll(c)
    } else {
        match &m.error_type {
            Some(d) => FallibleFallback::FailWith(
                ErrorStrategy::Custom {
                    name: d.name.clone(),
                    constructor: d.constructor.clone(),
                },
            ),
            None => FallibleFallback::FailWith(ErrorStrategy::DefaultError),
        }
    };
    let arms = build_arms(m);
    ConversionPlan::FromIntegerFallible { arms, fallback }
}

/// With no default variant recorded, no variant carries `default`; likewise
/// for the catch-all marker.
proof fn lemma_no_marker(m: ResolvedMapping, i: int)
    requires
        m.wf(),
        0 <= i < m.variants@.len(),
    ensures
        m.default_variant is None ==> !m.variants@[i].is_default,
        m.catch_all_variant is None ==> !m.variants@[i].is_catch_all,
{
}

/// A variant that would make the unchecked conversion unsound to derive: one
/// carrying any modifier or alternative value.
pub open spec fn blocks_unchecked(m: ResolvedMapping, i: int) -> bool {
    ||| m.variants@[i].is_default
    ||| m.variants@[i].is_catch_all
    ||| m.variants@[i].aliases@.len() > 0
}

/// Derive the unchecked integer-to-enumeration record.  Legal only for a
/// schema with no default, no catch-all and no alternative values: the body
/// reinterprets the raw bits with no validation, so every value the caller
/// may pass must be a canonical value.
pub fn derive_from_integer_unchecked(m: &ResolvedMapping) -> (r: Result<
    ConversionPlan,
    SchemaError,
>)
    requires
        m.wf(),
    ensures
        r is Ok <==> m.canonical_only(),
        r matches Ok(p) ==> p == ConversionPlan::FromIntegerUnchecked,
        r matches Err(e) ==> {
            &&& e is ConflictingModifiers
            &&& exists|i: int|
                {
                    &&& 0 <= i < m.variants@.len()
                    &&& #[trigger] blocks_unchecked(*m, i)
                    &&& forall|j: int| 0 <= j < i ==> !#[trigger] blocks_unchecked(*m, j)
                    &&& e->ConflictingModifiers_variant@ == m.variants@[i].name@
                }
        },
{
    let n = m.variants.len();
    let mut i: usize = 0;
    while i < n
        invariant
            m.wf(),
            n == m.variants@.len(),
            i <= n,
            forall|j: int| 0 <= j < i ==> !#[trigger] blocks_unchecked(*m, j),
        decreases n - i,
    {
        let rv = &m.variants[i];
        if rv.is_default || rv.is_catch_all || rv.aliases.len() > 0 {
            proof {
                assert(blocks_unchecked(*m, i as int));
                lemma_no_marker(*m, i as int);
                assert(!m.canonical_only()) by {
                    if m.canonical_only() {
                        assert(m.variants@[i as int].aliases@.len() == 0);
                    }
                }
            }
            return Err(SchemaError::ConflictingModifiers { variant: rv.name.clone(), loc: None });
        }
        i += 1;
    }
    proof {
        assert forall|j: int| 0 <= j < m.variants@.len() implies !(
        #[trigger] m.variants@[j]).is_default && !m.variants@[j].is_catch_all && m.variants@[
            j
        ].aliases@.len() == 0 by {
            assert(!blocks_unchecked(*m, j));
        }
        match m.default_variant {
            Some(d) => {
                assert(m.variants@[d as int].is_default);
                assert(false);
            },
            None => {},
        }
        match m.catch_all_variant {
            Some(c) => {
                assert(m.variants@[c as int].is_catch_all);
                assert(false);
            },
            None => {},
        }
    }
    Ok(ConversionPlan::FromIntegerUnchecked)
}

/// Derive the default-value record.  Legal exactly when a variant carries
/// `default`.
pub fn derive_default_value(m: &ResolvedMapping) -> (r: Result<ConversionPlan, SchemaError>)
    requires
        m.wf(),
    ensures
        r is Ok <==> m.default_variant is Some,
        r matches Ok(p) ==> p == (ConversionPlan::DefaultValue { variant: m.default_variant->0 }),
        r matches Err(e) ==> e == SchemaError::MissingFallback,
{
    match m.default_variant {
        Some(d) => Ok(ConversionPlan::DefaultValue { variant: d }),
        None => Err(SchemaError::MissingFallback),
    }
}

} // verus!


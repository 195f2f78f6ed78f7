//! The conversion families realised over a resolved mapping: what the
//! generated conversion bodies compute.
//!
//! All integer-to-enumeration families share one matching procedure: the
//! input is compared, in declaration order, against each variant's canonical
//! value and alternative values.  The claims are disjoint by construction,
//! so the order never changes which variant matches.  An unmatched input
//! falls back to the default variant, then to the catch-all variant (which
//! captures the raw input as its payload), and otherwise fails — or cannot
//! occur at all when the schema is naturally exhaustive.

use vstd::prelude::*;
use crate::resolve::ResolvedMapping;
use crate::TryFromPrimitiveError;

verus! {

/// A run-time value of the described enumeration: a variant index, with the
/// captured raw integer for the catch-all variant.
#[derive(Clone, Copy, PartialEq, Eq, Structural, Debug)]
pub struct EnumValue {
    /// The index of the variant, in declaration order.
    pub variant: usize,
    /// The captured payload: present exactly on the catch-all variant.
    pub payload: Option<i128>,
}

impl EnumValue {
    /// A payload-free value of variant `i`.
    pub open spec fn unit_spec(i: int) -> EnumValue {
        EnumValue { variant: i as usize, payload: None }
    }

    /// A catch-all value of variant `i` holding the raw integer `x`.
    pub open spec fn caught_spec(i: int, x: int) -> EnumValue {
        EnumValue { variant: i as usize, payload: Some(x as i128) }
    }

    /// A payload-free value of variant `i`.
    pub fn unit(i: usize) -> (r: EnumValue)
        ensures
            r == EnumValue::unit_spec(i as int),
    {
        EnumValue { variant: i, payload: None }
    }

    /// A catch-all value of variant `i` holding the raw integer `x`.
    pub fn caught(i: usize, x: i128) -> (r: EnumValue)
        ensures
            r == EnumValue::caught_spec(i as int, x as int),
    {
        EnumValue { variant: i, payload: Some(x) }
    }
}

impl ResolvedMapping {
    /// The first variant, in declaration order, claiming `x`, searched from
    /// index `s`.  At most one variant claims any value, so the order is
    /// immaterial to the result.
    pub open spec fn lookup_from(self, x: int, s: int) -> Option<int>
        decreases self.variants@.len() - s,
    {
        if s < 0 || s >= self.variants@.len() {
            None
        } else if self.matches_value(s, x) {
            Some(s)
        } else {
            self.lookup_from(x, s + 1)
        }
    }

    /// The variant claiming `x`, if any.
    pub open spec fn spec_lookup(self, x: int) -> Option<int> {
        self.lookup_from(x, 0)
    }

    /// Whether `v` is a value this mapping can describe: the variant index
    /// is real; only the catch-all variant carries a payload, and its
    /// payload is a value of the underlying type that no other variant
    /// claims.
    pub open spec fn value_wf(self, v: EnumValue) -> bool {
        &&& v.variant < self.variants@.len()
        &&& if self.variants@[v.variant as int].is_catch_all {
            &&& v.payload matches Some(p)
            &&& self.underlying.in_range(v.payload->0 as int)
            &&& (self.spec_lookup(v.payload->0 as int) == Some(v.variant as int)
                || self.spec_lookup(v.payload->0 as int) is None)
        } else {
            v.payload is None
        }
    }

    /// What the enumeration-to-integer conversion returns: the catch-all
    /// variant hands back its captured payload verbatim; every other variant
    /// maps to its canonical value.
    pub open spec fn spec_to_integer(self, v: EnumValue) -> int {
        if self.variants@[v.variant as int].is_catch_all {
            v.payload->0 as int
        } else {
            self.canon_of(v.variant as int)
        }
    }

    /// What the total integer-to-enumeration conversion returns: the
    /// matching variant, else the default variant, else the catch-all
    /// variant capturing the raw input.  (With no fallback the schema is
    /// naturally exhaustive and every input matches.)
    pub open spec fn spec_from_total(self, x: int) -> EnumValue {
        match self.spec_lookup(x) {
            Some(i) => if self.variants@[i].is_catch_all {
                EnumValue::caught_spec(i, x)
            } else {
                EnumValue::unit_spec(i)
            },
            None => match self.default_variant {
                Some(d) => EnumValue::unit_spec(d as int),
                None => match self.catch_all_variant {
                    Some(c) => EnumValue::caught_spec(c as int, x),
                    None => EnumValue::unit_spec(0),
                },
            },
        }
    }

    /// No variant whatsoever carries a modifier: no default, no catch-all,
    /// no alternative values.  Only such a schema admits the unchecked
    /// conversion.
    pub open spec fn canonical_only(self) -> bool {
        &&& self.default_variant is None
        &&& self.catch_all_variant is None
        &&& forall|i: int| 0 <= i < self.variants@.len()
            ==> (#[trigger] self.variants@[i]).aliases@.len() == 0
    }
}

/// The search below `s` settles `lookup_from`: a `None` means nothing from
/// `s` on matches, a `Some(i)` means `i` matches and nothing before it does.
proof fn lemma_lookup_from(m: ResolvedMapping, x: int, s: int)
    requires
        0 <= s <= m.variants@.len(),
    ensures
        match m.lookup_from(x, s) {
            None => forall|j: int| s <= j < m.variants@.len() ==> !#[trigger] m.matches_value(j, x),
            Some(i) => {
                &&& s <= i < m.variants@.len()
                &&& m.matches_value(i, x)
                &&& forall|j: int| s <= j < i ==> !#[trigger] m.matches_value(j, x)
            },
        },
    decreases m.variants@.len() - s,
{
    if s < m.variants@.len() && !m.matches_value(s, x) {
        lemma_lookup_from(m, x, s + 1);
    }
}

/// The dispatch is unambiguous: the claims of distinct variants are
/// disjoint, so the order in which the mapping table is consulted can never
/// change which variant an input selects.
pub proof fn lemma_match_unambiguous(m: ResolvedMapping, x: int, i: int, j: int)
    requires
        m.wf(),
        0 <= i < m.variants@.len(),
        0 <= j < m.variants@.len(),
        m.matches_value(i, x),
        m.matches_value(j, x),
    ensures
        i == j,
{
    if i != j {
        assert(m.canon_of(i) != m.canon_of(j));
        assert(!(m.alias_vals(i).contains(x) && m.alias_vals(j).contains(x)));
        assert(!m.alias_vals(j).contains(m.canon_of(i)));
        assert(!m.alias_vals(i).contains(m.canon_of(j)));
        assert(false);
    }
}

/// A value matched by exactly one variant is looked up as that variant.
proof fn lemma_lookup_unique(m: ResolvedMapping, x: int, i: int)
    requires
        m.wf(),
        0 <= i < m.variants@.len(),
        m.matches_value(i, x),
    ensures
        m.spec_lookup(x) == Some(i),
{
    lemma_lookup_from(m, x, 0);
    match m.spec_lookup(x) {
        None => {
            assert(!m.matches_value(i, x));
        },
        Some(i2) => {
            lemma_match_unambiguous(m, x, i, i2);
        },
    }
}

/// Find the variant claiming `x`, if any.
fn find_match(m: &ResolvedMapping, x: i128) -> (r: Option<usize>)
    ensures
        match r {
            Some(i) => i < m.variants@.len() && m.spec_lookup(x as int) == Some(i as int),
            None => m.spec_lookup(x as int) is None,
        },
{
    let n = m.variants.len();
    let mut i: usize = 0;
    while i < n
        invariant
            n == m.variants@.len(),
            i <= n,
            forall|j: int| 0 <= j < i ==> !#[trigger] m.matches_value(j, x as int),
        decreases n - i,
    {
        let rv = &m.variants[i];
        if rv.canonical == x {
            proof {
                lemma_lookup_some_of_prefix(*m, x as int, i as int);
            }
            return Some(i);
        }
        let mut k: usize = 0;
        let alen = rv.aliases.len();
        let mut found = false;
        while k < alen
            invariant
                rv == m.variants@[i as int],
                i < n,
                n == m.variants@.len(),
                alen == rv.aliases@.len(),
                k <= alen,
                found ==> m.alias_vals(i as int).contains(x as int),
                !found ==> forall|t: int| 0 <= t < k ==> rv.aliases@[t] != x,
            decreases alen - k,
        {
            if rv.aliases[k] == x {
                proof {
                    assert(m.alias_vals(i as int)[k as int] == x as int);
                }
                found = true;
                k = alen;
            } else {
                k += 1;
            }
        }
        if found {
            proof {
                lemma_lookup_some_of_prefix(*m, x as int, i as int);
            }
            return Some(i);
        }
        proof {
            assert(!m.matches_value(i as int, x as int)) by {
                if m.alias_vals(i as int).contains(x as int) {
                    let t = choose|t: int|
                        0 <= t < m.alias_vals(i as int).len() && m.alias_vals(i as int)[t]
                            == x as int;
                    assert(m.variants@[i as int].aliases@[t] as int == x as int);
                    assert(m.variants@[i as int].aliases@[t] == x);
                }
            }
        }
        i += 1;
    }
    proof {
        lemma_lookup_from(*m, x as int, 0);
        match m.spec_lookup(x as int) {
            Some(i2) => {
                assert(m.matches_value(i2, x as int));
                assert(false);
            },
            None => {},
        }
    }
    None
}

/// A match at `i`, with no match before it, settles the lookup.
proof fn lemma_lookup_some_of_prefix(m: ResolvedMapping, x: int, i: int)
    requires
        0 <= i < m.variants@.len(),
        m.matches_value(i, x),
        forall|j: int| 0 <= j < i ==> !#[trigger] m.matches_value(j, x),
    ensures
        m.spec_lookup(x) == Some(i),
{
    lemma_lookup_from(m, x, 0);
    match m.spec_lookup(x) {
        None => {
            assert(!m.matches_value(i, x));
        },
        Some(i2) => {
            if i2 < i {
                assert(m.matches_value(i2, x));
            }
            if i < i2 {
                assert(!m.matches_value(i, x));
            }
        },
    }
}

/// The enumeration-to-integer conversion: the catch-all variant hands back
/// its captured payload verbatim; every other variant maps to its canonical
/// value.
pub fn to_integer(m: &ResolvedMapping, v: &EnumValue) -> (r: i128)
    requires
        m.wf(),
        m.value_wf(*v),
    ensures
        r as int == m.spec_to_integer(*v),
        m.underlying.in_range(r as int),
{
    let rv = &m.variants[v.variant];
    if rv.is_catch_all {
        match v.payload {
            Some(p) => p,
            None => unreached(),
        }
    } else {
        rv.canonical
    }
}

/// The total integer-to-enumeration conversion.  Legal when the schema is
/// naturally exhaustive or has a default or catch-all variant: the matching
/// variant, else the default variant, else the catch-all variant capturing
/// the raw input.
pub fn from_integer_total(m: &ResolvedMapping, x: i128) -> (r: EnumValue)
    requires
        m.wf(),
        m.supports_total_spec(),
        m.underlying.in_range(x as int),
    ensures
        r == m.spec_from_total(x as int),
        m.value_wf(r),
{
    proof {
        lemma_lookup_from(*m, x as int, 0);
    }
    let r = match find_match(m, x) {
        Some(i) => {
            if m.variants[i].is_catch_all {
                EnumValue::caught(i, x)
            } else {
                EnumValue::unit(i)
            }
        },
        None => {
            match m.default_variant {
                Some(d) => EnumValue::unit(d),
                None => match m.catch_all_variant {
                    Some(c) => EnumValue::caught(c, x),
                    None => {
                        // Naturally exhaustive: every value of the type is
                        // claimed by some variant.
                        proof {
                            assert(m.is_naturally_exhaustive);
                            let i = choose|i: int|
                                0 <= i < m.variants@.len() && #[trigger] m.matches_value(
                                    i,
                                    x as int,
                                );
                            assert(false);
                        }
                        unreached()
                    },
                },
            }
        },
    };
    proof {
        lemma_from_total_value_wf(*m, x as int);
    }
    r
}

/// The value of the total conversion is well-formed.
proof fn lemma_from_total_value_wf(m: ResolvedMapping, x: int)
    requires
        m.wf(),
        m.underlying.in_range(x),
        m.spec_lookup(x) is Some || m.default_variant is Some || m.catch_all_variant is Some
            || m.is_naturally_exhaustive,
    ensures
        m.value_wf(m.spec_from_total(x)),
{
    broadcast use vstd::std_specs::vec::axiom_spec_len;

    assert(m.variants.len() <= usize::MAX);
    lemma_lookup_from(m, x, 0);
    match m.spec_lookup(x) {
        Some(i) => {
            if m.variants@[i].is_catch_all {
                lemma_lookup_unique(m, x, i);
            }
        },
        None => {
            match m.default_variant {
                Some(d) => {},
                None => {
                    match m.catch_all_variant {
                        Some(c) => {
                            assert(m.variants@[c as int].is_catch_all);
                        },
                        None => {
                            assert(m.is_naturally_exhaustive);
                            let i = choose|i: int|
                                0 <= i < m.variants@.len() && #[trigger] m.matches_value(i, x);
                            assert(false);
                        },
                    }
                },
            }
        },
    }
}

/// The fallible integer-to-enumeration conversion.  Always legal: the
/// matching variant, else the default variant, else the catch-all variant,
/// else an error carrying the raw unmatched integer.  It succeeds exactly on
/// the claimed values whenever neither fallback exists, and on every input
/// otherwise, agreeing with the total conversion.
pub fn from_integer_fallible(m: &ResolvedMapping, x: i128) -> (r: Result<
    EnumValue,
    TryFromPrimitiveError<i128>,
>)
    requires
        m.wf(),
        m.underlying.in_range(x as int),
    ensures
        r is Ok <==> (m.spec_lookup(x as int) is Some || m.default_variant is Some
            || m.catch_all_variant is Some),
        r matches Ok(v) ==> v == m.spec_from_total(x as int) && m.value_wf(v),
        r matches Err(e) ==> e.number == x && m.spec_lookup(x as int) is None
            && m.default_variant is None && m.catch_all_variant is None,
{
    match find_match(m, x) {
        Some(i) => {
            proof {
                lemma_from_total_value_wf(*m, x as int);
            }
            if m.variants[i].is_catch_all {
                Ok(EnumValue::caught(i, x))
            } else {
                Ok(EnumValue::unit(i))
            }
        },
        None => {
            match m.default_variant {
                Some(d) => {
                    proof {
                        lemma_from_total_value_wf(*m, x as int);
                    }
                    Ok(EnumValue::unit(d))
                },
                None => match m.catch_all_variant {
                    Some(c) => {
                        proof {
                            lemma_from_total_value_wf(*m, x as int);
                        }
                        Ok(EnumValue::caught(c, x))
                    },
                    None => Err(TryFromPrimitiveError { number: x }),
                },
            }
        },
    }
}

/// The unchecked integer-to-enumeration conversion.  Legal only for a schema
/// with no default, no catch-all and no alternative values; the caller must
/// guarantee that `x` is some variant's canonical value — the reinterpreting
/// body this models performs no validation.
pub fn from_integer_unchecked(m: &ResolvedMapping, x: i128) -> (r: EnumValue)
    requires
        m.wf(),
        m.canonical_only(),
        exists|i: int| 0 <= i < m.variants@.len() && #[trigger] m.canon_of(i) == x as int,
    ensures
        r == m.spec_from_total(x as int),
        r.payload is None,
        m.canon_of(r.variant as int) == x as int,
{
    proof {
        let i = choose|i: int| 0 <= i < m.variants@.len() && #[trigger] m.canon_of(i) == x as int;
        lemma_lookup_unique(*m, x as int, i);
    }
    match find_match(m, x) {
        Some(i) => EnumValue::unit(i),
        None => unreached(),
    }
}

/// The default-value selection.  Legal only when a variant carries
/// `default`: that variant, without payload.
pub fn default_value(m: &ResolvedMapping) -> (r: EnumValue)
    requires
        m.wf(),
        m.default_variant is Some,
    ensures
        r == EnumValue::unit_spec(m.default_variant->0 as int),
        m.value_wf(r),
{
    match m.default_variant {
        Some(d) => EnumValue::unit(d),
        None => unreached(),
    }
}

/// Alias law: every value claimed by one variant — its canonical value and
/// each of its alternatives alike — converts to that variant, while the
/// conversion back always yields the canonical value, never an alternative.
pub proof fn lemma_alias_values_agree(m: ResolvedMapping, i: int, x: int, y: int)
    requires
        m.wf(),
        0 <= i < m.variants@.len(),
        !m.variants@[i].is_catch_all,
        m.matches_value(i, x),
        m.matches_value(i, y),
    ensures
        m.spec_from_total(x) == m.spec_from_total(y),
        m.spec_from_total(x) == EnumValue::unit_spec(i),
        m.spec_to_integer(m.spec_from_total(x)) == m.canon_of(i),
{
    broadcast use vstd::std_specs::vec::axiom_spec_len;

    assert(m.variants.len() <= usize::MAX);
    lemma_lookup_unique(m, x, i);
    lemma_lookup_unique(m, y, i);
}

/// Default fallback law: with a default variant, an unmatched input — any
/// unmatched input, however far from the declared values — converts to the
/// default variant, without payload.
pub proof fn lemma_default_fallback(m: ResolvedMapping, x: int)
    requires
        m.wf(),
        m.default_variant is Some,
        m.spec_lookup(x) is None,
    ensures
        m.spec_from_total(x) == EnumValue::unit_spec(m.default_variant->0 as int),
{
}

/// Catch-all payload identity: whenever the total conversion produces a
/// catch-all value, the captured payload is the raw input itself, so
/// converting back returns the input unchanged.
pub proof fn lemma_catch_all_payload_identity(m: ResolvedMapping, x: int)
    requires
        m.wf(),
        m.variants@.len() > 0,
        m.underlying.in_range(x),
        m.variants@[m.spec_from_total(x).variant as int].is_catch_all,
    ensures
        m.spec_from_total(x).payload == Some(x as i128),
        m.spec_to_integer(m.spec_from_total(x)) == x,
{
    broadcast use vstd::std_specs::vec::axiom_spec_len;

    assert(m.variants.len() <= usize::MAX);
    lemma_lookup_from(m, x, 0);
    match m.spec_lookup(x) {
        Some(i) => {
            if !m.variants@[i].is_catch_all {
                assert(false);
            }
        },
        None => {
            match m.default_variant {
                Some(d) => {
                    assert(!m.variants@[d as int].is_catch_all);
                    assert(false);
                },
                None => {
                    match m.catch_all_variant {
                        Some(_) => {},
                        None => {
                            assert(!m.variants@[0].is_catch_all);
                            assert(false);
                        },
                    }
                },
            }
        },
    }
}

/// The enumeration-to-integer conversion is injective: two distinct
/// well-formed values never map to the same integer.  In particular a
/// catch-all value's payload never coincides with another variant's
/// canonical value.
pub proof fn lemma_to_integer_injective(m: ResolvedMapping, v1: EnumValue, v2: EnumValue)
    requires
        m.wf(),
        m.value_wf(v1),
        m.value_wf(v2),
        v1 != v2,
    ensures
        m.spec_to_integer(v1) != m.spec_to_integer(v2),
{
    broadcast use vstd::std_specs::vec::axiom_spec_len;

    assert(m.variants.len() <= usize::MAX);
    let i1 = v1.variant as int;
    let i2 = v2.variant as int;
    if m.variants@[i1].is_catch_all && m.variants@[i2].is_catch_all {
        // One catch-all variant: the values differ in their payloads.
        assert(i1 == i2);
    } else if !m.variants@[i1].is_catch_all && !m.variants@[i2].is_catch_all {
        // Unit values of distinct variants have distinct canonical values.
        assert(i1 != i2);
    } else if m.variants@[i1].is_catch_all {
        lemma_catch_all_payload_avoids_canonicals(m, v1, i2);
    } else {
        lemma_catch_all_payload_avoids_canonicals(m, v2, i1);
    }
}

/// A well-formed catch-all value's payload differs from the canonical value
/// of every other variant.
proof fn lemma_catch_all_payload_avoids_canonicals(m: ResolvedMapping, v: EnumValue, j: int)
    requires
        m.wf(),
        m.value_wf(v),
        m.variants@[v.variant as int].is_catch_all,
        0 <= j < m.variants@.len(),
        j != v.variant as int,
        !m.variants@[j].is_catch_all,
    ensures
        v.payload->0 as int != m.canon_of(j),
{
    let p = v.payload->0 as int;
    if p == m.canon_of(j) {
        assert(m.matches_value(j, p));
        lemma_lookup_unique(m, p, j);
        assert(m.spec_lookup(p) == Some(j));
        assert(false);
    }
}

/// Round trip: over any schema that admits the total conversion, converting
/// a well-formed enumeration value to its integer and back yields the same
/// value.  The one exception is a catch-all value whose captured payload
/// matches no variant while a default variant also exists: the default
/// variant then absorbs the payload.
pub proof fn lemma_round_trip(m: ResolvedMapping, v: EnumValue)
    requires
        m.wf(),
        m.supports_total_spec(),
        m.value_wf(v),
        (m.variants@[v.variant as int].is_catch_all && m.spec_lookup(v.payload->0 as int) is None)
            ==> m.default_variant is None,
    ensures
        m.spec_from_total(m.spec_to_integer(v)) == v,
{
    let i = v.variant as int;
    if m.variants@[i].is_catch_all {
        let p = v.payload->0 as int;
        assert(m.spec_to_integer(v) == p);
        match m.spec_lookup(p) {
            Some(i2) => {
                assert(i2 == i);
                assert(m.spec_from_total(p) == EnumValue::caught_spec(i, p));
            },
            None => {
                match m.catch_all_variant {
                    Some(c) => {
                        assert(c as int == i);
                        assert(m.spec_from_total(p) == EnumValue::caught_spec(i, p));
                    },
                    None => {
                        assert(false);
                    },
                }
            },
        }
    } else {
        let x = m.canon_of(i);
        assert(m.matches_value(i, x));
        lemma_lookup_unique(m, x, i);
        assert(m.spec_from_total(x) == EnumValue::unit_spec(i));
    }
}

} // verus!

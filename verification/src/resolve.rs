//! The discriminant resolver: computes every variant's canonical value,
//! expands alternative values, and rejects ill-formed schemas.
//!
//! Resolution walks the variants strictly in declaration order.  A running
//! sequence of already-claimed values detects collisions; the first repeated
//! value, in processing order, is reported with the two variants that own it.
//! After the values are assigned, modifier exclusivity, the catch-all payload
//! shape, and the custom error-type declarations are validated.

use vstd::prelude::*;
use vstd::seq_lib::*;
use vstd::multiset::Multiset;
use crate::schema::{EnumSchema, ErrorTypeDecl, IntegerType, PayloadShape};

verus! {

/// A structural schema error: the whole enumeration is ill-formed.
#[derive(Clone, Debug, PartialEq, Eq)]
pub enum SchemaError {
    /// Two variants claim the same integer value (canonically or through an
    /// alternative).  `first_variant` declared the value first.
    DiscriminantCollision {
        first_variant: String,
        second_variant: String,
        value: i128,
        loc: Option<u64>,
    },
    /// A variant repeats a modifier another variant already carries, or
    /// carries both `default` and `catch_all`.
    ConflictingModifiers { variant: String, loc: Option<u64> },
    /// A catch-all variant without the single integer payload field, or a
    /// payload field on a variant that is not the catch-all.
    MalformedCatchAll { variant: String, loc: Option<u64> },
    /// The total conversion (or the default-value selection) was requested of
    /// a schema with no default variant, no catch-all variant, and no
    /// naturally exhaustive value coverage.
    MissingFallback,
    /// More than one custom error-type declaration.
    ConflictingErrorType { loc: Option<u64> },
}

/// One resolved variant: its canonical value and its alternative values,
/// sorted ascending.
#[derive(Clone, Debug)]
pub struct ResolvedVariant {
    pub name: String,
    pub canonical: i128,
    /// Alternative values of this variant, sorted ascending; disjoint from
    /// every canonical value and from every other variant's alternatives.
    pub aliases: Vec<i128>,
    pub is_default: bool,
    pub is_catch_all: bool,
    pub payload: PayloadShape,
}

/// The validated value-to-variant mapping of one enumeration.
#[derive(Clone, Debug)]
pub struct ResolvedMapping {
    pub enum_name: String,
    pub underlying: IntegerType,
    pub variants: Vec<ResolvedVariant>,
    /// Whether the declared values cover every value of the underlying type.
    pub is_naturally_exhaustive: bool,
    /// The index of the variant carrying `default`, if any.
    pub default_variant: Option<usize>,
    /// The index of the variant carrying `catch_all`, if any.
    pub catch_all_variant: Option<usize>,
    /// The custom error type of the fallible conversion, if one was declared.
    pub error_type: Option<ErrorTypeDecl>,
}

/// The integers of a sequence of machine values.
pub open spec fn ints_of(q: Seq<i128>) -> Seq<int> {
    q.map_values(|v: i128| v as int)
}

/// The canonical value of variant `i`: its explicit value if declared, else
/// the previous variant's canonical value plus one, wrapped to the underlying
/// type's range (zero for the first variant).
pub open spec fn canon(s: EnumSchema, i: int) -> int
    decreases i,
{
    match s.variants@[i].explicit_value {
        Some(v) => v as int,
        None => if i <= 0 {
            0
        } else {
            s.underlying.wrapping_inc_spec(canon(s, i - 1))
        },
    }
}

/// The alternative values of variant `i`, in declaration order.
pub open spec fn alt_vals(s: EnumSchema, i: int) -> Seq<int> {
    ints_of(s.variants@[i].alternatives@)
}

/// Every value claimed by variant `i`: the canonical value, then the
/// alternatives in declaration order.
pub open spec fn var_values(s: EnumSchema, i: int) -> Seq<int> {
    seq![canon(s, i)] + alt_vals(s, i)
}

/// The values claimed by the first `i` variants, in processing order.
pub open spec fn flat_values(s: EnumSchema, i: int) -> Seq<int>
    decreases i,
{
    if i <= 0 {
        Seq::empty()
    } else {
        flat_values(s, i - 1) + var_values(s, i - 1)
    }
}

/// The variant index owning each position of `flat_values`.
pub open spec fn flat_owners(s: EnumSchema, i: int) -> Seq<int>
    decreases i,
{
    if i <= 0 {
        Seq::empty()
    } else {
        flat_owners(s, i - 1) + Seq::new(var_values(s, i - 1).len(), |k: int| i - 1)
    }
}

/// All values claimed by the schema, in processing order.
pub open spec fn all_values(s: EnumSchema) -> Seq<int> {
    flat_values(s, s.variants@.len() as int)
}

/// The owner of each position of `all_values`.
pub open spec fn all_owners(s: EnumSchema) -> Seq<int> {
    flat_owners(s, s.variants@.len() as int)
}

/// Whether some value is claimed twice.
pub open spec fn has_value_collision(s: EnumSchema) -> bool {
    !all_values(s).no_duplicates()
}

/// Position `k` is the first, in processing order, whose value was already
/// claimed.
pub open spec fn is_first_dup(s: EnumSchema, k: int) -> bool {
    let q = all_values(s);
    &&& 0 <= k < q.len()
    &&& q.subrange(0, k).contains(q[k])
    &&& forall|k2: int| 0 <= k2 < k ==> !q.subrange(0, k2).contains(#[trigger] q[k2])
}

/// Position `j` is the first occurrence of the value at position `k`.
pub open spec fn is_first_occurrence(s: EnumSchema, j: int, k: int) -> bool {
    let q = all_values(s);
    &&& 0 <= j < k < q.len()
    &&& q[j] == q[k]
    &&& forall|j2: int| 0 <= j2 < j ==> q[j2] != q[k]
}

/// Variant `i` repeats a modifier, or combines `default` with `catch_all`.
pub open spec fn mod_conflict_at(s: EnumSchema, i: int) -> bool {
    let v = s.variants@[i];
    ||| (v.is_default && v.is_catch_all)
    ||| (v.is_default && exists|j: int| 0 <= j < i && (#[trigger] s.variants@[j]).is_default)
    ||| (v.is_catch_all && exists|j: int| 0 <= j < i && (#[trigger] s.variants@[j]).is_catch_all)
}

/// Variant `i` has the wrong payload shape for its modifiers.
pub open spec fn payload_malformed_at(s: EnumSchema, i: int) -> bool {
    let v = s.variants@[i];
    ||| (v.is_catch_all && v.payload != PayloadShape::SingleIntegerField)
    ||| (!v.is_catch_all && v.payload != PayloadShape::Unit)
}

/// Variant `i` fails the modifier validation.  Conflicts are detected before
/// payload-shape faults on the same variant.
pub open spec fn modifier_error_at(s: EnumSchema, i: int) -> bool {
    mod_conflict_at(s, i) || payload_malformed_at(s, i)
}

pub open spec fn has_modifier_error(s: EnumSchema) -> bool {
    exists|i: int| 0 <= i < s.variants@.len() && #[trigger] modifier_error_at(s, i)
}

/// Variant `i` is the first, in declaration order, to fail the modifier
/// validation.
pub open spec fn is_first_modifier_error(s: EnumSchema, i: int) -> bool {
    &&& 0 <= i < s.variants@.len()
    &&& modifier_error_at(s, i)
    &&& forall|i2: int| 0 <= i2 < i ==> !#[trigger] modifier_error_at(s, i2)
}

/// Whether resolution succeeds: no value is claimed twice, the modifiers are
/// consistent, and at most one custom error type is declared.
pub open spec fn spec_resolvable(s: EnumSchema) -> bool {
    &&& !has_value_collision(s)
    &&& !has_modifier_error(s)
    &&& s.error_decls@.len() <= 1
}

/// What the error returned for an unresolvable schema says: the first fault
/// in processing order, with value collisions detected before modifier
/// faults, and those before a conflicting error-type declaration.
pub open spec fn spec_error_matches(s: EnumSchema, e: SchemaError) -> bool {
    if has_value_collision(s) {
        &&& e is DiscriminantCollision
        &&& exists|k: int, j: int|
            {
                &&& #[trigger] is_first_dup(s, k)
                &&& #[trigger] is_first_occurrence(s, j, k)
                &&& e->DiscriminantCollision_value as int == all_values(s)[k]
                &&& e->DiscriminantCollision_second_variant@ == s.variants@[all_owners(s)[k]].name@
                &&& e->DiscriminantCollision_first_variant@ == s.variants@[all_owners(s)[j]].name@
                &&& e->DiscriminantCollision_loc == s.variants@[all_owners(s)[k]].loc
            }
    } else if has_modifier_error(s) {
        exists|i: int|
            {
                &&& #[trigger] is_first_modifier_error(s, i)
                &&& if mod_conflict_at(s, i) {
                    &&& e is ConflictingModifiers
                    &&& e->ConflictingModifiers_variant@ == s.variants@[i].name@
                    &&& e->ConflictingModifiers_loc == s.variants@[i].loc
                } else {
                    &&& e is MalformedCatchAll
                    &&& e->MalformedCatchAll_variant@ == s.variants@[i].name@
                    &&& e->MalformedCatchAll_loc == s.variants@[i].loc
                }
            }
    } else if s.error_decls@.len() > 1 {
        e is ConflictingErrorType && e->ConflictingErrorType_loc == s.error_decls@[1].loc
    } else {
        false
    }
}

/// One resolved variant agrees with its declaration: same name, the canonical
/// value of the increment rule, the same modifiers, and aliases holding
/// exactly the declared alternative values, sorted ascending.
pub open spec fn variant_resolved(s: EnumSchema, m: ResolvedMapping, i: int) -> bool {
    let rv = m.variants@[i];
    let sv = s.variants@[i];
    &&& rv.name@ == sv.name@
    &&& rv.canonical as int == canon(s, i)
    &&& rv.is_default == sv.is_default
    &&& rv.is_catch_all == sv.is_catch_all
    &&& rv.payload == sv.payload
    &&& rv.aliases@.len() == sv.alternatives@.len()
    &&& forall|x: int| ints_of(rv.aliases@).contains(x) <==> alt_vals(s, i).contains(x)
}

/// The resolved mapping agrees with the schema.
pub open spec fn spec_mapping_matches(s: EnumSchema, m: ResolvedMapping) -> bool {
    &&& m.enum_name@ == s.name@
    &&& m.underlying == s.underlying
    &&& m.variants@.len() == s.variants@.len()
    &&& forall|i: int| 0 <= i < s.variants@.len() ==> #[trigger] variant_resolved(s, m, i)
    &&& match m.error_type {
        Some(d) => {
            &&& s.error_decls@.len() == 1
            &&& d.name@ == s.error_decls@[0].name@
            &&& d.constructor@ == s.error_decls@[0].constructor@
            &&& d.loc == s.error_decls@[0].loc
        },
        None => s.error_decls@.len() == 0,
    }
}

impl ResolvedMapping {
    /// The alternative values of variant `i`, as integers.
    pub open spec fn alias_vals(self, i: int) -> Seq<int> {
        ints_of(self.variants@[i].aliases@)
    }

    /// The canonical value of variant `i`, as an integer.
    pub open spec fn canon_of(self, i: int) -> int {
        self.variants@[i].canonical as int
    }

    /// Whether variant `i` claims the value `x`, canonically or through an
    /// alternative.
    pub open spec fn matches_value(self, i: int, x: int) -> bool {
        self.canon_of(i) == x || self.alias_vals(i).contains(x)
    }

    /// The number of values claimed by the first `i` variants.
    pub open spec fn num_values_upto(self, i: int) -> int
        decreases i,
    {
        if i <= 0 {
            0
        } else {
            self.num_values_upto(i - 1) + 1 + self.variants@[i - 1].aliases@.len()
        }
    }

    /// The number of values claimed by the whole mapping; they are pairwise
    /// distinct.
    pub open spec fn num_values(self) -> int {
        self.num_values_upto(self.variants@.len() as int)
    }

    /// Well-formedness: every claimed value lies in the underlying type's
    /// range, the claims of distinct variants are disjoint, each alias list
    /// is strictly ascending, the fallback markers are consistent, and the
    /// exhaustiveness flag means what it says.
    pub open spec fn wf(self) -> bool {
        let n = self.variants@.len() as int;
        &&& forall|i: int| 0 <= i < n ==> self.underlying.in_range(#[trigger] self.canon_of(i))
        &&& forall|i: int, k: int|
            0 <= i < n && 0 <= k < self.variants@[i].aliases@.len()
                ==> self.underlying.in_range(#[trigger] self.variants@[i].aliases@[k] as int)
        &&& forall|i: int, k1: int, k2: int|
            0 <= i < n && 0 <= k1 < k2 < self.variants@[i].aliases@.len()
                ==> #[trigger] self.variants@[i].aliases@[k1] < #[trigger] self.variants@[i].aliases@[k2]
        &&& forall|i: int| 0 <= i < n ==> !#[trigger] self.alias_vals(i).contains(self.canon_of(i))
        &&& forall|i: int, j: int|
            0 <= i < n && 0 <= j < n && i != j
                ==> #[trigger] self.canon_of(i) != #[trigger] self.canon_of(j)
        &&& forall|i: int, j: int|
            0 <= i < n && 0 <= j < n && i != j
                ==> !#[trigger] self.alias_vals(j).contains(self.canon_of(i))
        &&& forall|i: int, j: int, x: int|
            0 <= i < n && 0 <= j < n && i != j
                ==> !(#[trigger] self.alias_vals(i).contains(x)
                    && #[trigger] self.alias_vals(j).contains(x))
        &&& match self.default_variant {
            Some(d) => 0 <= d < n && self.variants@[d as int].is_default,
            None => forall|i: int| 0 <= i < n ==> !(#[trigger] self.variants@[i]).is_default,
        }
        &&& match self.catch_all_variant {
            Some(c) => 0 <= c < n && self.variants@[c as int].is_catch_all,
            None => forall|i: int| 0 <= i < n ==> !(#[trigger] self.variants@[i]).is_catch_all,
        }
        &&& forall|i: int, j: int|
            0 <= i < n && 0 <= j < n && (#[trigger] self.variants@[i]).is_default
                && (#[trigger] self.variants@[j]).is_default ==> i == j
        &&& forall|i: int, j: int|
            0 <= i < n && 0 <= j < n && (#[trigger] self.variants@[i]).is_catch_all
                && (#[trigger] self.variants@[j]).is_catch_all ==> i == j
        &&& forall|i: int| 0 <= i < n
            ==> !((#[trigger] self.variants@[i]).is_default && self.variants@[i].is_catch_all)
        &&& forall|i: int| 0 <= i < n
            ==> ((#[trigger] self.variants@[i]).payload == PayloadShape::SingleIntegerField
                <==> self.variants@[i].is_catch_all)
        &&& self.is_naturally_exhaustive == (self.num_values() == self.underlying.card_spec())
        &&& self.is_naturally_exhaustive ==> forall|x: int|
            self.underlying.in_range(x)
                ==> exists|i: int| 0 <= i < n && #[trigger] self.matches_value(i, x)
    }

    /// Whether the total integer-to-enumeration conversion is legal for this
    /// mapping: every input either matches, or a fallback absorbs it.
    pub open spec fn supports_total_spec(self) -> bool {
        self.is_naturally_exhaustive || self.default_variant is Some
            || self.catch_all_variant is Some
    }

    /// Whether the total integer-to-enumeration conversion is legal.
    pub fn supports_total(&self) -> (r: bool)
        ensures
            r == self.supports_total_spec(),
    {
        self.is_naturally_exhaustive || self.default_variant.is_some()
            || self.catch_all_variant.is_some()
    }
}

/// The canonical value of a well-formed schema's variant lies in the
/// underlying type's range.
proof fn lemma_canon_in_range(s: EnumSchema, i: int)
    requires
        s.wf(),
        0 <= i < s.variants@.len(),
    ensures
        s.underlying.in_range(canon(s, i)),
    decreases i,
{
    match s.variants@[i].explicit_value {
        Some(_) => {},
        None => {
            if i > 0 {
                lemma_canon_in_range(s, i - 1);
            }
        },
    }
}

proof fn lemma_owners_len(s: EnumSchema, i: int)
    ensures
        flat_owners(s, i).len() == flat_values(s, i).len(),
    decreases i,
{
    if i > 0 {
        lemma_owners_len(s, i - 1);
    }
}

/// Every flat position holds a value of its owner, and owners are in range.
proof fn lemma_flat_chars(s: EnumSchema, j: int)
    requires
        0 <= j,
    ensures
        flat_owners(s, j).len() == flat_values(s, j).len(),
        forall|k: int| 0 <= k < flat_values(s, j).len() ==> {
            &&& 0 <= #[trigger] flat_owners(s, j)[k] < j
            &&& var_values(s, flat_owners(s, j)[k]).contains(flat_values(s, j)[k])
        },
    decreases j,
{
    lemma_owners_len(s, j);
    if j > 0 {
        lemma_flat_chars(s, j - 1);
        let prev = flat_values(s, j - 1);
        let vv = var_values(s, j - 1);
        assert forall|k: int| 0 <= k < flat_values(s, j).len() implies {
            &&& 0 <= #[trigger] flat_owners(s, j)[k] < j
            &&& var_values(s, flat_owners(s, j)[k]).contains(flat_values(s, j)[k])
        } by {
            if k < prev.len() {
                assert(flat_owners(s, j)[k] == flat_owners(s, j - 1)[k]);
                assert(flat_values(s, j)[k] == flat_values(s, j - 1)[k]);
            } else {
                assert(flat_owners(s, j)[k] == j - 1);
                assert(flat_values(s, j)[k] == vv[k - prev.len()]);
                assert(vv.contains(vv[k - prev.len()]));
            }
        }
    }
}

/// Longer flat prefixes extend shorter ones, for values and owners alike.
proof fn lemma_flat_extends(s: EnumSchema, i: int, j: int)
    requires
        0 <= i <= j,
    ensures
        flat_values(s, i).len() <= flat_values(s, j).len(),
        flat_values(s, j).subrange(0, flat_values(s, i).len() as int) == flat_values(s, i),
        flat_owners(s, j).subrange(0, flat_values(s, i).len() as int) == flat_owners(s, i),
        flat_owners(s, i).len() == flat_values(s, i).len(),
        flat_owners(s, j).len() == flat_values(s, j).len(),
    decreases j - i,
{
    lemma_owners_len(s, i);
    lemma_owners_len(s, j);
    if i == j {
        assert(flat_values(s, j).subrange(0, flat_values(s, i).len() as int) =~= flat_values(s, i));
        assert(flat_owners(s, j).subrange(0, flat_values(s, i).len() as int) =~= flat_owners(s, i));
    } else {
        lemma_flat_extends(s, i, j - 1);
        lemma_owners_len(s, j - 1);
        assert(flat_values(s, j).subrange(0, flat_values(s, i).len() as int) =~= flat_values(
            s,
            j - 1,
        ).subrange(0, flat_values(s, i).len() as int));
        assert(flat_owners(s, j).subrange(0, flat_values(s, i).len() as int) =~= flat_owners(
            s,
            j - 1,
        ).subrange(0, flat_values(s, i).len() as int));
    }
}

/// Where slot `slot` of variant `i` sits in the full flat sequence.
proof fn lemma_var_position(s: EnumSchema, i: int, slot: int)
    requires
        0 <= i < s.variants@.len(),
        0 <= slot < var_values(s, i).len(),
    ensures
        flat_values(s, i).len() + slot < all_values(s).len(),
        all_values(s)[flat_values(s, i).len() + slot] == var_values(s, i)[slot],
        all_owners(s)[flat_values(s, i).len() + slot] == i,
{
    let n = s.variants@.len() as int;
    let pos = flat_values(s, i).len() + slot;
    lemma_flat_extends(s, i + 1, n);
    lemma_owners_len(s, i);
    assert(flat_values(s, i + 1)[pos] == var_values(s, i)[slot]);
    assert(flat_owners(s, i + 1)[pos] == i);
    assert(all_values(s)[pos] == flat_values(s, n).subrange(
        0,
        flat_values(s, i + 1).len() as int,
    )[pos]);
    assert(all_owners(s)[pos] == flat_owners(s, n).subrange(
        0,
        flat_values(s, i + 1).len() as int,
    )[pos]);
}

/// Without collisions, the values claimed by distinct variants are disjoint,
/// and no variant claims a value twice.
proof fn lemma_claims_disjoint(s: EnumSchema)
    requires
        !has_value_collision(s),
    ensures
        forall|i: int, j: int, x: int|
            0 <= i < s.variants@.len() && 0 <= j < s.variants@.len() && i != j
                ==> !(#[trigger] var_values(s, i).contains(x)
                    && #[trigger] var_values(s, j).contains(x)),
        forall|i: int| 0 <= i < s.variants@.len() ==> (#[trigger] var_values(s, i)).no_duplicates(),
{
    let q = all_values(s);
    assert forall|i: int, j: int, x: int|
        0 <= i < s.variants@.len() && 0 <= j < s.variants@.len() && i != j implies !(
    #[trigger] var_values(s, i).contains(x) && #[trigger] var_values(s, j).contains(x)) by {
        if var_values(s, i).contains(x) && var_values(s, j).contains(x) {
            let a = choose|a: int| 0 <= a < var_values(s, i).len() && var_values(s, i)[a] == x;
            let b = choose|b: int| 0 <= b < var_values(s, j).len() && var_values(s, j)[b] == x;
            lemma_var_position(s, i, a);
            lemma_var_position(s, j, b);
            let pa = flat_values(s, i).len() + a;
            let pb = flat_values(s, j).len() + b;
            assert(all_owners(s)[pa] == i);
            assert(all_owners(s)[pb] == j);
            assert(pa != pb);
            assert(q[pa] == x && q[pb] == x);
            assert(false);
        }
    }
    assert forall|i: int| 0 <= i < s.variants@.len() implies (#[trigger] var_values(
        s,
        i,
    )).no_duplicates() by {
        assert forall|a: int, b: int|
            0 <= a < b < var_values(s, i).len() implies var_values(s, i)[a] != var_values(
            s,
            i,
        )[b] by {
            lemma_var_position(s, i, a);
            lemma_var_position(s, i, b);
            let pa = flat_values(s, i).len() + a;
            let pb = flat_values(s, i).len() + b;
            assert(pa != pb);
        }
    }
}

/// Two machine-value sequences with equal multisets have the same integer
/// members.
proof fn lemma_ints_membership_equiv(q1: Seq<i128>, q2: Seq<i128>)
    requires
        q1.to_multiset() == q2.to_multiset(),
    ensures
        forall|x: int| ints_of(q1).contains(x) <==> ints_of(q2).contains(x),
{
    q1.to_multiset_ensures();
    q2.to_multiset_ensures();
    assert forall|x: int| ints_of(q1).contains(x) implies ints_of(q2).contains(x) by {
        let k = choose|k: int| 0 <= k < ints_of(q1).len() && ints_of(q1)[k] == x;
        assert(q1.contains(q1[k]));
        assert(q1.to_multiset().count(q1[k]) > 0);
        assert(q2.to_multiset().count(q1[k]) > 0);
        assert(q2.contains(q1[k]));
        let k2 = choose|k2: int| 0 <= k2 < q2.len() && q2[k2] == q1[k];
        assert(ints_of(q2)[k2] == x);
    }
    assert forall|x: int| ints_of(q2).contains(x) implies ints_of(q1).contains(x) by {
        let k = choose|k: int| 0 <= k < ints_of(q2).len() && ints_of(q2)[k] == x;
        assert(q2.contains(q2[k]));
        assert(q2.to_multiset().count(q2[k]) > 0);
        assert(q1.to_multiset().count(q2[k]) > 0);
        assert(q1.contains(q2[k]));
        let k2 = choose|k2: int| 0 <= k2 < q1.len() && q1[k2] == q2[k];
        assert(ints_of(q1)[k2] == x);
    }
}

/// A duplicate-free sequence of `hi - lo + 1` values drawn from `[lo, hi]`
/// visits every value of the interval.
proof fn lemma_full_range_coverage(q: Seq<int>, lo: int, hi: int)
    requires
        q.no_duplicates(),
        forall|k: int| 0 <= k < q.len() ==> lo <= #[trigger] q[k] <= hi,
        q.len() == hi - lo + 1,
    ensures
        forall|x: int| lo <= x <= hi ==> q.contains(x),
{
    broadcast use vstd::set::group_set_axioms;

    let sv = q.to_set();
    q.unique_seq_to_set();
    let range = vstd::set_lib::set_int_range(lo, hi + 1);
    vstd::set_lib::lemma_int_range(lo, hi + 1);
    assert forall|x: int| lo <= x <= hi implies q.contains(x) by {
        if !sv.contains(x) {
            let smaller = range.remove(x);
            assert(sv.subset_of(smaller)) by {
                assert forall|y: int| sv.contains(y) implies smaller.contains(y) by {
                    let k = choose|k: int| 0 <= k < q.len() && q[k] == y;
                }
            }
            vstd::set_lib::lemma_len_subset(sv, smaller);
            assert(false);
        }
    }
}

/// Mapping to integers commutes with appending one value.
proof fn lemma_ints_of_push(q: Seq<i128>, x: i128)
    ensures
        ints_of(q.push(x)) == ints_of(q).push(x as int),
{
    assert(ints_of(q.push(x)) =~= ints_of(q).push(x as int));
}

/// Mapping owners to integers commutes with appending one owner.
proof fn lemma_owner_map_push(q: Seq<usize>, x: usize)
    ensures
        q.push(x).map_values(|o: usize| o as int) == q.map_values(|o: usize| o as int).push(
            x as int,
        ),
{
    assert(q.push(x).map_values(|o: usize| o as int) =~= q.map_values(|o: usize| o as int).push(
        x as int,
    ));
}

/// A value held by no position is no member of the integer image.
proof fn lemma_ints_not_contains(q: Seq<i128>, x: i128)
    requires
        forall|t: int| 0 <= t < q.len() ==> q[t] != x,
    ensures
        !ints_of(q).contains(x as int),
{
    if ints_of(q).contains(x as int) {
        let t = choose|t: int| 0 <= t < ints_of(q).len() && ints_of(q)[t] == x as int;
        assert(q[t] as int == x as int);
        assert(q[t] == x);
    }
}

/// Pushing a fresh value keeps a sequence duplicate-free.
proof fn lemma_no_dup_push(q: Seq<int>, x: int)
    requires
        q.no_duplicates(),
        !q.contains(x),
    ensures
        q.push(x).no_duplicates(),
{
    let p = q.push(x);
    assert forall|a: int, b: int| 0 <= a < b < p.len() implies p[a] != p[b] by {
        if b == q.len() {
            assert(p[a] == q[a]);
            assert(q.contains(q[a]));
        }
    }
}

/// Inserting one value into a sequence inserts it into the multiset.
proof fn lemma_multiset_of_insert(q: Seq<i128>, pos: int, x: i128)
    requires
        0 <= pos <= q.len(),
    ensures
        q.insert(pos, x).to_multiset() == q.to_multiset().insert(x),
{
    let left = q.subrange(0, pos);
    let right = q.subrange(pos, q.len() as int);
    assert(q.insert(pos, x) =~= left + (seq![x] + right));
    assert(q =~= left + right);
    lemma_multiset_commutative(left, seq![x] + right);
    lemma_multiset_commutative(seq![x], right);
    lemma_multiset_commutative(left, right);
    seq![x].to_multiset_ensures();
    assert(seq![x] =~= Seq::empty().push(x));
    Seq::<i128>::empty().to_multiset_ensures();
    assert(seq![x].to_multiset() =~= Multiset::empty().insert(x));
    assert(q.insert(pos, x).to_multiset() =~= q.to_multiset().insert(x));
}

/// Find the first position holding `x`, if any.
fn find_value(vals: &Vec<i128>, x: i128) -> (r: Option<usize>)
    ensures
        match r {
            Some(k) => {
                &&& k < vals@.len()
                &&& vals@[k as int] == x
                &&& forall|k2: int| 0 <= k2 < k ==> vals@[k2] != x
            },
            None => forall|k: int| 0 <= k < vals@.len() ==> vals@[k] != x,
        },
{
    let mut k: usize = 0;
    while k < vals.len()
        invariant
            k <= vals@.len(),
            forall|k2: int| 0 <= k2 < k ==> vals@[k2] != x,
        decreases vals@.len() - k,
    {
        if vals[k] == x {
            return Some(k);
        }
        k += 1;
    }
    None
}

/// Insert each value at its place: the result is sorted ascending and holds
/// the same values.
fn sort_values(input: &Vec<i128>) -> (r: Vec<i128>)
    ensures
        r@.to_multiset() == input@.to_multiset(),
        r@.len() == input@.len(),
        forall|a: int, b: int| 0 <= a < b < r@.len() ==> r@[a] <= r@[b],
{
    let mut out: Vec<i128> = Vec::new();
    let mut i: usize = 0;
    proof {
        assert(input@.subrange(0, 0) =~= Seq::<i128>::empty());
        assert(out@.to_multiset() =~= input@.subrange(0, 0).to_multiset());
    }
    while i < input.len()
        invariant
            i <= input@.len(),
            out@.len() == i,
            out@.to_multiset() == input@.subrange(0, i as int).to_multiset(),
            forall|a: int, b: int| 0 <= a < b < out@.len() ==> out@[a] <= out@[b],
        decreases input@.len() - i,
    {
        let x = input[i];
        let mut pos: usize = 0;
        while pos < out.len() && out[pos] <= x
            invariant
                pos <= out@.len(),
                forall|a: int| 0 <= a < pos ==> out@[a] <= x,
                forall|a: int, b: int| 0 <= a < b < out@.len() ==> out@[a] <= out@[b],
            decreases out@.len() - pos,
        {
            pos += 1;
        }
        let ghost old_out = out@;
        out.insert(pos, x);
        proof {
            assert(out@ =~= old_out.insert(pos as int, x));
            lemma_multiset_of_insert(old_out, pos as int, x);
            input@.subrange(0, i as int).to_multiset_ensures();
            assert(input@.subrange(0, i as int).push(x) =~= input@.subrange(0, i + 1));
            assert(out@.to_multiset() == input@.subrange(0, i + 1).to_multiset());
        }
        i += 1;
    }
    proof {
        assert(input@.subrange(0, input@.len() as int) =~= input@);
    }
    out
}

/// What the main loop records of each finished variant.
spec fn resolved_variant_ok(s: EnumSchema, rv: ResolvedVariant, i: int) -> bool {
    let sv = s.variants@[i];
    &&& rv.name@ == sv.name@
    &&& rv.canonical as int == canon(s, i)
    &&& rv.is_default == sv.is_default
    &&& rv.is_catch_all == sv.is_catch_all
    &&& rv.payload == sv.payload
    &&& rv.aliases@.len() == sv.alternatives@.len()
    &&& rv.aliases@.to_multiset() == sv.alternatives@.to_multiset()
    &&& forall|a: int, b: int|
        0 <= a < b < rv.aliases@.len() ==> #[trigger] rv.aliases@[a] <= #[trigger] rv.aliases@[b]
}

/// The number of values recorded for the first `t` variants equals the
/// length of the flat value sequence.
proof fn lemma_num_values_agree(s: EnumSchema, m: ResolvedMapping, t: int)
    requires
        0 <= t <= s.variants@.len(),
        m.variants@.len() == s.variants@.len(),
        forall|j: int| 0 <= j < s.variants@.len()
            ==> (#[trigger] m.variants@[j]).aliases@.len() == s.variants@[j].alternatives@.len(),
    ensures
        m.num_values_upto(t) == flat_values(s, t).len(),
    decreases t,
{
    if t > 0 {
        lemma_num_values_agree(s, m, t - 1);
    }
}

/// Resolve one schema: compute every canonical value, expand and sort the
/// alternative values, and validate the invariants.
///
/// On success the mapping reproduces the schema's variants with the
/// canonical values of the increment rule (an explicit value where declared,
/// else the previous canonical value plus one, wrapping at the type's
/// maximum); on failure the error is the first fault in processing order.
pub fn resolve(schema: &EnumSchema) -> (r: Result<ResolvedMapping, SchemaError>)
    requires
        schema.wf(),
    ensures
        r is Ok <==> spec_resolvable(*schema),
        r matches Ok(m) ==> spec_mapping_matches(*schema, m) && m.wf(),
        r matches Err(e) ==> spec_error_matches(*schema, e),
{
    let ghost s = *schema;
    let n = schema.variants.len();
    let mut assigned: Vec<i128> = Vec::new();
    let mut owners: Vec<usize> = Vec::new();
    let mut out: Vec<ResolvedVariant> = Vec::new();
    let mut next_implicit: i128 = 0;
    let mut i: usize = 0;
    proof {
        assert(ints_of(assigned@) =~= flat_values(s, 0));
        assert(owners@.map_values(|o: usize| o as int) =~= flat_owners(s, 0));
    }
    while i < n
        invariant
            s == *schema,
            s.wf(),
            n == s.variants@.len(),
            i <= n,
            ints_of(assigned@) == flat_values(s, i as int),
            owners@.map_values(|o: usize| o as int) == flat_owners(s, i as int),
            assigned@.len() == owners@.len(),
            forall|p: int| 0 <= p < owners@.len() ==> #[trigger] owners@[p] < n,
            flat_values(s, i as int).no_duplicates(),
            i > 0 ==> next_implicit as int == s.underlying.wrapping_inc_spec(canon(s, i - 1)),
            i == 0 ==> next_implicit == 0,
            out@.len() == i,
            forall|j: int| 0 <= j < i ==> #[trigger] resolved_variant_ok(s, out@[j], j),
        decreases n - i,
    {
        let v = &schema.variants[i];
        let c: i128 = match v.explicit_value {
            Some(e) => e,
            None => next_implicit,
        };
        proof {
            if i > 0 {
                lemma_canon_in_range(s, i - 1);
            }
            assert(c as int == canon(s, i as int));
            lemma_owners_len(s, i as int);
        }
        // The canonical value, then each alternative in declaration order,
        // is checked against the already-claimed values and claimed itself.
        let ghost base = flat_values(s, i as int).len() as int;
        let ghost vv = var_values(s, i as int);
        if let Some(p) = find_value(&assigned, c) {
            proof {
                assert(ints_of(assigned@) =~= flat_values(s, i as int) + vv.subrange(0, 0));
                assert(vv[0] == c as int);
                lemma_collision_report(s, i as int, 0, p as int, c, assigned@, owners@);
            }
            let first_variant = schema.variants[owners[p]].name.clone();
            let second_variant = v.name.clone();
            return Err(SchemaError::DiscriminantCollision {
                first_variant,
                second_variant,
                value: c,
                loc: v.loc,
            });
        }
        let ghost a0 = assigned@;
        let ghost o0 = owners@;
        assigned.push(c);
        owners.push(i);
        proof {
            lemma_ints_of_push(a0, c);
            lemma_owner_map_push(o0, i);
            assert(vv[0] == c as int);
            assert(ints_of(assigned@) =~= flat_values(s, i as int) + vv.subrange(0, 1));
            assert(owners@.map_values(|o: usize| o as int) =~= flat_owners(s, i as int)
                + Seq::new(1, |t: int| i as int));
            lemma_ints_not_contains(a0, c);
            lemma_no_dup_push(ints_of(a0), c as int);
            assert(ints_of(assigned@) == ints_of(a0).push(c as int));
        }
        let alen = v.alternatives.len();
        let mut k: usize = 0;
        while k < alen
            invariant
                s == *schema,
                s.wf(),
                n == s.variants@.len(),
                i < n,
                v == s.variants@[i as int],
                c as int == canon(s, i as int),
                alen == v.alternatives@.len(),
                k <= alen,
                base == flat_values(s, i as int).len(),
                vv == var_values(s, i as int),
                vv.len() == alen + 1,
                ints_of(assigned@) == flat_values(s, i as int) + vv.subrange(0, k as int + 1),
                owners@.map_values(|o: usize| o as int) == flat_owners(s, i as int) + Seq::new(
                    (k + 1) as nat,
                    |t: int| i as int,
                ),
                assigned@.len() == owners@.len(),
                forall|p: int| 0 <= p < owners@.len() ==> #[trigger] owners@[p] < n,
                ints_of(assigned@).no_duplicates(),
            decreases alen - k,
        {
            let x = v.alternatives[k];
            proof {
                assert(vv[k as int + 1] == x as int);
            }
            if let Some(p) = find_value(&assigned, x) {
                proof {
                    lemma_collision_report(
                        s,
                        i as int,
                        k as int + 1,
                        p as int,
                        x,
                        assigned@,
                        owners@,
                    );
                }
                let first_variant = schema.variants[owners[p]].name.clone();
                let second_variant = v.name.clone();
                return Err(SchemaError::DiscriminantCollision {
                    first_variant,
                    second_variant,
                    value: x,
                    loc: v.loc,
                });
            }
            let ghost a1 = assigned@;
            let ghost o1 = owners@;
            assigned.push(x);
            owners.push(i);
            proof {
                lemma_ints_of_push(a1, x);
                lemma_owner_map_push(o1, i);
                assert(vv.subrange(0, k as int + 1).push(x as int) =~= vv.subrange(
                    0,
                    k as int + 2,
                ));
                assert(ints_of(assigned@) =~= flat_values(s, i as int) + vv.subrange(
                    0,
                    k as int + 2,
                ));
                assert(Seq::new((k + 1) as nat, |t: int| i as int).push(i as int) =~= Seq::new(
                    (k + 2) as nat,
                    |t: int| i as int,
                ));
                assert(owners@.map_values(|o: usize| o as int) =~= flat_owners(s, i as int)
                    + Seq::new((k + 2) as nat, |t: int| i as int));
                lemma_ints_not_contains(a1, x);
                lemma_no_dup_push(ints_of(a1), x as int);
            }
            k += 1;
        }
        let aliases = sort_values(&v.alternatives);
        proof {
            assert(vv.subrange(0, alen as int + 1) =~= vv);
            assert(ints_of(assigned@) =~= flat_values(s, (i + 1) as int));
            assert(owners@.map_values(|o: usize| o as int) =~= flat_owners(s, (i + 1) as int));
        }
        out.push(
            ResolvedVariant {
                name: v.name.clone(),
                canonical: c,
                aliases,
                is_default: v.is_default,
                is_catch_all: v.is_catch_all,
                payload: v.payload,
            },
        );
        next_implicit = schema.underlying.wrapping_inc(c);
        i += 1;
    }
    proof {
        assert(!has_value_collision(s));
    }
    // Modifier exclusivity and the catch-all payload shape, in declaration
    // order.
    let mut default_idx: Option<usize> = None;
    let mut catch_idx: Option<usize> = None;
    let mut j: usize = 0;
    while j < n
        invariant
            s == *schema,
            n == s.variants@.len(),
            j <= n,
            !has_value_collision(s),
            forall|j2: int| 0 <= j2 < j ==> !#[trigger] modifier_error_at(s, j2),
            match default_idx {
                Some(d) => 0 <= d < j && s.variants@[d as int].is_default,
                None => forall|j2: int| 0 <= j2 < j ==> !(#[trigger] s.variants@[j2]).is_default,
            },
            match catch_idx {
                Some(cc) => 0 <= cc < j && s.variants@[cc as int].is_catch_all,
                None => forall|j2: int| 0 <= j2 < j ==> !(#[trigger] s.variants@[j2]).is_catch_all,
            },
        decreases n - j,
    {
        let v = &schema.variants[j];
        let conflict = (v.is_default && v.is_catch_all) || (v.is_default && default_idx.is_some())
            || (v.is_catch_all && catch_idx.is_some());
        if conflict {
            proof {
                assert(mod_conflict_at(s, j as int));
                assert(is_first_modifier_error(s, j as int));
            }
            return Err(SchemaError::ConflictingModifiers { variant: v.name.clone(), loc: v.loc });
        }
        let payload_ok = if v.is_catch_all {
            matches!(v.payload, PayloadShape::SingleIntegerField)
        } else {
            matches!(v.payload, PayloadShape::Unit)
        };
        if !payload_ok {
            proof {
                assert(payload_malformed_at(s, j as int));
                assert(is_first_modifier_error(s, j as int));
            }
            return Err(SchemaError::MalformedCatchAll { variant: v.name.clone(), loc: v.loc });
        }
        if v.is_default {
            default_idx = Some(j);
        }
        if v.is_catch_all {
            catch_idx = Some(j);
        }
        j += 1;
    }
    proof {
        assert(!has_modifier_error(s));
    }
    // At most one custom error type.
    if schema.error_decls.len() > 1 {
        return Err(SchemaError::ConflictingErrorType { loc: schema.error_decls[1].loc });
    }
    let error_type = if schema.error_decls.len() == 1 {
        let d = &schema.error_decls[0];
        Some(ErrorTypeDecl { name: d.name.clone(), constructor: d.constructor.clone(), loc: d.loc })
    } else {
        None
    };
    // Natural exhaustiveness: the claimed values, which are pairwise
    // distinct, cover the whole range exactly when there are as many of them
    // as the type has values.
    let card = schema.underlying.card();
    let is_naturally_exhaustive = (assigned.len() as u128) == card;
    let m = ResolvedMapping {
        enum_name: schema.name.clone(),
        underlying: schema.underlying,
        variants: out,
        is_naturally_exhaustive,
        default_variant: default_idx,
        catch_all_variant: catch_idx,
        error_type,
    };
    proof {
        lemma_resolution_sound(s, m);
    }
    Ok(m)
}

/// The increment rule, read off the resolved mapping: every canonical value
/// is the declared explicit value where one was given, and otherwise the
/// previous variant's canonical value plus one, wrapped to the underlying
/// type's range — zero for the first variant.
pub proof fn lemma_canonical_rule(s: EnumSchema, m: ResolvedMapping, i: int)
    requires
        spec_mapping_matches(s, m),
        0 <= i < s.variants@.len(),
    ensures
        m.canon_of(i) == match s.variants@[i].explicit_value {
            Some(v) => v as int,
            None => if i == 0 {
                0
            } else {
                s.underlying.wrapping_inc_spec(m.canon_of(i - 1))
            },
        },
{
    assert(variant_resolved(s, m, i));
    if i > 0 {
        assert(variant_resolved(s, m, i - 1));
    }
}

/// At the moment a collision is found, it is the first duplicate of the full
/// flat sequence, and the scan hit the first occurrence of its value.
proof fn lemma_collision_report(
    s: EnumSchema,
    i: int,
    slot: int,
    p: int,
    xv: i128,
    assigned: Seq<i128>,
    owners: Seq<usize>,
)
    requires
        0 <= i < s.variants@.len(),
        0 <= slot < var_values(s, i).len(),
        var_values(s, i)[slot] == xv as int,
        ints_of(assigned) == flat_values(s, i) + var_values(s, i).subrange(0, slot),
        owners.map_values(|o: usize| o as int) == flat_owners(s, i) + Seq::new(
            slot as nat,
            |k: int| i,
        ),
        assigned.len() == owners.len(),
        ints_of(assigned).no_duplicates(),
        0 <= p < assigned.len(),
        assigned[p] == xv,
        forall|k2: int| 0 <= k2 < p ==> assigned[k2] != xv,
    ensures
        has_value_collision(s),
        is_first_dup(s, flat_values(s, i).len() + slot),
        is_first_occurrence(s, p, flat_values(s, i).len() + slot),
        all_values(s)[flat_values(s, i).len() + slot] == var_values(s, i)[slot],
        all_owners(s)[flat_values(s, i).len() + slot] == i,
        all_owners(s)[p] == owners[p] as int,
        owners[p] < s.variants@.len(),
{
    let q = all_values(s);
    let base = flat_values(s, i).len() as int;
    let kk = base + slot;
    let pref = ints_of(assigned);
    let omap = owners.map_values(|o: usize| o as int);
    assert(pref.len() == kk);
    assert(assigned.len() == kk);
    assert(omap.len() == kk);
    lemma_var_position(s, i, slot);
    lemma_flat_extends(s, i, s.variants@.len() as int);
    lemma_flat_chars(s, i);
    assert(q.subrange(0, base) == flat_values(s, i));
    assert(all_owners(s).subrange(0, base) == flat_owners(s, i));
    // The full sequence agrees with the working prefix on the first
    // `base + slot` positions.
    assert forall|t: int| 0 <= t < kk implies q[t] == pref[t] && all_owners(s)[t] == omap[t] by {
        if t < base {
            assert(q[t] == q.subrange(0, base)[t]);
            assert(all_owners(s)[t] == all_owners(s).subrange(0, base)[t]);
            assert(pref[t] == flat_values(s, i)[t]);
            assert(omap[t] == flat_owners(s, i)[t]);
        } else {
            lemma_var_position(s, i, t - base);
            assert(q[t] == var_values(s, i)[t - base]);
            assert(pref[t] == var_values(s, i).subrange(0, slot)[t - base]);
            assert(all_owners(s)[t] == i);
            assert(omap[t] == Seq::new(slot as nat, |k: int| i)[t - base]);
        }
    }
    assert(q[kk] == var_values(s, i)[slot]);
    assert(q[p] == pref[p]);
    assert(q[p] == q[kk]);
    // First duplicate: the prefix before `kk` is duplicate-free.
    assert(q.subrange(0, kk).contains(q[kk])) by {
        assert(q.subrange(0, kk)[p] == q[p]);
    }
    assert forall|k2: int| 0 <= k2 < kk implies !q.subrange(0, k2).contains(#[trigger] q[k2]) by {
        if q.subrange(0, k2).contains(q[k2]) {
            let a = choose|a: int| 0 <= a < k2 && q.subrange(0, k2)[a] == q[k2];
            assert(pref[a] == pref[k2]);
            assert(false);
        }
    }
    assert(is_first_dup(s, kk));
    // First occurrence: the scan returned the least matching position.
    assert forall|j2: int| 0 <= j2 < p implies q[j2] != q[kk] by {
        assert(q[j2] == pref[j2]);
        assert(pref[j2] == assigned[j2] as int);
        assert(assigned[j2] != xv);
    }
    assert(is_first_occurrence(s, p, kk));
    // The found position's owner is in range.
    assert(all_owners(s)[p] == omap[p]);
    assert(omap[p] == owners[p] as int);
    if p < base {
        assert(flat_owners(s, i)[p] < i);
        assert(omap[p] == flat_owners(s, i)[p]);
    } else {
        assert(omap[p] == i);
    }
    // A duplicate exists, so the whole sequence has a collision.
    assert(!q.no_duplicates()) by {
        assert(q.subrange(0, kk).contains(q[kk]));
        let a = choose|a: int| 0 <= a < kk && q.subrange(0, kk)[a] == q[kk];
        assert(q[a] == q[kk]);
    }
}

/// A completed resolution yields a well-formed mapping that agrees with the
/// schema.
proof fn lemma_resolution_sound(s: EnumSchema, m: ResolvedMapping)
    requires
        s.wf(),
        !has_value_collision(s),
        !has_modifier_error(s),
        m.underlying == s.underlying,
        m.variants@.len() == s.variants@.len(),
        forall|j: int| 0 <= j < s.variants@.len()
            ==> #[trigger] resolved_variant_ok(s, m.variants@[j], j),
        m.is_naturally_exhaustive == (all_values(s).len() == s.underlying.card_spec()),
        match m.default_variant {
            Some(d) => 0 <= d < s.variants@.len() && s.variants@[d as int].is_default,
            None => forall|i: int|
                0 <= i < s.variants@.len() ==> !(#[trigger] s.variants@[i]).is_default,
        },
        match m.catch_all_variant {
            Some(c) => 0 <= c < s.variants@.len() && s.variants@[c as int].is_catch_all,
            None => forall|i: int|
                0 <= i < s.variants@.len() ==> !(#[trigger] s.variants@[i]).is_catch_all,
        },
    ensures
        m.wf(),
        forall|i: int| 0 <= i < s.variants@.len() ==> #[trigger] variant_resolved(s, m, i),
{
    let n = s.variants@.len() as int;
    lemma_claims_disjoint(s);
    // Alias membership: the sorted aliases hold exactly the alternatives.
    assert forall|i: int| 0 <= i < n implies #[trigger] variant_resolved(s, m, i) by {
        assert(resolved_variant_ok(s, m.variants@[i], i));
        lemma_ints_membership_equiv(m.variants@[i].aliases@, s.variants@[i].alternatives@);
    }
    // Values of variant `i`, seen through the mapping, are values of
    // `var_values`.
    assert forall|i: int| 0 <= i < n implies #[trigger] m.canon_of(i) == canon(s, i) by {
        assert(resolved_variant_ok(s, m.variants@[i], i));
    }
    assert forall|i: int, x: int| 0 <= i < n && #[trigger] m.alias_vals(i).contains(x) implies
        var_values(s, i).contains(x) && x != canon(s, i) by {
        assert(variant_resolved(s, m, i));
        assert(alt_vals(s, i).contains(x));
        let k = choose|k: int| 0 <= k < alt_vals(s, i).len() && alt_vals(s, i)[k] == x;
        assert(var_values(s, i)[1 + k] == x);
        assert(var_values(s, i).contains(x));
        assert(var_values(s, i)[0] == canon(s, i));
        assert(var_values(s, i).no_duplicates());
    }
    // Range of every claimed value.
    assert forall|i: int| 0 <= i < n implies s.underlying.in_range(#[trigger] m.canon_of(i)) by {
        lemma_canon_in_range(s, i);
    }
    assert forall|i: int, k: int|
        0 <= i < n && 0 <= k < m.variants@[i].aliases@.len() implies s.underlying.in_range(
        #[trigger] m.variants@[i].aliases@[k] as int) by {
        assert(m.alias_vals(i).contains(m.variants@[i].aliases@[k] as int)) by {
            assert(m.alias_vals(i)[k] == m.variants@[i].aliases@[k] as int);
        }
        assert(variant_resolved(s, m, i));
        assert(alt_vals(s, i).contains(m.variants@[i].aliases@[k] as int));
        let y = m.variants@[i].aliases@[k] as int;
        let k2 = choose|k2: int| 0 <= k2 < alt_vals(s, i).len() && alt_vals(s, i)[k2] == y;
    }
    // Strict order: sorted and duplicate-free.
    assert forall|i: int, k1: int, k2: int|
        0 <= i < n && 0 <= k1 < k2 < m.variants@[i].aliases@.len() implies #[trigger] m.variants@[i].aliases@[k1] < #[trigger] m.variants@[i].aliases@[k2] by {
        assert(resolved_variant_ok(s, m.variants@[i], i));
        assert(m.variants@[i].aliases@[k1] <= m.variants@[i].aliases@[k2]);
        if m.variants@[i].aliases@[k1] == m.variants@[i].aliases@[k2] {
            // Two equal aliases would be two equal alternatives.
            let al = m.variants@[i].aliases@;
            al.to_multiset_ensures();
            s.variants@[i].alternatives@.to_multiset_ensures();
            assert(alt_vals(s, i).no_duplicates()) by {
                assert(var_values(s, i).no_duplicates());
                assert forall|a: int, b: int| 0 <= a < b < alt_vals(s, i).len() implies alt_vals(
                    s,
                    i,
                )[a] != alt_vals(s, i)[b] by {
                    assert(var_values(s, i)[1 + a] == alt_vals(s, i)[a]);
                    assert(var_values(s, i)[1 + b] == alt_vals(s, i)[b]);
                }
            }
            assert(s.variants@[i].alternatives@.no_duplicates()) by {
                assert forall|a: int, b: int|
                    0 <= a < b < s.variants@[i].alternatives@.len() implies s.variants@[i].alternatives@[a] != s.variants@[i].alternatives@[b] by {
                    assert(alt_vals(s, i)[a] == s.variants@[i].alternatives@[a] as int);
                    assert(alt_vals(s, i)[b] == s.variants@[i].alternatives@[b] as int);
                }
            }
            s.variants@[i].alternatives@.lemma_multiset_has_no_duplicates();
            al.lemma_multiset_has_no_duplicates_conv();
            assert(al.no_duplicates());
            assert(false);
        }
    }
    // Disjointness, through `var_values`.
    assert forall|i: int| 0 <= i < n implies !#[trigger] m.alias_vals(i).contains(
        m.canon_of(i),
    ) by {
        if m.alias_vals(i).contains(m.canon_of(i)) {
            assert(var_values(s, i).contains(canon(s, i)));
        }
    }
    assert forall|i: int, j: int| 0 <= i < n && 0 <= j < n && i != j implies #[trigger] m.canon_of(
        i,
    ) != #[trigger] m.canon_of(j) by {
        if m.canon_of(i) == m.canon_of(j) {
            assert(var_values(s, i)[0] == canon(s, i));
            assert(var_values(s, i).contains(canon(s, i)));
            assert(var_values(s, j)[0] == canon(s, j));
            assert(var_values(s, j).contains(canon(s, i)));
            assert(false);
        }
    }
    assert forall|i: int, j: int| 0 <= i < n && 0 <= j < n && i != j implies !#[trigger] m
        .alias_vals(j).contains(m.canon_of(i)) by {
        if m.alias_vals(j).contains(m.canon_of(i)) {
            assert(var_values(s, j).contains(canon(s, i)));
            assert(var_values(s, i)[0] == canon(s, i));
            assert(var_values(s, i).contains(canon(s, i)));
            assert(false);
        }
    }
    assert forall|i: int, j: int, x: int| 0 <= i < n && 0 <= j < n && i != j implies !(
    #[trigger] m.alias_vals(i).contains(x) && #[trigger] m.alias_vals(j).contains(x)) by {
        if m.alias_vals(i).contains(x) && m.alias_vals(j).contains(x) {
            assert(var_values(s, i).contains(x));
            assert(var_values(s, j).contains(x));
            assert(false);
        }
    }
    // Modifier consistency, from the absence of modifier errors.
    assert forall|i: int, j: int|
        0 <= i < n && 0 <= j < n && (#[trigger] m.variants@[i]).is_default && (
    #[trigger] m.variants@[j]).is_default implies i == j by {
        assert(variant_resolved(s, m, i));
        assert(variant_resolved(s, m, j));
        if i < j {
            assert(s.variants@[i].is_default);
            assert(mod_conflict_at(s, j));
            assert(modifier_error_at(s, j));
            assert(false);
        }
        if j < i {
            assert(s.variants@[j].is_default);
            assert(mod_conflict_at(s, i));
            assert(modifier_error_at(s, i));
            assert(false);
        }
    }
    assert forall|i: int, j: int|
        0 <= i < n && 0 <= j < n && (#[trigger] m.variants@[i]).is_catch_all && (
    #[trigger] m.variants@[j]).is_catch_all implies i == j by {
        assert(variant_resolved(s, m, i));
        assert(variant_resolved(s, m, j));
        if i < j {
            assert(mod_conflict_at(s, j));
            assert(modifier_error_at(s, j));
            assert(false);
        }
        if j < i {
            assert(mod_conflict_at(s, i));
            assert(modifier_error_at(s, i));
            assert(false);
        }
    }
    assert forall|i: int| 0 <= i < n implies !((#[trigger] m.variants@[i]).is_default
        && m.variants@[i].is_catch_all) by {
        assert(variant_resolved(s, m, i));
        if s.variants@[i].is_default && s.variants@[i].is_catch_all {
            assert(mod_conflict_at(s, i));
            assert(modifier_error_at(s, i));
            assert(false);
        }
    }
    assert forall|i: int| 0 <= i < n implies ((#[trigger] m.variants@[i]).payload
        == PayloadShape::SingleIntegerField <==> m.variants@[i].is_catch_all) by {
        assert(variant_resolved(s, m, i));
        if payload_malformed_at(s, i) {
            assert(modifier_error_at(s, i));
            assert(false);
        }
    }
    // The default and catch-all indices carried in the mapping agree with
    // the schema's flags.
    match m.default_variant {
        Some(d) => {
            assert(variant_resolved(s, m, d as int));
        },
        None => {
            assert forall|i: int| 0 <= i < n implies !(#[trigger] m.variants@[i]).is_default by {
                assert(variant_resolved(s, m, i));
            }
        },
    }
    match m.catch_all_variant {
        Some(c) => {
            assert(variant_resolved(s, m, c as int));
        },
        None => {
            assert forall|i: int| 0 <= i < n implies !(#[trigger] m.variants@[i]).is_catch_all by {
                assert(variant_resolved(s, m, i));
            }
        },
    }
    // The value count agrees with the flat sequence.
    assert forall|j: int| 0 <= j < n implies (#[trigger] m.variants@[j]).aliases@.len()
        == s.variants@[j].alternatives@.len() by {
        assert(resolved_variant_ok(s, m.variants@[j], j));
    }
    lemma_num_values_agree(s, m, n);
    assert(m.num_values() == all_values(s).len());
    // Natural exhaustiveness implies coverage, by counting.
    if m.is_naturally_exhaustive {
        let q = all_values(s);
        lemma_flat_chars(s, n);
        assert forall|k: int| 0 <= k < q.len() implies s.underlying.min_spec() <= #[trigger] q[k]
            <= s.underlying.max_spec() by {
            let o = all_owners(s)[k];
            assert(var_values(s, o).contains(q[k]));
            let slot = choose|slot: int|
                0 <= slot < var_values(s, o).len() && var_values(s, o)[slot] == q[k];
            if slot == 0 {
                lemma_canon_in_range(s, o);
            } else {
                assert(alt_vals(s, o)[slot - 1] == q[k]);
                assert(s.variants@[o].alternatives@[slot - 1] as int == q[k]);
            }
        }
        lemma_full_range_coverage(q, s.underlying.min_spec(), s.underlying.max_spec());
        assert forall|x: int| m.underlying.in_range(x) implies exists|i: int|
            0 <= i < n && #[trigger] m.matches_value(i, x) by {
            assert(q.contains(x));
            let k = choose|k: int| 0 <= k < q.len() && q[k] == x;
            let o = all_owners(s)[k];
            assert(var_values(s, o).contains(x));
            let slot = choose|slot: int|
                0 <= slot < var_values(s, o).len() && var_values(s, o)[slot] == x;
            if slot == 0 {
                assert(m.canon_of(o) == x);
                assert(m.matches_value(o, x));
            } else {
                assert(alt_vals(s, o).contains(x)) by {
                    assert(alt_vals(s, o)[slot - 1] == x);
                }
                assert(variant_resolved(s, m, o));
                assert(m.alias_vals(o).contains(x));
                assert(m.matches_value(o, x));
            }
        }
    }
}

} // verus!

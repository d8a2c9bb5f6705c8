//! The comparator: pure equality and similarity judgments for snak values,
//! snaks, qualifier sets, reference sets and statements.

use vstd::prelude::*;
use crate::model::{Value, Snak, Reference, Statement};

verus! {

/// Three-way comparator verdict. `Similar` means "same core identity, but
/// alterable metadata differs"; `Different` means the items are unrelated.
#[derive(Clone, Copy, Debug, PartialEq, Eq, Structural)]
pub enum Comparison {
    Same,
    Similar,
    Different,
}

/// Value-kind equality. Each kind compares by its identifying fields only:
/// coordinates ignore altitude and precision, quantities ignore the bounds,
/// times ignore before, after and timezone; values of different kinds are
/// never equal.
pub open spec fn values_same(v1: Value, v2: Value) -> bool {
    match (v1, v2) {
        (Value::Coordinate(a), Value::Coordinate(b)) => {
            &&& a.globe@ == b.globe@
            &&& a.latitude@ == b.latitude@
            &&& a.longitude@ == b.longitude@
        },
        (Value::MonoLingual(a), Value::MonoLingual(b)) => {
            &&& a.language@ == b.language@
            &&& a.text@ == b.text@
        },
        (Value::Entity(a), Value::Entity(b)) => {
            &&& a.entity_type@ == b.entity_type@
            &&& a.id@ == b.id@
        },
        (Value::Quantity(a), Value::Quantity(b)) => {
            &&& a.amount@ == b.amount@
            &&& a.unit@ == b.unit@
        },
        (Value::StringValue(a), Value::StringValue(b)) => a@ == b@,
        (Value::Time(a), Value::Time(b)) => {
            &&& a.calendarmodel@ == b.calendarmodel@
            &&& a.precision@ == b.precision@
            &&& a.time@ == b.time@
        },
        _ => false,
    }
}

/// Snak equality: property, datatype and snak-type must match; then either
/// both snaks carry no data value, or both carry one with the same declared
/// kind tag and equal values.
pub open spec fn snaks_same(s1: Snak, s2: Snak) -> bool {
    &&& s1.property@ == s2.property@
    &&& s1.datatype@ == s2.datatype@
    &&& s1.snak_type == s2.snak_type
    &&& match (s1.data_value, s2.data_value) {
        (Option::None, Option::None) => true,
        (Option::Some(d1), Option::Some(d2)) => {
            &&& d1.value_type == d2.value_type
            &&& values_same(d1.value, d2.value)
        },
        _ => false,
    }
}

/// Whether some snak of `l` equals `q`.
pub open spec fn qual_matched(q: Snak, l: Seq<Snak>) -> bool {
    exists|j: int| 0 <= j < l.len() && snaks_same(q, l[j])
}

/// Order-independent qualifier-set equality: every qualifier on either side
/// has an equal counterpart on the other.
pub open spec fn quals_same(q1: Seq<Snak>, q2: Seq<Snak>) -> bool {
    &&& forall|i: int| 0 <= i < q1.len() ==> qual_matched(#[trigger] q1[i], q2)
    &&& forall|j: int| 0 <= j < q2.len() ==> qual_matched(#[trigger] q2[j], q1)
}

/// Statement comparison: different claim-type tags or different main snaks
/// make statements unrelated; with equal main snaks, a rank or qualifier
/// mismatch only calls for an alteration. Reference sets are not inspected.
#[verifier::opaque]
pub open spec fn spec_compare_statements(s1: Statement, s2: Statement) -> Comparison {
    if s1.claim_type@ != s2.claim_type@ {
        Comparison::Different
    } else if !snaks_same(s1.main_snak, s2.main_snak) {
        Comparison::Different
    } else if s1.rank != s2.rank {
        Comparison::Similar
    } else if !quals_same(s1.qualifiers@, s2.qualifiers@) {
        Comparison::Similar
    } else {
        Comparison::Same
    }
}

/// Compares two snak values.
pub fn compare_snak_values(value1: &Value, value2: &Value) -> (r: Comparison)
    ensures
        r == (if values_same(*value1, *value2) {
            Comparison::Same
        } else {
            Comparison::Different
        }),
{
    match value1 {
        Value::Coordinate(a) => match value2 {
            Value::Coordinate(b) => {
                if a.globe == b.globe && a.latitude == b.latitude && a.longitude == b.longitude {
                    Comparison::Same
                } else {
                    Comparison::Different
                }
            },
            _ => Comparison::Different,
        },
        Value::MonoLingual(a) => match value2 {
            Value::MonoLingual(b) => {
                if a.language == b.language && a.text == b.text {
                    Comparison::Same
                } else {
                    Comparison::Different
                }
            },
            _ => Comparison::Different,
        },
        Value::Entity(a) => match value2 {
            Value::Entity(b) => {
                if a.entity_type == b.entity_type && a.id == b.id {
                    Comparison::Same
                } else {
                    Comparison::Different
                }
            },
            _ => Comparison::Different,
        },
        Value::Quantity(a) => match value2 {
            Value::Quantity(b) => {
                if a.amount == b.amount && a.unit == b.unit {
                    Comparison::Same
                } else {
                    Comparison::Different
                }
            },
            _ => Comparison::Different,
        },
        Value::StringValue(a) => match value2 {
            Value::StringValue(b) => {
                if *a == *b {
                    Comparison::Same
                } else {
                    Comparison::Different
                }
            },
            _ => Comparison::Different,
        },
        Value::Time(a) => match value2 {
            Value::Time(b) => {
                if a.calendarmodel == b.calendarmodel && a.precision == b.precision && a.time == b.time {
                    Comparison::Same
                } else {
                    Comparison::Different
                }
            },
            _ => Comparison::Different,
        },
    }
}

/// Compares two snaks.
pub fn compare_snaks(s1: &Snak, s2: &Snak) -> (r: Comparison)
    ensures
        r == (if snaks_same(*s1, *s2) {
            Comparison::Same
        } else {
            Comparison::Different
        }),
{
    if s1.property != s2.property {
        return Comparison::Different;
    }
    if s1.datatype != s2.datatype {
        return Comparison::Different;
    }
    if s1.snak_type != s2.snak_type {
        return Comparison::Different;
    }
    match &s1.data_value {
        Option::None => match &s2.data_value {
            Option::None => Comparison::Same,
            Option::Some(_) => Comparison::Different,
        },
        Option::Some(dv1) => match &s2.data_value {
            Option::None => Comparison::Different,
            Option::Some(dv2) => {
                if dv1.value_type != dv2.value_type {
                    return Comparison::Different;
                }
                compare_snak_values(&dv1.value, &dv2.value)
            },
        },
    }
}

/// Compares two qualifier lists, order-independently. Unmatched qualifiers
/// on either side yield `Similar`, never `Different`.
pub fn compare_qualifiers(qualifiers1: &Vec<Snak>, qualifiers2: &Vec<Snak>) -> (r: Comparison)
    ensures
        r == (if quals_same(qualifiers1@, qualifiers2@) {
            Comparison::Same
        } else {
            Comparison::Similar
        }),
{
    let mut i: usize = 0;
    while i < qualifiers1.len()
        invariant
            0 <= i <= qualifiers1@.len(),
            forall|k: int| 0 <= k < i ==> qual_matched(#[trigger] qualifiers1@[k], qualifiers2@),
        decreases qualifiers1@.len() - i,
    {
        if !matched_in(&qualifiers1[i], qualifiers2) {
            return Comparison::Similar;
        }
        i += 1;
    }
    let mut j: usize = 0;
    while j < qualifiers2.len()
        invariant
            0 <= j <= qualifiers2@.len(),
            forall|k: int| 0 <= k < qualifiers1@.len() ==> qual_matched(#[trigger] qualifiers1@[k], qualifiers2@),
            forall|k: int| 0 <= k < j ==> qual_matched(#[trigger] qualifiers2@[k], qualifiers1@),
        decreases qualifiers2@.len() - j,
    {
        if !matched_in(&qualifiers2[j], qualifiers1) {
            return Comparison::Similar;
        }
        j += 1;
    }
    Comparison::Same
}

/// Whether some snak of `l` equals `q`.
fn matched_in(q: &Snak, l: &Vec<Snak>) -> (r: bool)
    ensures
        r == qual_matched(*q, l@),
{
    let mut i: usize = 0;
    while i < l.len()
        invariant
            0 <= i <= l@.len(),
            forall|j: int| 0 <= j < i ==> !snaks_same(*q, #[trigger] l@[j]),
        decreases l@.len() - i,
    {
        match compare_snaks(q, &l[i]) {
            Comparison::Same => {
                proof {
                    assert(snaks_same(*q, l@[i as int]));
                }
                return true;
            },
            _ => {},
        }
        i += 1;
    }
    false
}

/// Compares two reference lists. Reference-aware diffing is deliberately not
/// provided: the sets always compare `Same`, and callers must not rely on
/// references to distinguish statements.
pub fn compare_references(_references1: &Vec<Reference>, _references2: &Vec<Reference>) -> (r: Comparison)
    ensures
        r == Comparison::Same,
{
    Comparison::Same
}

/// Compares two statements.
pub fn compare_claims(s1: &Statement, s2: &Statement) -> (r: Comparison)
    ensures
        r == spec_compare_statements(*s1, *s2),
{
    proof {
        reveal(spec_compare_statements);
    }
    if s1.claim_type != s2.claim_type {
        return Comparison::Different;
    }
    match compare_snaks(&s1.main_snak, &s2.main_snak) {
        Comparison::Same => {},
        _ => {
            return Comparison::Different;
        },
    }
    if s1.rank != s2.rank {
        return Comparison::Similar;
    }
    match compare_qualifiers(&s1.qualifiers, &s2.qualifiers) {
        Comparison::Same => {},
        ret => {
            return ret;
        },
    }
    compare_references(&s1.references, &s2.references)
}

/// Every value equals itself.
pub proof fn lemma_values_same_refl(v: Value)
    ensures
        values_same(v, v),
{
}

/// Every snak equals itself.
pub proof fn lemma_snaks_same_refl(s: Snak)
    ensures
        snaks_same(s, s),
{
}

/// Every qualifier list matches itself.
pub proof fn lemma_quals_same_refl(q: Seq<Snak>)
    ensures
        quals_same(q, q),
{
    assert forall|i: int| 0 <= i < q.len() implies qual_matched(#[trigger] q[i], q) by {
        lemma_snaks_same_refl(q[i]);
    }
}

/// Every statement compares `Same` to itself.
pub proof fn lemma_compare_statements_refl(s: Statement)
    ensures
        spec_compare_statements(s, s) == Comparison::Same,
{
    reveal(spec_compare_statements);
    lemma_snaks_same_refl(s.main_snak);
    lemma_quals_same_refl(s.qualifiers@);
}

} // verus!

//! The diff builder: produces the patch document from an old entity, a new
//! entity and a permission scope.
//!
//! Each section is specified as a fold over the entity lists: every entry of
//! the old list may contribute one candidate action (none for an unchanged
//! entry, an alteration for a changed one, a removal for a vanished one),
//! every entry of the new list may contribute an addition, and the scope
//! gates each candidate independently. An unauthorized difference is
//! silently omitted; the builder never fails.

use vstd::prelude::*;
use crate::model::{LocaleString, SiteLink, Snak, Reference, Statement, Entity, Value, DataValue, CoordinateValue, MonoLingualValue, EntityRefValue, QuantityValue, TimeValue, first_lang_from, lemma_first_lang_from};
use crate::scope::{ScopeAction, EntityDiffParam, EntityDiffParams};
use crate::compare::{Comparison, spec_compare_statements, compare_claims};
use crate::patch::{LocaleEntry, SiteLinkEntry, ClaimEntry, KeyedVec, Patch, sorted_insert};
use crate::render::{patch_json, patch_to_json};

verus! {

// ---------------------------------------------------------------------------
// Locale sections (labels, descriptions, aliases)
// ---------------------------------------------------------------------------

/// Some entry of `l` has this language and value.
pub open spec fn locale_pair_in(l: Seq<LocaleString>, s: LocaleString) -> bool {
    exists|j: int| 0 <= j < l.len() && l[j].language@ == s.language@ && l[j].value@ == s.value@
}

/// Some entry of `l` has this language.
pub open spec fn locale_lang_in(l: Seq<LocaleString>, lang: Seq<char>) -> bool {
    exists|j: int| 0 <= j < l.len() && l[j].language@ == lang
}

/// The keyed entry that rewrites a language to the new value.
pub open spec fn locale_alter_entry(e2: LocaleString) -> LocaleEntry {
    LocaleEntry { language: e2.language, value: e2.value, remove: false }
}

/// The keyed entry that removes a language, carrying the old value.
pub open spec fn locale_remove_entry(s1: LocaleString) -> LocaleEntry {
    LocaleEntry { language: s1.language, value: s1.value, remove: true }
}

/// The entry that adds a new value.
pub open spec fn locale_add_entry(s2: LocaleString) -> LocaleEntry {
    LocaleEntry { language: s2.language, value: s2.value, remove: false }
}

/// First pass, one old entry: an entry whose language-and-value pair
/// survives needs nothing; a language still present with another value is
/// altered to the new list's value, under `alter`; a vanished language is
/// removed, under `remove`.
pub open spec fn locale_r1_step(m: Seq<(String, LocaleEntry)>, s1: LocaleString, l2: Seq<LocaleString>, p: EntityDiffParam) -> Seq<(String, LocaleEntry)> {
    if locale_pair_in(l2, s1) {
        m
    } else if locale_lang_in(l2, s1.language@) {
        if p.spec_valid(s1.language@, ScopeAction::Alter) {
            let e2 = l2[first_lang_from(l2, s1.language@, 0)];
            sorted_insert(m, e2.language, locale_alter_entry(e2))
        } else {
            m
        }
    } else if p.spec_valid(s1.language@, ScopeAction::Remove) {
        sorted_insert(m, s1.language, locale_remove_entry(s1))
    } else {
        m
    }
}

/// First pass over the first `i` old entries.
pub open spec fn locale_r1(l1: Seq<LocaleString>, l2: Seq<LocaleString>, p: EntityDiffParam, i: int) -> Seq<(String, LocaleEntry)>
    decreases i,
{
    if i <= 0 {
        Seq::empty()
    } else {
        locale_r1_step(locale_r1(l1, l2, p, i - 1), l1[i - 1], l2, p)
    }
}

/// Second pass, one new entry: a genuinely new language is added, under
/// `add`; a language already present in the old list was handled by the
/// first pass.
pub open spec fn locale_r2_step(m: Seq<(String, LocaleEntry)>, s2: LocaleString, l1: Seq<LocaleString>, p: EntityDiffParam) -> Seq<(String, LocaleEntry)> {
    if locale_lang_in(l1, s2.language@) {
        m
    } else if p.spec_valid(s2.language@, ScopeAction::Add) {
        sorted_insert(m, s2.language, locale_add_entry(s2))
    } else {
        m
    }
}

/// Second pass over the first `i` new entries.
pub open spec fn locale_r2(l1: Seq<LocaleString>, l2: Seq<LocaleString>, p: EntityDiffParam, m0: Seq<(String, LocaleEntry)>, i: int) -> Seq<(String, LocaleEntry)>
    decreases i,
{
    if i <= 0 {
        m0
    } else {
        locale_r2_step(locale_r2(l1, l2, p, m0, i - 1), l2[i - 1], l1, p)
    }
}

/// The whole keyed locale diff (labels and descriptions).
pub open spec fn spec_diff_locales(l1: Seq<LocaleString>, l2: Seq<LocaleString>, p: EntityDiffParam) -> Seq<(String, LocaleEntry)> {
    locale_r2(l1, l2, p, locale_r1(l1, l2, p, l1.len() as int), l2.len() as int)
}

/// First pass for aliases, one old entry: aliases are identified by their
/// language-and-value pair; a vanished pair is removed, under `remove`.
/// There is no alter branch: a changed alias surfaces as a remove-add pair.
pub open spec fn alias_r1_step(a: Seq<LocaleEntry>, s1: LocaleString, l2: Seq<LocaleString>, p: EntityDiffParam) -> Seq<LocaleEntry> {
    if locale_pair_in(l2, s1) {
        a
    } else if p.spec_valid(s1.language@, ScopeAction::Remove) {
        a.push(locale_remove_entry(s1))
    } else {
        a
    }
}

/// First alias pass over the first `i` old entries.
pub open spec fn alias_r1(l1: Seq<LocaleString>, l2: Seq<LocaleString>, p: EntityDiffParam, i: int) -> Seq<LocaleEntry>
    decreases i,
{
    if i <= 0 {
        Seq::empty()
    } else {
        alias_r1_step(alias_r1(l1, l2, p, i - 1), l1[i - 1], l2, p)
    }
}

/// Second pass for aliases, one new entry: a pair absent from the old list
/// is added, under `add`.
pub open spec fn alias_r2_step(a: Seq<LocaleEntry>, s2: LocaleString, l1: Seq<LocaleString>, p: EntityDiffParam) -> Seq<LocaleEntry> {
    if locale_pair_in(l1, s2) {
        a
    } else if p.spec_valid(s2.language@, ScopeAction::Add) {
        a.push(locale_add_entry(s2))
    } else {
        a
    }
}

/// Second alias pass over the first `i` new entries.
pub open spec fn alias_r2(l1: Seq<LocaleString>, l2: Seq<LocaleString>, p: EntityDiffParam, a0: Seq<LocaleEntry>, i: int) -> Seq<LocaleEntry>
    decreases i,
{
    if i <= 0 {
        a0
    } else {
        alias_r2_step(alias_r2(l1, l2, p, a0, i - 1), l2[i - 1], l1, p)
    }
}

/// The whole alias diff.
pub open spec fn spec_diff_aliases(l1: Seq<LocaleString>, l2: Seq<LocaleString>, p: EntityDiffParam) -> Seq<LocaleEntry> {
    alias_r2(l1, l2, p, alias_r1(l1, l2, p, l1.len() as int), l2.len() as int)
}

/// Whether `l` holds an entry with this language and value.
fn locale_pair_in_exec(l: &Vec<LocaleString>, s: &LocaleString) -> (r: bool)
    ensures
        r == locale_pair_in(l@, *s),
{
    let mut j: usize = 0;
    while j < l.len()
        invariant
            0 <= j <= l@.len(),
            forall|k: int| 0 <= k < j ==> !(l@[k].language@ == s.language@ && l@[k].value@ == s.value@),
        decreases l@.len() - j,
    {
        if l[j].language == s.language && l[j].value == s.value {
            return true;
        }
        j += 1;
    }
    false
}

/// The first entry of `l` with this language, if any.
fn locale_first_lang(l: &Vec<LocaleString>, lang: &String) -> (r: Option<usize>)
    ensures
        match r {
            Option::Some(j) => {
                &&& 0 <= j < l@.len()
                &&& first_lang_from(l@, lang@, 0) == j as int
                &&& l@[j as int].language@ == lang@
                &&& locale_lang_in(l@, lang@)
            },
            Option::None => {
                &&& first_lang_from(l@, lang@, 0) == -1
                &&& !locale_lang_in(l@, lang@)
            },
        },
{
    let mut j: usize = 0;
    while j < l.len()
        invariant
            0 <= j <= l@.len(),
            forall|k: int| 0 <= k < j ==> l@[k].language@ != lang@,
        decreases l@.len() - j,
    {
        if l[j].language == *lang {
            proof {
                lemma_first_lang_from(l@, lang@, 0);
                let fi = first_lang_from(l@, lang@, 0);
                if fi == -1 {
                    assert(false);
                } else if fi < j as int {
                    assert(l@[fi].language@ != lang@);
                    assert(false);
                } else if fi > j as int {
                    assert(l@[j as int].language@ != lang@);
                    assert(false);
                }
            }
            return Some(j);
        }
        j += 1;
    }
    proof {
        lemma_first_lang_from(l@, lang@, 0);
        let fi = first_lang_from(l@, lang@, 0);
        if fi != -1 {
            assert(l@[fi].language@ == lang@);
            assert(false);
        }
    }
    None
}

/// Runs both keyed locale passes into `section`.
fn diff_locales_keyed(section: &mut KeyedVec<LocaleEntry>, l1: &Vec<LocaleString>, l2: &Vec<LocaleString>, p: &EntityDiffParam)
    requires
        old(section).wf(),
        old(section).entries@.len() == 0,
    ensures
        final(section).entries@ == spec_diff_locales(l1@, l2@, *p),
        final(section).wf(),
{
    let mut i: usize = 0;
    while i < l1.len()
        invariant
            section.wf(),
            section.entries@ == locale_r1(l1@, l2@, *p, i as int),
            0 <= i <= l1@.len(),
        decreases l1@.len() - i,
    {
        let s1 = &l1[i];
        if locale_pair_in_exec(l2, s1) {
        } else {
            match locale_first_lang(l2, &s1.language) {
                Option::Some(j) => {
                    if p.valid(s1.language.as_str(), ScopeAction::Alter) {
                        let e2 = &l2[j];
                        section.insert(
                            e2.language.clone(),
                            LocaleEntry { language: e2.language.clone(), value: e2.value.clone(), remove: false },
                        );
                    }
                },
                Option::None => {
                    if p.valid(s1.language.as_str(), ScopeAction::Remove) {
                        section.insert(
                            s1.language.clone(),
                            LocaleEntry { language: s1.language.clone(), value: s1.value.clone(), remove: true },
                        );
                    }
                },
            }
        }
        proof {
            assert(section.entries@ == locale_r1(l1@, l2@, *p, i as int + 1));
        }
        i += 1;
    }
    let ghost m1 = locale_r1(l1@, l2@, *p, l1@.len() as int);
    let mut i2: usize = 0;
    while i2 < l2.len()
        invariant
            section.wf(),
            section.entries@ == locale_r2(l1@, l2@, *p, m1, i2 as int),
            0 <= i2 <= l2@.len(),
            m1 == locale_r1(l1@, l2@, *p, l1@.len() as int),
        decreases l2@.len() - i2,
    {
        let s2 = &l2[i2];
        match locale_first_lang(l1, &s2.language) {
            Option::Some(_) => {},
            Option::None => {
                if p.valid(s2.language.as_str(), ScopeAction::Add) {
                    section.insert(
                        s2.language.clone(),
                        LocaleEntry { language: s2.language.clone(), value: s2.value.clone(), remove: false },
                    );
                }
            },
        }
        proof {
            assert(section.entries@ == locale_r2(l1@, l2@, *p, m1, i2 as int + 1));
        }
        i2 += 1;
    }
}

/// Runs both alias passes into `section`.
fn diff_aliases_list(section: &mut Vec<LocaleEntry>, l1: &Vec<LocaleString>, l2: &Vec<LocaleString>, p: &EntityDiffParam)
    requires
        old(section)@.len() == 0,
    ensures
        final(section)@ == spec_diff_aliases(l1@, l2@, *p),
{
    let mut i: usize = 0;
    while i < l1.len()
        invariant
            section@ == alias_r1(l1@, l2@, *p, i as int),
            0 <= i <= l1@.len(),
        decreases l1@.len() - i,
    {
        let s1 = &l1[i];
        if !locale_pair_in_exec(l2, s1) {
            if p.valid(s1.language.as_str(), ScopeAction::Remove) {
                section.push(LocaleEntry { language: s1.language.clone(), value: s1.value.clone(), remove: true });
            }
        }
        proof {
            assert(section@ == alias_r1(l1@, l2@, *p, i as int + 1));
        }
        i += 1;
    }
    let ghost a1 = alias_r1(l1@, l2@, *p, l1@.len() as int);
    let mut i2: usize = 0;
    while i2 < l2.len()
        invariant
            section@ == alias_r2(l1@, l2@, *p, a1, i2 as int),
            0 <= i2 <= l2@.len(),
            a1 == alias_r1(l1@, l2@, *p, l1@.len() as int),
        decreases l2@.len() - i2,
    {
        let s2 = &l2[i2];
        if !locale_pair_in_exec(l1, s2) {
            if p.valid(s2.language.as_str(), ScopeAction::Add) {
                section.push(LocaleEntry { language: s2.language.clone(), value: s2.value.clone(), remove: false });
            }
        }
        proof {
            assert(section@ == alias_r2(l1@, l2@, *p, a1, i2 as int + 1));
        }
        i2 += 1;
    }
}

} // verus!

verus! {

// ---------------------------------------------------------------------------
// Claims section
// ---------------------------------------------------------------------------

/// Exact deep equality of optional texts.
pub open spec fn opt_text_eq(a: Option<String>, b: Option<String>) -> bool {
    match a {
        Option::None => b is None,
        Option::Some(x) => match b {
            Option::None => false,
            Option::Some(y) => x@ == y@,
        },
    }
}

/// Exact deep equality of references: same snaks in the same order.
pub open spec fn ref_eq(a: Reference, b: Reference) -> bool {
    a.snaks@ == b.snaks@
}

/// Exact deep equality of statements. Unlike the comparator's judgment this
/// distinguishes every field; it only ignores how the carrying vectors were
/// allocated.
pub open spec fn st_eq(a: Statement, b: Statement) -> bool {
    &&& a.claim_type@ == b.claim_type@
    &&& a.main_snak == b.main_snak
    &&& a.rank == b.rank
    &&& a.qualifiers@ == b.qualifiers@
    &&& a.references@.len() == b.references@.len()
    &&& forall|i: int| 0 <= i < a.references@.len() ==> ref_eq(#[trigger] a.references@[i], b.references@[i])
}

/// Deep equality of claim actions.
pub open spec fn claim_entry_eq(x: ClaimEntry, y: ClaimEntry) -> bool {
    match x {
        ClaimEntry::Add(a) => matches!(y, ClaimEntry::Add(_)) && st_eq(a, y->Add_0),
        ClaimEntry::Alter(a) => matches!(y, ClaimEntry::Alter(_)) && st_eq(a, y->Alter_0),
        ClaimEntry::Remove(p) => matches!(y, ClaimEntry::Remove(_)) && p@ == y->Remove_0@,
    }
}

/// Pointwise deep equality of claim-action lists.
pub open spec fn claims_eqv(a: Seq<ClaimEntry>, b: Seq<ClaimEntry>) -> bool {
    a.len() == b.len() && forall|i: int| 0 <= i < a.len() ==> claim_entry_eq(#[trigger] a[i], b[i])
}

/// Some statement of `cs` compares `Same` to `c`.
pub open spec fn any_same_to(c: Statement, cs: Seq<Statement>) -> bool {
    exists|j: int| 0 <= j < cs.len() && spec_compare_statements(c, cs[j]) == Comparison::Same
}

/// First position at or after `i` whose statement compares `Similar` to `c`,
/// or -1.
pub open spec fn first_similar_from(c: Statement, cs: Seq<Statement>, i: int) -> int
    decreases cs.len() - i,
{
    if i < 0 || i >= cs.len() {
        -1
    } else if spec_compare_statements(c, cs[i]) == Comparison::Similar {
        i
    } else {
        first_similar_from(c, cs, i + 1)
    }
}

pub proof fn lemma_first_similar_from(c: Statement, cs: Seq<Statement>, i: int)
    requires
        0 <= i <= cs.len(),
    ensures
        first_similar_from(c, cs, i) == -1 ==> forall|j: int| i <= j < cs.len() ==> spec_compare_statements(c, cs[j]) != Comparison::Similar,
        first_similar_from(c, cs, i) != -1 ==> {
            &&& i <= first_similar_from(c, cs, i) < cs.len()
            &&& spec_compare_statements(c, cs[first_similar_from(c, cs, i)]) == Comparison::Similar
            &&& forall|j: int| i <= j < first_similar_from(c, cs, i) ==> spec_compare_statements(c, cs[j]) != Comparison::Similar
        },
    decreases cs.len() - i,
{
    if i < cs.len() && spec_compare_statements(c, cs[i]) != Comparison::Similar {
        lemma_first_similar_from(c, cs, i + 1);
    }
}

/// Some statement of `cs` compares `Same` or `Similar` to `c`, in the
/// old-against-new direction.
pub open spec fn any_match_from(cs: Seq<Statement>, c: Statement) -> bool {
    exists|j: int| 0 <= j < cs.len() && spec_compare_statements(cs[j], c) != Comparison::Different
}

/// First pass, one old statement: one with a `Same` partner needs nothing;
/// one with a `Similar` partner is altered to the first such partner's full
/// payload, under `alter` for its property; an unmatched one is removed,
/// under `remove` for its property.
pub open spec fn claims_r1_step(a: Seq<ClaimEntry>, c1: Statement, cs2: Seq<Statement>, p: EntityDiffParam) -> Seq<ClaimEntry> {
    if any_same_to(c1, cs2) {
        a
    } else if first_similar_from(c1, cs2, 0) != -1 {
        if p.spec_valid(c1.main_snak.property@, ScopeAction::Alter) {
            a.push(ClaimEntry::Alter(cs2[first_similar_from(c1, cs2, 0)]))
        } else {
            a
        }
    } else if p.spec_valid(c1.main_snak.property@, ScopeAction::Remove) {
        a.push(ClaimEntry::Remove(c1.main_snak.property))
    } else {
        a
    }
}

/// First claims pass over the first `i` old statements.
pub open spec fn claims_r1(cs1: Seq<Statement>, cs2: Seq<Statement>, p: EntityDiffParam, i: int) -> Seq<ClaimEntry>
    decreases i,
{
    if i <= 0 {
        Seq::empty()
    } else {
        claims_r1_step(claims_r1(cs1, cs2, p, i - 1), cs1[i - 1], cs2, p)
    }
}

/// Second pass, one new statement: one without a `Same` or `Similar`
/// partner in the old set is added, under `add` for its property.
pub open spec fn claims_r2_step(a: Seq<ClaimEntry>, c2: Statement, cs1: Seq<Statement>, p: EntityDiffParam) -> Seq<ClaimEntry> {
    if any_match_from(cs1, c2) {
        a
    } else if p.spec_valid(c2.main_snak.property@, ScopeAction::Add) {
        a.push(ClaimEntry::Add(c2))
    } else {
        a
    }
}

/// Second claims pass over the first `i` new statements.
pub open spec fn claims_r2(cs1: Seq<Statement>, cs2: Seq<Statement>, p: EntityDiffParam, a0: Seq<ClaimEntry>, i: int) -> Seq<ClaimEntry>
    decreases i,
{
    if i <= 0 {
        a0
    } else {
        claims_r2_step(claims_r2(cs1, cs2, p, a0, i - 1), cs2[i - 1], cs1, p)
    }
}

/// The whole claims diff.
pub open spec fn spec_diff_claims(cs1: Seq<Statement>, cs2: Seq<Statement>, p: EntityDiffParam) -> Seq<ClaimEntry> {
    claims_r2(cs1, cs2, p, claims_r1(cs1, cs2, p, cs1.len() as int), cs2.len() as int)
}

fn clone_opt_text(o: &Option<String>) -> (r: Option<String>)
    ensures
        r == *o,
{
    match o {
        Option::None => None,
        Option::Some(s) => Some(s.clone()),
    }
}

fn clone_snak(s: &Snak) -> (r: Snak)
    ensures
        r == *s,
{
    let data_value = match &s.data_value {
        Option::None => None,
        Option::Some(dv) => {
            let value = match &dv.value {
                Value::Coordinate(a) => Value::Coordinate(CoordinateValue {
                    globe: a.globe.clone(),
                    latitude: a.latitude.clone(),
                    longitude: a.longitude.clone(),
                    altitude: clone_opt_text(&a.altitude),
                    precision: a.precision.clone(),
                }),
                Value::MonoLingual(a) => Value::MonoLingual(MonoLingualValue {
                    language: a.language.clone(),
                    text: a.text.clone(),
                }),
                Value::Entity(a) => Value::Entity(EntityRefValue {
                    entity_type: a.entity_type.clone(),
                    id: a.id.clone(),
                }),
                Value::Quantity(a) => Value::Quantity(QuantityValue {
                    amount: a.amount.clone(),
                    unit: a.unit.clone(),
                    lower_bound: clone_opt_text(&a.lower_bound),
                    upper_bound: clone_opt_text(&a.upper_bound),
                }),
                Value::StringValue(a) => Value::StringValue(a.clone()),
                Value::Time(a) => Value::Time(TimeValue {
                    calendarmodel: a.calendarmodel.clone(),
                    precision: a.precision.clone(),
                    time: a.time.clone(),
                    before: a.before.clone(),
                    after: a.after.clone(),
                    timezone: a.timezone.clone(),
                }),
            };
            Some(DataValue { value_type: dv.value_type, value })
        },
    };
    Snak {
        property: s.property.clone(),
        datatype: s.datatype.clone(),
        snak_type: s.snak_type,
        data_value,
    }
}

fn clone_snaks(v: &Vec<Snak>) -> (r: Vec<Snak>)
    ensures
        r@ == v@,
{
    let mut r: Vec<Snak> = Vec::new();
    let mut i: usize = 0;
    while i < v.len()
        invariant
            0 <= i <= v@.len(),
            r@.len() == i,
            forall|k: int| 0 <= k < i ==> r@[k] == v@[k],
        decreases v@.len() - i,
    {
        r.push(clone_snak(&v[i]));
        i += 1;
    }
    proof {
        assert(r@ =~= v@);
    }
    r
}

fn clone_references(v: &Vec<Reference>) -> (r: Vec<Reference>)
    ensures
        r@.len() == v@.len(),
        forall|k: int| 0 <= k < v@.len() ==> ref_eq(#[trigger] r@[k], v@[k]),
{
    let mut r: Vec<Reference> = Vec::new();
    let mut i: usize = 0;
    while i < v.len()
        invariant
            0 <= i <= v@.len(),
            r@.len() == i,
            forall|k: int| 0 <= k < i ==> ref_eq(#[trigger] r@[k], v@[k]),
        decreases v@.len() - i,
    {
        r.push(Reference { snaks: clone_snaks(&v[i].snaks) });
        i += 1;
    }
    r
}

fn clone_statement(st: &Statement) -> (r: Statement)
    ensures
        st_eq(r, *st),
{
    Statement {
        claim_type: st.claim_type.clone(),
        main_snak: clone_snak(&st.main_snak),
        rank: st.rank,
        qualifiers: clone_snaks(&st.qualifiers),
        references: clone_references(&st.references),
    }
}

/// Whether some statement of `cs` compares `Same` to `c`.
fn claims_any_same(c: &Statement, cs: &Vec<Statement>) -> (r: bool)
    ensures
        r == any_same_to(*c, cs@),
{
    let mut j: usize = 0;
    while j < cs.len()
        invariant
            0 <= j <= cs@.len(),
            forall|k: int| 0 <= k < j ==> spec_compare_statements(*c, cs@[k]) != Comparison::Same,
        decreases cs@.len() - j,
    {
        match compare_claims(c, &cs[j]) {
            Comparison::Same => {
                return true;
            },
            _ => {},
        }
        j += 1;
    }
    false
}

/// The first statement of `cs` that compares `Similar` to `c`, if any.
fn claims_first_similar(c: &Statement, cs: &Vec<Statement>) -> (r: Option<usize>)
    ensures
        match r {
            Option::Some(j) => {
                &&& 0 <= j < cs@.len()
                &&& first_similar_from(*c, cs@, 0) == j as int
            },
            Option::None => first_similar_from(*c, cs@, 0) == -1,
        },
{
    let mut j: usize = 0;
    while j < cs.len()
        invariant
            0 <= j <= cs@.len(),
            forall|k: int| 0 <= k < j ==> spec_compare_statements(*c, cs@[k]) != Comparison::Similar,
        decreases cs@.len() - j,
    {
        match compare_claims(c, &cs[j]) {
            Comparison::Similar => {
                proof {
                    lemma_first_similar_from(*c, cs@, 0);
                    let fi = first_similar_from(*c, cs@, 0);
                    if fi == -1 {
                        assert(false);
                    } else if fi < j as int {
                        assert(spec_compare_statements(*c, cs@[fi]) != Comparison::Similar);
                        assert(false);
                    } else if fi > j as int {
                        assert(spec_compare_statements(*c, cs@[j as int]) != Comparison::Similar);
                        assert(false);
                    }
                }
                return Some(j);
            },
            _ => {},
        }
        j += 1;
    }
    proof {
        lemma_first_similar_from(*c, cs@, 0);
        let fi = first_similar_from(*c, cs@, 0);
        if fi != -1 {
            assert(spec_compare_statements(*c, cs@[fi]) == Comparison::Similar);
            assert(false);
        }
    }
    None
}

/// Whether some statement of `cs` compares `Same` or `Similar` to `c`.
fn claims_any_match(cs: &Vec<Statement>, c: &Statement) -> (r: bool)
    ensures
        r == any_match_from(cs@, *c),
{
    let mut j: usize = 0;
    while j < cs.len()
        invariant
            0 <= j <= cs@.len(),
            forall|k: int| 0 <= k < j ==> spec_compare_statements(cs@[k], *c) == Comparison::Different,
        decreases cs@.len() - j,
    {
        match compare_claims(&cs[j], c) {
            Comparison::Different => {},
            _ => {
                return true;
            },
        }
        j += 1;
    }
    false
}

/// Runs both claims passes into `section`.
fn diff_claims_list(section: &mut Vec<ClaimEntry>, cs1: &Vec<Statement>, cs2: &Vec<Statement>, p: &EntityDiffParam)
    requires
        old(section)@.len() == 0,
    ensures
        claims_eqv(final(section)@, spec_diff_claims(cs1@, cs2@, *p)),
{
    let mut i: usize = 0;
    while i < cs1.len()
        invariant
            claims_eqv(section@, claims_r1(cs1@, cs2@, *p, i as int)),
            0 <= i <= cs1@.len(),
        decreases cs1@.len() - i,
    {
        let c1 = &cs1[i];
        if claims_any_same(c1, cs2) {
        } else {
            match claims_first_similar(c1, cs2) {
                Option::Some(j) => {
                    if p.valid(c1.main_snak.property.as_str(), ScopeAction::Alter) {
                        section.push(ClaimEntry::Alter(clone_statement(&cs2[j])));
                    }
                },
                Option::None => {
                    if p.valid(c1.main_snak.property.as_str(), ScopeAction::Remove) {
                        section.push(ClaimEntry::Remove(c1.main_snak.property.clone()));
                    }
                },
            }
        }
        proof {
            assert(claims_eqv(section@, claims_r1(cs1@, cs2@, *p, i as int + 1)));
        }
        i += 1;
    }
    let ghost a1 = claims_r1(cs1@, cs2@, *p, cs1@.len() as int);
    let mut i2: usize = 0;
    while i2 < cs2.len()
        invariant
            claims_eqv(section@, claims_r2(cs1@, cs2@, *p, a1, i2 as int)),
            0 <= i2 <= cs2@.len(),
            a1 == claims_r1(cs1@, cs2@, *p, cs1@.len() as int),
        decreases cs2@.len() - i2,
    {
        let c2 = &cs2[i2];
        if !claims_any_match(cs1, c2) {
            if p.valid(c2.main_snak.property.as_str(), ScopeAction::Add) {
                section.push(ClaimEntry::Add(clone_statement(c2)));
            }
        }
        proof {
            assert(claims_eqv(section@, claims_r2(cs1@, cs2@, *p, a1, i2 as int + 1)));
        }
        i2 += 1;
    }
}

} // verus!

verus! {

// ---------------------------------------------------------------------------
// Site-links section
// ---------------------------------------------------------------------------

/// Deep equality of site-links: site, title and badge list all match.
pub open spec fn sl_same(a: SiteLink, b: SiteLink) -> bool {
    &&& a.site@ == b.site@
    &&& a.title@ == b.title@
    &&& a.badges@.len() == b.badges@.len()
    &&& forall|i: int| 0 <= i < a.badges@.len() ==> (#[trigger] a.badges@[i])@ == b.badges@[i]@
}

/// Some link of `l` deep-equals `s`.
pub open spec fn sl_pair_in(l: Seq<SiteLink>, s: SiteLink) -> bool {
    exists|j: int| 0 <= j < l.len() && sl_same(l[j], s)
}

/// Some link of `l` is for this site.
pub open spec fn sl_site_in(l: Seq<SiteLink>, site: Seq<char>) -> bool {
    exists|j: int| 0 <= j < l.len() && l[j].site@ == site
}

/// The keyed entry carrying a link, with or without the remove marker.
pub open spec fn sl_entry_of(s: SiteLink, remove: bool) -> SiteLinkEntry {
    SiteLinkEntry { site: s.site, title: s.title, badges: s.badges, remove }
}

/// Deep equality of site-link actions: the badge vectors may be distinct
/// allocations with the same content.
pub open spec fn sl_entry_eq(a: SiteLinkEntry, b: SiteLinkEntry) -> bool {
    &&& a.site == b.site
    &&& a.title == b.title
    &&& a.badges@ == b.badges@
    &&& a.remove == b.remove
}

/// Pointwise deep equality of keyed site-link sections.
pub open spec fn sl_pairs_eqv(a: Seq<(String, SiteLinkEntry)>, b: Seq<(String, SiteLinkEntry)>) -> bool {
    a.len() == b.len() && forall|i: int| 0 <= i < a.len() ==> (#[trigger] a[i]).0 == b[i].0 && sl_entry_eq(a[i].1, b[i].1)
}

/// The ordered insert respects deep equality of the stored entries.
pub proof fn lemma_sorted_insert_sl_eqv(s1: Seq<(String, SiteLinkEntry)>, s2: Seq<(String, SiteLinkEntry)>, k: String, v1: SiteLinkEntry, v2: SiteLinkEntry)
    requires
        sl_pairs_eqv(s1, s2),
        sl_entry_eq(v1, v2),
    ensures
        sl_pairs_eqv(sorted_insert(s1, k, v1), sorted_insert(s2, k, v2)),
    decreases s1.len(),
{
    let r1 = sorted_insert(s1, k, v1);
    let r2 = sorted_insert(s2, k, v2);
    if s1.len() == 0 {
        assert(r1 == seq![(k, v1)] && r2 == seq![(k, v2)]);
        assert forall|i: int| 0 <= i < r1.len() implies (#[trigger] r1[i]).0 == r2[i].0 && sl_entry_eq(r1[i].1, r2[i].1) by {}
    } else {
        assert(s1[0].0 == s2[0].0 && sl_entry_eq(s1[0].1, s2[0].1));
        let d1 = s1.drop_first();
        let d2 = s2.drop_first();
        assert forall|i: int| 0 <= i < d1.len() implies (#[trigger] d1[i]).0 == d2[i].0 && sl_entry_eq(d1[i].1, d2[i].1) by {
            assert(d1[i] == s1[i + 1] && d2[i] == s2[i + 1]);
            assert(s1[i + 1].0 == s2[i + 1].0 && sl_entry_eq(s1[i + 1].1, s2[i + 1].1));
        }
        if crate::text::lex_lt(s1[0].0@, k@) {
            lemma_sorted_insert_sl_eqv(d1, d2, k, v1, v2);
            let rd1 = sorted_insert(d1, k, v1);
            let rd2 = sorted_insert(d2, k, v2);
            assert(r1 == seq![s1[0]] + rd1 && r2 == seq![s2[0]] + rd2);
            assert forall|i: int| 0 <= i < r1.len() implies (#[trigger] r1[i]).0 == r2[i].0 && sl_entry_eq(r1[i].1, r2[i].1) by {
                if i > 0 {
                    assert(r1[i] == rd1[i - 1] && r2[i] == rd2[i - 1]);
                }
            }
        } else if s1[0].0@ == k@ {
            assert(r1 == seq![(k, v1)] + d1 && r2 == seq![(k, v2)] + d2);
            assert forall|i: int| 0 <= i < r1.len() implies (#[trigger] r1[i]).0 == r2[i].0 && sl_entry_eq(r1[i].1, r2[i].1) by {
                if i > 0 {
                    assert(r1[i] == d1[i - 1] && r2[i] == d2[i - 1]);
                }
            }
        } else {
            assert(r1 == seq![(k, v1)] + s1 && r2 == seq![(k, v2)] + s2);
            assert forall|i: int| 0 <= i < r1.len() implies (#[trigger] r1[i]).0 == r2[i].0 && sl_entry_eq(r1[i].1, r2[i].1) by {
                if i > 0 {
                    assert(r1[i] == s1[i - 1] && r2[i] == s2[i - 1]);
                }
            }
        }
    }
}

/// First pass, one old link: a fully surviving link needs nothing; a site
/// still present with other content is altered to the new list's link,
/// under `alter`; a vanished site is removed, under `remove`, carrying the
/// old link for identification.
pub open spec fn sl_r1_step(m: Seq<(String, SiteLinkEntry)>, s1: SiteLink, sl2: Seq<SiteLink>, p: EntityDiffParam) -> Seq<(String, SiteLinkEntry)> {
    if sl_pair_in(sl2, s1) {
        m
    } else if sl_site_in(sl2, s1.site@) {
        if p.spec_valid(s1.site@, ScopeAction::Alter) {
            let e2 = sl2[crate::model::first_site_from(sl2, s1.site@, 0)];
            sorted_insert(m, e2.site, sl_entry_of(e2, false))
        } else {
            m
        }
    } else if p.spec_valid(s1.site@, ScopeAction::Remove) {
        sorted_insert(m, s1.site, sl_entry_of(s1, true))
    } else {
        m
    }
}

/// First site-link pass over the first `i` old links.
pub open spec fn sl_r1(sl1: Seq<SiteLink>, sl2: Seq<SiteLink>, p: EntityDiffParam, i: int) -> Seq<(String, SiteLinkEntry)>
    decreases i,
{
    if i <= 0 {
        Seq::empty()
    } else {
        sl_r1_step(sl_r1(sl1, sl2, p, i - 1), sl1[i - 1], sl2, p)
    }
}

/// Second pass, one new link: a link without a deep-equal counterpart in
/// the old list is written under `add` for its site.
pub open spec fn sl_r2_step(m: Seq<(String, SiteLinkEntry)>, s2: SiteLink, sl1: Seq<SiteLink>, p: EntityDiffParam) -> Seq<(String, SiteLinkEntry)> {
    if sl_pair_in(sl1, s2) {
        m
    } else if p.spec_valid(s2.site@, ScopeAction::Add) {
        sorted_insert(m, s2.site, sl_entry_of(s2, false))
    } else {
        m
    }
}

/// Second site-link pass over the first `i` new links.
pub open spec fn sl_r2(sl1: Seq<SiteLink>, sl2: Seq<SiteLink>, p: EntityDiffParam, m0: Seq<(String, SiteLinkEntry)>, i: int) -> Seq<(String, SiteLinkEntry)>
    decreases i,
{
    if i <= 0 {
        m0
    } else {
        sl_r2_step(sl_r2(sl1, sl2, p, m0, i - 1), sl2[i - 1], sl1, p)
    }
}

/// Degenerate pass: the new entity has no site-link set, so every old link
/// is removed, under `remove`.
pub open spec fn sl_remove_all(sl1: Seq<SiteLink>, p: EntityDiffParam, i: int) -> Seq<(String, SiteLinkEntry)>
    decreases i,
{
    if i <= 0 {
        Seq::empty()
    } else {
        let m = sl_remove_all(sl1, p, i - 1);
        let s1 = sl1[i - 1];
        if p.spec_valid(s1.site@, ScopeAction::Remove) {
            sorted_insert(m, s1.site, sl_entry_of(s1, true))
        } else {
            m
        }
    }
}

/// Degenerate pass: the old entity has no site-link set, so every new link
/// is added, under `add`.
pub open spec fn sl_add_all(sl2: Seq<SiteLink>, p: EntityDiffParam, i: int) -> Seq<(String, SiteLinkEntry)>
    decreases i,
{
    if i <= 0 {
        Seq::empty()
    } else {
        let m = sl_add_all(sl2, p, i - 1);
        let s2 = sl2[i - 1];
        if p.spec_valid(s2.site@, ScopeAction::Add) {
            sorted_insert(m, s2.site, sl_entry_of(s2, false))
        } else {
            m
        }
    }
}

/// The whole site-link diff, with the two degenerate cases.
pub open spec fn spec_diff_sitelinks(o1: Option<Vec<SiteLink>>, o2: Option<Vec<SiteLink>>, p: EntityDiffParam) -> Seq<(String, SiteLinkEntry)> {
    match o1 {
        Option::Some(sl1) => match o2 {
            Option::Some(sl2) => sl_r2(sl1@, sl2@, p, sl_r1(sl1@, sl2@, p, sl1@.len() as int), sl2@.len() as int),
            Option::None => sl_remove_all(sl1@, p, sl1@.len() as int),
        },
        Option::None => match o2 {
            Option::Some(sl2) => sl_add_all(sl2@, p, sl2@.len() as int),
            Option::None => Seq::empty(),
        },
    }
}

/// Whether the two badge lists hold the same ids in the same order.
fn badges_eq_exec(a: &Vec<String>, b: &Vec<String>) -> (r: bool)
    ensures
        r == (a@.len() == b@.len() && forall|i: int| 0 <= i < a@.len() ==> (#[trigger] a@[i])@ == b@[i]@),
{
    if a.len() != b.len() {
        return false;
    }
    let mut i: usize = 0;
    while i < a.len()
        invariant
            0 <= i <= a@.len(),
            a@.len() == b@.len(),
            forall|k: int| 0 <= k < i ==> (#[trigger] a@[k])@ == b@[k]@,
        decreases a@.len() - i,
    {
        if a[i] != b[i] {
            return false;
        }
        i += 1;
    }
    true
}

/// Whether some link of `l` deep-equals `s`.
fn sl_pair_in_exec(l: &Vec<SiteLink>, s: &SiteLink) -> (r: bool)
    ensures
        r == sl_pair_in(l@, *s),
{
    let mut j: usize = 0;
    while j < l.len()
        invariant
            0 <= j <= l@.len(),
            forall|k: int| 0 <= k < j ==> !sl_same(#[trigger] l@[k], *s),
        decreases l@.len() - j,
    {
        if l[j].site == s.site && l[j].title == s.title && badges_eq_exec(&l[j].badges, &s.badges) {
            proof {
                assert(sl_same(l@[j as int], *s));
            }
            return true;
        }
        j += 1;
    }
    false
}

/// The first link of `l` for this site, if any.
fn sl_first_site(l: &Vec<SiteLink>, site: &String) -> (r: Option<usize>)
    ensures
        match r {
            Option::Some(j) => {
                &&& 0 <= j < l@.len()
                &&& crate::model::first_site_from(l@, site@, 0) == j as int
                &&& l@[j as int].site@ == site@
                &&& sl_site_in(l@, site@)
            },
            Option::None => {
                &&& crate::model::first_site_from(l@, site@, 0) == -1
                &&& !sl_site_in(l@, site@)
            },
        },
{
    let mut j: usize = 0;
    while j < l.len()
        invariant
            0 <= j <= l@.len(),
            forall|k: int| 0 <= k < j ==> l@[k].site@ != site@,
        decreases l@.len() - j,
    {
        if l[j].site == *site {
            proof {
                crate::model::lemma_first_site_from(l@, site@, 0);
                let fi = crate::model::first_site_from(l@, site@, 0);
                if fi == -1 {
                    assert(false);
                } else if fi < j as int {
                    assert(l@[fi].site@ != site@);
                    assert(false);
                } else if fi > j as int {
                    assert(l@[j as int].site@ != site@);
                    assert(false);
                }
            }
            return Some(j);
        }
        j += 1;
    }
    proof {
        crate::model::lemma_first_site_from(l@, site@, 0);
        let fi = crate::model::first_site_from(l@, site@, 0);
        if fi != -1 {
            assert(l@[fi].site@ == site@);
            assert(false);
        }
    }
    None
}

/// Copies a badge list.
fn clone_badges(b: &Vec<String>) -> (r: Vec<String>)
    ensures
        r@ == b@,
{
    let mut r: Vec<String> = Vec::new();
    let mut i: usize = 0;
    while i < b.len()
        invariant
            0 <= i <= b@.len(),
            r@.len() == i,
            forall|k: int| 0 <= k < i ==> r@[k] == b@[k],
        decreases b@.len() - i,
    {
        r.push(b[i].clone());
        i += 1;
    }
    proof {
        assert(r@ =~= b@);
    }
    r
}

/// The keyed site-link action for `s`.
fn sl_entry_exec(s: &SiteLink, remove: bool) -> (r: SiteLinkEntry)
    ensures
        sl_entry_eq(r, sl_entry_of(*s, remove)),
{
    SiteLinkEntry { site: s.site.clone(), title: s.title.clone(), badges: clone_badges(&s.badges), remove }
}

/// Runs the site-link diff into `section`, handling the degenerate cases.
fn diff_sitelinks_in(section: &mut KeyedVec<SiteLinkEntry>, o1: &Option<Vec<SiteLink>>, o2: &Option<Vec<SiteLink>>, p: &EntityDiffParam)
    requires
        old(section).wf(),
        old(section).entries@.len() == 0,
    ensures
        sl_pairs_eqv(final(section).entries@, spec_diff_sitelinks(*o1, *o2, *p)),
        final(section).wf(),
{
    match o1 {
        Option::Some(sl1) => match o2 {
            Option::Some(sl2) => {
                let mut i: usize = 0;
                while i < sl1.len()
                    invariant
                        section.wf(),
                        sl_pairs_eqv(section.entries@, sl_r1(sl1@, sl2@, *p, i as int)),
                        0 <= i <= sl1@.len(),
                    decreases sl1@.len() - i,
                {
                    let s1 = &sl1[i];
                    if sl_pair_in_exec(sl2, s1) {
                    } else {
                        match sl_first_site(sl2, &s1.site) {
                            Option::Some(j) => {
                                if p.valid(s1.site.as_str(), ScopeAction::Alter) {
                                    let e2 = &sl2[j];
                                    proof {
                                        lemma_sorted_insert_sl_eqv(section.entries@, sl_r1(sl1@, sl2@, *p, i as int), e2.site, sl_entry_of(*e2, false), sl_entry_of(*e2, false));
                                    }
                                    let entry = sl_entry_exec(e2, false);
                                    proof {
                                        lemma_sorted_insert_sl_eqv(section.entries@, sl_r1(sl1@, sl2@, *p, i as int), e2.site, entry, sl_entry_of(*e2, false));
                                    }
                                    section.insert(e2.site.clone(), entry);
                                }
                            },
                            Option::None => {
                                if p.valid(s1.site.as_str(), ScopeAction::Remove) {
                                    let entry = sl_entry_exec(s1, true);
                                    proof {
                                        lemma_sorted_insert_sl_eqv(section.entries@, sl_r1(sl1@, sl2@, *p, i as int), s1.site, entry, sl_entry_of(*s1, true));
                                    }
                                    section.insert(s1.site.clone(), entry);
                                }
                            },
                        }
                    }
                    proof {
                        assert(sl_pairs_eqv(section.entries@, sl_r1(sl1@, sl2@, *p, i as int + 1)));
                    }
                    i += 1;
                }
                let ghost m1 = sl_r1(sl1@, sl2@, *p, sl1@.len() as int);
                let mut i2: usize = 0;
                while i2 < sl2.len()
                    invariant
                        section.wf(),
                        sl_pairs_eqv(section.entries@, sl_r2(sl1@, sl2@, *p, m1, i2 as int)),
                        0 <= i2 <= sl2@.len(),
                        m1 == sl_r1(sl1@, sl2@, *p, sl1@.len() as int),
                    decreases sl2@.len() - i2,
                {
                    let s2 = &sl2[i2];
                    if !sl_pair_in_exec(sl1, s2) {
                        if p.valid(s2.site.as_str(), ScopeAction::Add) {
                            let entry = sl_entry_exec(s2, false);
                            proof {
                                lemma_sorted_insert_sl_eqv(section.entries@, sl_r2(sl1@, sl2@, *p, m1, i2 as int), s2.site, entry, sl_entry_of(*s2, false));
                            }
                            section.insert(s2.site.clone(), entry);
                        }
                    }
                    proof {
                        assert(sl_pairs_eqv(section.entries@, sl_r2(sl1@, sl2@, *p, m1, i2 as int + 1)));
                    }
                    i2 += 1;
                }
            },
            Option::None => {
                let mut i: usize = 0;
                while i < sl1.len()
                    invariant
                        section.wf(),
                        sl_pairs_eqv(section.entries@, sl_remove_all(sl1@, *p, i as int)),
                        0 <= i <= sl1@.len(),
                    decreases sl1@.len() - i,
                {
                    let s1 = &sl1[i];
                    if p.valid(s1.site.as_str(), ScopeAction::Remove) {
                        let entry = sl_entry_exec(s1, true);
                        proof {
                            lemma_sorted_insert_sl_eqv(section.entries@, sl_remove_all(sl1@, *p, i as int), s1.site, entry, sl_entry_of(*s1, true));
                        }
                        section.insert(s1.site.clone(), entry);
                    }
                    proof {
                        assert(sl_pairs_eqv(section.entries@, sl_remove_all(sl1@, *p, i as int + 1)));
                    }
                    i += 1;
                }
            },
        },
        Option::None => match o2 {
            Option::Some(sl2) => {
                let mut i: usize = 0;
                while i < sl2.len()
                    invariant
                        section.wf(),
                        sl_pairs_eqv(section.entries@, sl_add_all(sl2@, *p, i as int)),
                        0 <= i <= sl2@.len(),
                    decreases sl2@.len() - i,
                {
                    let s2 = &sl2[i];
                    if p.valid(s2.site.as_str(), ScopeAction::Add) {
                        let entry = sl_entry_exec(s2, false);
                        proof {
                            lemma_sorted_insert_sl_eqv(section.entries@, sl_add_all(sl2@, *p, i as int), s2.site, entry, sl_entry_of(*s2, false));
                        }
                        section.insert(s2.site.clone(), entry);
                    }
                    proof {
                        assert(sl_pairs_eqv(section.entries@, sl_add_all(sl2@, *p, i as int + 1)));
                    }
                    i += 1;
                }
            },
            Option::None => {},
        },
    }
}

// ---------------------------------------------------------------------------
// The diff itself
// ---------------------------------------------------------------------------

/// The computed, immutable patch between two entity snapshots.
#[derive(Debug)]
pub struct EntityDiff {
    pub patch: Patch,
}

impl EntityDiff {
    /// Compares the two snapshots section by section and keeps the actions
    /// the scope authorizes.
    pub fn new(i1: &Entity, i2: &Entity, params: &EntityDiffParams) -> (r: EntityDiff)
        ensures
            r.patch.labels.entries@ == spec_diff_locales(i1.labels@, i2.labels@, params.labels),
            r.patch.descriptions.entries@ == spec_diff_locales(i1.descriptions@, i2.descriptions@, params.descriptions),
            r.patch.aliases@ == spec_diff_aliases(i1.aliases@, i2.aliases@, params.aliases),
            claims_eqv(r.patch.claims@, spec_diff_claims(i1.claims@, i2.claims@, params.claims)),
            sl_pairs_eqv(r.patch.sitelinks.entries@, spec_diff_sitelinks(i1.sitelinks, i2.sitelinks, params.sitelinks)),
            r.patch.wf(),
    {
        let mut patch = Patch::new();
        diff_locales_keyed(&mut patch.labels, &i1.labels, &i2.labels, &params.labels);
        diff_locales_keyed(&mut patch.descriptions, &i1.descriptions, &i2.descriptions, &params.descriptions);
        diff_aliases_list(&mut patch.aliases, &i1.aliases, &i2.aliases, &params.aliases);
        diff_claims_list(&mut patch.claims, &i1.claims, &i2.claims, &params.claims);
        diff_sitelinks_in(&mut patch.sitelinks, &i1.sitelinks, &i2.sitelinks, &params.sitelinks);
        EntityDiff { patch }
    }

    /// The patch document.
    pub fn actions(&self) -> (r: &Patch)
        ensures
            r == &self.patch,
    {
        &self.patch
    }

    /// The patch document in its JSON wire form.
    pub fn as_str(&self) -> (r: String)
        ensures
            r@ == patch_json(self.patch),
    {
        patch_to_json(&self.patch)
    }
}

} // verus!

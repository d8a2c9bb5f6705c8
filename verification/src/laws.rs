//! The general properties of the diff engine, stated and proved over the
//! per-section diff specifications that `EntityDiff::new` is verified
//! against.

use vstd::prelude::*;
use crate::model::{LocaleString, SiteLink, Statement, Entity, TimeValue, QuantityValue, CoordinateValue, Value, unique_langs, unique_sites, first_lang_from, lemma_first_lang_from, first_site_from, lemma_first_site_from};
use crate::scope::{ScopeAction, EntityDiffParam, EntityDiffParams, star, list_has};
use crate::compare::{Comparison, values_same, spec_compare_statements, lemma_compare_statements_refl};
use crate::patch::{LocaleEntry, SiteLinkEntry, ClaimEntry, lookup, keys_sorted, sorted_insert, lemma_lookup_sorted_insert, lemma_sorted_insert_sorted};
use crate::entity_diff::{
    locale_r1, locale_r2, spec_diff_locales,
    alias_r1, alias_r2, spec_diff_aliases,
    claims_r1, claims_r2, spec_diff_claims,
    sl_r1, sl_r2, sl_remove_all, sl_add_all, spec_diff_sitelinks,
    sl_same, sl_pair_in, sl_site_in, sl_entry_of,
    locale_pair_in, locale_lang_in, locale_alter_entry, locale_remove_entry, locale_add_entry,
    any_same_to, first_similar_from, any_match_from,
};

verus! {

// ---------------------------------------------------------------------------
// Idempotence: diffing an entity against itself yields the empty patch,
// under any scope.
// ---------------------------------------------------------------------------

proof fn lemma_locale_r1_self(l: Seq<LocaleString>, p: EntityDiffParam, i: int)
    requires
        0 <= i <= l.len(),
    ensures
        locale_r1(l, l, p, i) == Seq::<(String, LocaleEntry)>::empty(),
    decreases i,
{
    if i > 0 {
        lemma_locale_r1_self(l, p, i - 1);
        assert(l[i - 1].language@ == l[i - 1].language@ && l[i - 1].value@ == l[i - 1].value@);
    }
}

proof fn lemma_locale_r2_self(l: Seq<LocaleString>, p: EntityDiffParam, m0: Seq<(String, LocaleEntry)>, i: int)
    requires
        0 <= i <= l.len(),
    ensures
        locale_r2(l, l, p, m0, i) == m0,
    decreases i,
{
    if i > 0 {
        lemma_locale_r2_self(l, p, m0, i - 1);
        assert(l[i - 1].language@ == l[i - 1].language@);
    }
}

proof fn lemma_alias_r1_self(l: Seq<LocaleString>, p: EntityDiffParam, i: int)
    requires
        0 <= i <= l.len(),
    ensures
        alias_r1(l, l, p, i) == Seq::<LocaleEntry>::empty(),
    decreases i,
{
    if i > 0 {
        lemma_alias_r1_self(l, p, i - 1);
        assert(l[i - 1].language@ == l[i - 1].language@ && l[i - 1].value@ == l[i - 1].value@);
    }
}

proof fn lemma_alias_r2_self(l: Seq<LocaleString>, p: EntityDiffParam, a0: Seq<LocaleEntry>, i: int)
    requires
        0 <= i <= l.len(),
    ensures
        alias_r2(l, l, p, a0, i) == a0,
    decreases i,
{
    if i > 0 {
        lemma_alias_r2_self(l, p, a0, i - 1);
        assert(l[i - 1].language@ == l[i - 1].language@ && l[i - 1].value@ == l[i - 1].value@);
    }
}

proof fn lemma_claims_r1_self(cs: Seq<Statement>, p: EntityDiffParam, i: int)
    requires
        0 <= i <= cs.len(),
    ensures
        claims_r1(cs, cs, p, i) == Seq::<ClaimEntry>::empty(),
    decreases i,
{
    if i > 0 {
        lemma_claims_r1_self(cs, p, i - 1);
        lemma_compare_statements_refl(cs[i - 1]);
        assert(spec_compare_statements(cs[i - 1], cs[i - 1]) == Comparison::Same);
    }
}

proof fn lemma_claims_r2_self(cs: Seq<Statement>, p: EntityDiffParam, a0: Seq<ClaimEntry>, i: int)
    requires
        0 <= i <= cs.len(),
    ensures
        claims_r2(cs, cs, p, a0, i) == a0,
    decreases i,
{
    if i > 0 {
        lemma_claims_r2_self(cs, p, a0, i - 1);
        lemma_compare_statements_refl(cs[i - 1]);
        assert(spec_compare_statements(cs[i - 1], cs[i - 1]) == Comparison::Same);
    }
}

proof fn lemma_sl_r1_self(sl: Seq<SiteLink>, p: EntityDiffParam, i: int)
    requires
        0 <= i <= sl.len(),
    ensures
        sl_r1(sl, sl, p, i) == Seq::<(String, SiteLinkEntry)>::empty(),
    decreases i,
{
    if i > 0 {
        lemma_sl_r1_self(sl, p, i - 1);
        assert(sl_same(sl[i - 1], sl[i - 1]));
    }
}

proof fn lemma_sl_r2_self(sl: Seq<SiteLink>, p: EntityDiffParam, m0: Seq<(String, SiteLinkEntry)>, i: int)
    requires
        0 <= i <= sl.len(),
    ensures
        sl_r2(sl, sl, p, m0, i) == m0,
    decreases i,
{
    if i > 0 {
        lemma_sl_r2_self(sl, p, m0, i - 1);
        assert(sl_same(sl[i - 1], sl[i - 1]));
    }
}

/// Idempotence: for any entity and any scope, the diff of the entity
/// against itself is the empty patch, section by section.
pub proof fn lemma_diff_idempotent(e: Entity, params: EntityDiffParams)
    ensures
        spec_diff_locales(e.labels@, e.labels@, params.labels) == Seq::<(String, LocaleEntry)>::empty(),
        spec_diff_locales(e.descriptions@, e.descriptions@, params.descriptions) == Seq::<(String, LocaleEntry)>::empty(),
        spec_diff_aliases(e.aliases@, e.aliases@, params.aliases) == Seq::<LocaleEntry>::empty(),
        spec_diff_claims(e.claims@, e.claims@, params.claims) == Seq::<ClaimEntry>::empty(),
        spec_diff_sitelinks(e.sitelinks, e.sitelinks, params.sitelinks) == Seq::<(String, SiteLinkEntry)>::empty(),
{
    lemma_locale_r1_self(e.labels@, params.labels, e.labels@.len() as int);
    lemma_locale_r2_self(e.labels@, params.labels, Seq::empty(), e.labels@.len() as int);
    lemma_locale_r1_self(e.descriptions@, params.descriptions, e.descriptions@.len() as int);
    lemma_locale_r2_self(e.descriptions@, params.descriptions, Seq::empty(), e.descriptions@.len() as int);
    lemma_alias_r1_self(e.aliases@, params.aliases, e.aliases@.len() as int);
    lemma_alias_r2_self(e.aliases@, params.aliases, Seq::empty(), e.aliases@.len() as int);
    lemma_claims_r1_self(e.claims@, params.claims, e.claims@.len() as int);
    lemma_claims_r2_self(e.claims@, params.claims, Seq::empty(), e.claims@.len() as int);
    match e.sitelinks {
        Option::Some(sl) => {
            lemma_sl_r1_self(sl@, params.sitelinks, sl@.len() as int);
            lemma_sl_r2_self(sl@, params.sitelinks, Seq::empty(), sl@.len() as int);
        },
        Option::None => {},
    }
}

// ---------------------------------------------------------------------------
// A scope that authorizes nothing yields the empty patch.
// ---------------------------------------------------------------------------

proof fn lemma_locale_none(l1: Seq<LocaleString>, l2: Seq<LocaleString>, p: EntityDiffParam, i1: int, i2: int)
    requires
        forall|k: Seq<char>, a: ScopeAction| !p.spec_valid(k, a),
        0 <= i1 <= l1.len(),
        0 <= i2 <= l2.len(),
    ensures
        locale_r1(l1, l2, p, i1) == Seq::<(String, LocaleEntry)>::empty(),
        locale_r2(l1, l2, p, Seq::empty(), i2) == Seq::<(String, LocaleEntry)>::empty(),
    decreases i1 + i2,
{
    if i1 > 0 {
        lemma_locale_none(l1, l2, p, i1 - 1, 0);
    }
    if i2 > 0 {
        lemma_locale_none(l1, l2, p, i1, i2 - 1);
    }
}

proof fn lemma_alias_none(l1: Seq<LocaleString>, l2: Seq<LocaleString>, p: EntityDiffParam, i1: int, i2: int)
    requires
        forall|k: Seq<char>, a: ScopeAction| !p.spec_valid(k, a),
        0 <= i1 <= l1.len(),
        0 <= i2 <= l2.len(),
    ensures
        alias_r1(l1, l2, p, i1) == Seq::<LocaleEntry>::empty(),
        alias_r2(l1, l2, p, Seq::empty(), i2) == Seq::<LocaleEntry>::empty(),
    decreases i1 + i2,
{
    if i1 > 0 {
        lemma_alias_none(l1, l2, p, i1 - 1, 0);
    }
    if i2 > 0 {
        lemma_alias_none(l1, l2, p, i1, i2 - 1);
    }
}

proof fn lemma_claims_none(cs1: Seq<Statement>, cs2: Seq<Statement>, p: EntityDiffParam, i1: int, i2: int)
    requires
        forall|k: Seq<char>, a: ScopeAction| !p.spec_valid(k, a),
        0 <= i1 <= cs1.len(),
        0 <= i2 <= cs2.len(),
    ensures
        claims_r1(cs1, cs2, p, i1) == Seq::<ClaimEntry>::empty(),
        claims_r2(cs1, cs2, p, Seq::empty(), i2) == Seq::<ClaimEntry>::empty(),
    decreases i1 + i2,
{
    if i1 > 0 {
        lemma_claims_none(cs1, cs2, p, i1 - 1, 0);
    }
    if i2 > 0 {
        lemma_claims_none(cs1, cs2, p, i1, i2 - 1);
    }
}

proof fn lemma_sl_none(sl1: Seq<SiteLink>, sl2: Seq<SiteLink>, p: EntityDiffParam, i1: int, i2: int)
    requires
        forall|k: Seq<char>, a: ScopeAction| !p.spec_valid(k, a),
        0 <= i1 <= sl1.len(),
        0 <= i2 <= sl2.len(),
    ensures
        sl_r1(sl1, sl2, p, i1) == Seq::<(String, SiteLinkEntry)>::empty(),
        sl_r2(sl1, sl2, p, Seq::empty(), i2) == Seq::<(String, SiteLinkEntry)>::empty(),
        sl_remove_all(sl1, p, i1) == Seq::<(String, SiteLinkEntry)>::empty(),
        sl_add_all(sl2, p, i2) == Seq::<(String, SiteLinkEntry)>::empty(),
    decreases i1 + i2,
{
    if i1 > 0 {
        lemma_sl_none(sl1, sl2, p, i1 - 1, 0);
    }
    if i2 > 0 {
        lemma_sl_none(sl1, sl2, p, i1, i2 - 1);
    }
}

/// A scope that authorizes nothing yields the empty patch, whatever the two
/// entities hold: every difference is silently omitted.
pub proof fn lemma_diff_unauthorized_empty(e1: Entity, e2: Entity, params: EntityDiffParams)
    requires
        forall|k: Seq<char>, a: ScopeAction| !params.labels.spec_valid(k, a),
        forall|k: Seq<char>, a: ScopeAction| !params.descriptions.spec_valid(k, a),
        forall|k: Seq<char>, a: ScopeAction| !params.aliases.spec_valid(k, a),
        forall|k: Seq<char>, a: ScopeAction| !params.claims.spec_valid(k, a),
        forall|k: Seq<char>, a: ScopeAction| !params.sitelinks.spec_valid(k, a),
    ensures
        spec_diff_locales(e1.labels@, e2.labels@, params.labels) == Seq::<(String, LocaleEntry)>::empty(),
        spec_diff_locales(e1.descriptions@, e2.descriptions@, params.descriptions) == Seq::<(String, LocaleEntry)>::empty(),
        spec_diff_aliases(e1.aliases@, e2.aliases@, params.aliases) == Seq::<LocaleEntry>::empty(),
        spec_diff_claims(e1.claims@, e2.claims@, params.claims) == Seq::<ClaimEntry>::empty(),
        spec_diff_sitelinks(e1.sitelinks, e2.sitelinks, params.sitelinks) == Seq::<(String, SiteLinkEntry)>::empty(),
{
    lemma_locale_none(e1.labels@, e2.labels@, params.labels, e1.labels@.len() as int, e2.labels@.len() as int);
    lemma_locale_none(e1.descriptions@, e2.descriptions@, params.descriptions, e1.descriptions@.len() as int, e2.descriptions@.len() as int);
    lemma_alias_none(e1.aliases@, e2.aliases@, params.aliases, e1.aliases@.len() as int, e2.aliases@.len() as int);
    lemma_claims_none(e1.claims@, e2.claims@, params.claims, e1.claims@.len() as int, e2.claims@.len() as int);
    let empty_sl: Seq<SiteLink> = Seq::empty();
    match e1.sitelinks {
        Option::Some(sl1) => match e2.sitelinks {
            Option::Some(sl2) => {
                lemma_sl_none(sl1@, sl2@, params.sitelinks, sl1@.len() as int, sl2@.len() as int);
            },
            Option::None => {
                lemma_sl_none(sl1@, empty_sl, params.sitelinks, sl1@.len() as int, 0);
            },
        },
        Option::None => match e2.sitelinks {
            Option::Some(sl2) => {
                lemma_sl_none(empty_sl, sl2@, params.sitelinks, 0, sl2@.len() as int);
            },
            Option::None => {},
        },
    }
}

// ---------------------------------------------------------------------------
// Wildcard equivalence: the diff consults the scope only through `valid`,
// and a list holding the wildcard validates every key.
// ---------------------------------------------------------------------------

/// A scope list holding the wildcard authorizes its action for every key.
pub proof fn lemma_star_authorizes(p: EntityDiffParam, a: ScopeAction)
    requires
        list_has(p.action_list(a), star()),
    ensures
        forall|k: Seq<char>| p.spec_valid(k, a),
{
}

proof fn lemma_locale_agree(l1: Seq<LocaleString>, l2: Seq<LocaleString>, p: EntityDiffParam, q: EntityDiffParam, i1: int, i2: int, m0: Seq<(String, LocaleEntry)>)
    requires
        forall|j: int, a: ScopeAction| 0 <= j < l1.len() ==> (#[trigger] p.spec_valid(l1[j].language@, a)) == (#[trigger] q.spec_valid(l1[j].language@, a)),
        forall|j: int, a: ScopeAction| 0 <= j < l2.len() ==> (#[trigger] p.spec_valid(l2[j].language@, a)) == (#[trigger] q.spec_valid(l2[j].language@, a)),
        0 <= i1 <= l1.len(),
        0 <= i2 <= l2.len(),
    ensures
        locale_r1(l1, l2, p, i1) == locale_r1(l1, l2, q, i1),
        locale_r2(l1, l2, p, m0, i2) == locale_r2(l1, l2, q, m0, i2),
    decreases i1 + i2,
{
    if i1 > 0 {
        lemma_locale_agree(l1, l2, p, q, i1 - 1, 0, m0);
    }
    if i2 > 0 {
        lemma_locale_agree(l1, l2, p, q, i1, i2 - 1, m0);
    }
}

proof fn lemma_alias_agree(l1: Seq<LocaleString>, l2: Seq<LocaleString>, p: EntityDiffParam, q: EntityDiffParam, i1: int, i2: int, a0: Seq<LocaleEntry>)
    requires
        forall|j: int, a: ScopeAction| 0 <= j < l1.len() ==> (#[trigger] p.spec_valid(l1[j].language@, a)) == (#[trigger] q.spec_valid(l1[j].language@, a)),
        forall|j: int, a: ScopeAction| 0 <= j < l2.len() ==> (#[trigger] p.spec_valid(l2[j].language@, a)) == (#[trigger] q.spec_valid(l2[j].language@, a)),
        0 <= i1 <= l1.len(),
        0 <= i2 <= l2.len(),
    ensures
        alias_r1(l1, l2, p, i1) == alias_r1(l1, l2, q, i1),
        alias_r2(l1, l2, p, a0, i2) == alias_r2(l1, l2, q, a0, i2),
    decreases i1 + i2,
{
    if i1 > 0 {
        lemma_alias_agree(l1, l2, p, q, i1 - 1, 0, a0);
    }
    if i2 > 0 {
        lemma_alias_agree(l1, l2, p, q, i1, i2 - 1, a0);
    }
}

proof fn lemma_claims_agree(cs1: Seq<Statement>, cs2: Seq<Statement>, p: EntityDiffParam, q: EntityDiffParam, i1: int, i2: int, a0: Seq<ClaimEntry>)
    requires
        forall|j: int, a: ScopeAction| 0 <= j < cs1.len() ==> (#[trigger] p.spec_valid(cs1[j].main_snak.property@, a)) == (#[trigger] q.spec_valid(cs1[j].main_snak.property@, a)),
        forall|j: int, a: ScopeAction| 0 <= j < cs2.len() ==> (#[trigger] p.spec_valid(cs2[j].main_snak.property@, a)) == (#[trigger] q.spec_valid(cs2[j].main_snak.property@, a)),
        0 <= i1 <= cs1.len(),
        0 <= i2 <= cs2.len(),
    ensures
        claims_r1(cs1, cs2, p, i1) == claims_r1(cs1, cs2, q, i1),
        claims_r2(cs1, cs2, p, a0, i2) == claims_r2(cs1, cs2, q, a0, i2),
    decreases i1 + i2,
{
    if i1 > 0 {
        lemma_claims_agree(cs1, cs2, p, q, i1 - 1, 0, a0);
    }
    if i2 > 0 {
        lemma_claims_agree(cs1, cs2, p, q, i1, i2 - 1, a0);
    }
}

proof fn lemma_sl_agree(sl1: Seq<SiteLink>, sl2: Seq<SiteLink>, p: EntityDiffParam, q: EntityDiffParam, i1: int, i2: int, m0: Seq<(String, SiteLinkEntry)>)
    requires
        forall|j: int, a: ScopeAction| 0 <= j < sl1.len() ==> (#[trigger] p.spec_valid(sl1[j].site@, a)) == (#[trigger] q.spec_valid(sl1[j].site@, a)),
        forall|j: int, a: ScopeAction| 0 <= j < sl2.len() ==> (#[trigger] p.spec_valid(sl2[j].site@, a)) == (#[trigger] q.spec_valid(sl2[j].site@, a)),
        0 <= i1 <= sl1.len(),
        0 <= i2 <= sl2.len(),
    ensures
        sl_r1(sl1, sl2, p, i1) == sl_r1(sl1, sl2, q, i1),
        sl_r2(sl1, sl2, p, m0, i2) == sl_r2(sl1, sl2, q, m0, i2),
        sl_remove_all(sl1, p, i1) == sl_remove_all(sl1, q, i1),
        sl_add_all(sl2, p, i2) == sl_add_all(sl2, q, i2),
    decreases i1 + i2,
{
    if i1 > 0 {
        lemma_sl_agree(sl1, sl2, p, q, i1 - 1, 0, m0);
    }
    if i2 > 0 {
        lemma_sl_agree(sl1, sl2, p, q, i1, i2 - 1, m0);
    }
}

/// Wildcard equivalence: two scopes that authorize the same actions for
/// every key that occurs in the run produce the same patch. In particular,
/// a scope entry whose lists hold the wildcard behaves exactly like one
/// that lists every occurring key explicitly, since by
/// `lemma_star_authorizes` both validate every such key.
pub proof fn lemma_diff_scope_agreement(e1: Entity, e2: Entity, p: EntityDiffParams, q: EntityDiffParams)
    requires
        forall|j: int, a: ScopeAction| 0 <= j < e1.labels@.len() ==> (#[trigger] p.labels.spec_valid(e1.labels@[j].language@, a)) == (#[trigger] q.labels.spec_valid(e1.labels@[j].language@, a)),
        forall|j: int, a: ScopeAction| 0 <= j < e2.labels@.len() ==> (#[trigger] p.labels.spec_valid(e2.labels@[j].language@, a)) == (#[trigger] q.labels.spec_valid(e2.labels@[j].language@, a)),
        forall|j: int, a: ScopeAction| 0 <= j < e1.descriptions@.len() ==> (#[trigger] p.descriptions.spec_valid(e1.descriptions@[j].language@, a)) == (#[trigger] q.descriptions.spec_valid(e1.descriptions@[j].language@, a)),
        forall|j: int, a: ScopeAction| 0 <= j < e2.descriptions@.len() ==> (#[trigger] p.descriptions.spec_valid(e2.descriptions@[j].language@, a)) == (#[trigger] q.descriptions.spec_valid(e2.descriptions@[j].language@, a)),
        forall|j: int, a: ScopeAction| 0 <= j < e1.aliases@.len() ==> (#[trigger] p.aliases.spec_valid(e1.aliases@[j].language@, a)) == (#[trigger] q.aliases.spec_valid(e1.aliases@[j].language@, a)),
        forall|j: int, a: ScopeAction| 0 <= j < e2.aliases@.len() ==> (#[trigger] p.aliases.spec_valid(e2.aliases@[j].language@, a)) == (#[trigger] q.aliases.spec_valid(e2.aliases@[j].language@, a)),
        forall|j: int, a: ScopeAction| 0 <= j < e1.claims@.len() ==> (#[trigger] p.claims.spec_valid(e1.claims@[j].main_snak.property@, a)) == (#[trigger] q.claims.spec_valid(e1.claims@[j].main_snak.property@, a)),
        forall|j: int, a: ScopeAction| 0 <= j < e2.claims@.len() ==> (#[trigger] p.claims.spec_valid(e2.claims@[j].main_snak.property@, a)) == (#[trigger] q.claims.spec_valid(e2.claims@[j].main_snak.property@, a)),
        e1.sitelinks matches Some(sl1) ==> forall|j: int, a: ScopeAction| 0 <= j < sl1@.len() ==> (#[trigger] p.sitelinks.spec_valid(sl1@[j].site@, a)) == (#[trigger] q.sitelinks.spec_valid(sl1@[j].site@, a)),
        e2.sitelinks matches Some(sl2) ==> forall|j: int, a: ScopeAction| 0 <= j < sl2@.len() ==> (#[trigger] p.sitelinks.spec_valid(sl2@[j].site@, a)) == (#[trigger] q.sitelinks.spec_valid(sl2@[j].site@, a)),
    ensures
        spec_diff_locales(e1.labels@, e2.labels@, p.labels) == spec_diff_locales(e1.labels@, e2.labels@, q.labels),
        spec_diff_locales(e1.descriptions@, e2.descriptions@, p.descriptions) == spec_diff_locales(e1.descriptions@, e2.descriptions@, q.descriptions),
        spec_diff_aliases(e1.aliases@, e2.aliases@, p.aliases) == spec_diff_aliases(e1.aliases@, e2.aliases@, q.aliases),
        spec_diff_claims(e1.claims@, e2.claims@, p.claims) == spec_diff_claims(e1.claims@, e2.claims@, q.claims),
        spec_diff_sitelinks(e1.sitelinks, e2.sitelinks, p.sitelinks) == spec_diff_sitelinks(e1.sitelinks, e2.sitelinks, q.sitelinks),
{
    lemma_locale_agree(e1.labels@, e2.labels@, p.labels, q.labels, e1.labels@.len() as int, e2.labels@.len() as int, locale_r1(e1.labels@, e2.labels@, p.labels, e1.labels@.len() as int));
    lemma_locale_agree(e1.descriptions@, e2.descriptions@, p.descriptions, q.descriptions, e1.descriptions@.len() as int, e2.descriptions@.len() as int, locale_r1(e1.descriptions@, e2.descriptions@, p.descriptions, e1.descriptions@.len() as int));
    lemma_alias_agree(e1.aliases@, e2.aliases@, p.aliases, q.aliases, e1.aliases@.len() as int, e2.aliases@.len() as int, alias_r1(e1.aliases@, e2.aliases@, p.aliases, e1.aliases@.len() as int));
    lemma_claims_agree(e1.claims@, e2.claims@, p.claims, q.claims, e1.claims@.len() as int, e2.claims@.len() as int, claims_r1(e1.claims@, e2.claims@, p.claims, e1.claims@.len() as int));
    match e1.sitelinks {
        Option::Some(sl1) => match e2.sitelinks {
            Option::Some(sl2) => {
                lemma_sl_agree(sl1@, sl2@, p.sitelinks, q.sitelinks, sl1@.len() as int, sl2@.len() as int, sl_r1(sl1@, sl2@, p.sitelinks, sl1@.len() as int));
            },
            Option::None => {
                let empty_sl: Seq<SiteLink> = Seq::empty();
                lemma_sl_agree(sl1@, empty_sl, p.sitelinks, q.sitelinks, sl1@.len() as int, 0, Seq::empty());
            },
        },
        Option::None => match e2.sitelinks {
            Option::Some(sl2) => {
                let empty_sl: Seq<SiteLink> = Seq::empty();
                lemma_sl_agree(empty_sl, sl2@, p.sitelinks, q.sitelinks, 0, sl2@.len() as int, Seq::empty());
            },
            Option::None => {},
        },
    }
}

// ---------------------------------------------------------------------------
// Value-kind tolerance: the comparator ignores the metadata fields of each
// value kind.
// ---------------------------------------------------------------------------

/// Two time values that agree on calendar model, precision and time string
/// compare the same, whatever their before, after and timezone fields hold.
pub proof fn lemma_time_tolerance(a: TimeValue, b: TimeValue)
    requires
        a.calendarmodel@ == b.calendarmodel@,
        a.precision@ == b.precision@,
        a.time@ == b.time@,
    ensures
        values_same(Value::Time(a), Value::Time(b)),
{
}

/// Two quantities that agree on amount and unit compare the same, whatever
/// their bounds hold.
pub proof fn lemma_quantity_tolerance(a: QuantityValue, b: QuantityValue)
    requires
        a.amount@ == b.amount@,
        a.unit@ == b.unit@,
    ensures
        values_same(Value::Quantity(a), Value::Quantity(b)),
{
}

/// Two coordinates that agree on globe, latitude and longitude compare the
/// same, whatever their altitude and precision hold.
pub proof fn lemma_coordinate_tolerance(a: CoordinateValue, b: CoordinateValue)
    requires
        a.globe@ == b.globe@,
        a.latitude@ == b.latitude@,
        a.longitude@ == b.longitude@,
    ensures
        values_same(Value::Coordinate(a), Value::Coordinate(b)),
{
}

} // verus!

verus! {

// ---------------------------------------------------------------------------
// Scope monotonicity: widening the scope only widens the patch. A keyed
// section computed under a narrower scope is a submap of the one computed
// under a wider scope; an appended section is a sub-multiset.
// ---------------------------------------------------------------------------

/// Every key of `a` is present in `b` with the same value.
pub open spec fn submap_of<V>(a: Seq<(String, V)>, b: Seq<(String, V)>) -> bool {
    forall|k: Seq<char>| #[trigger] lookup(a, k) is Some ==> lookup(b, k) == lookup(a, k)
}

proof fn lemma_locale_r1_mono(l1: Seq<LocaleString>, l2: Seq<LocaleString>, pr: EntityDiffParam, pq: EntityDiffParam, i: int)
    requires
        unique_langs(l1),
        forall|k: Seq<char>, a: ScopeAction| #[trigger] pr.spec_valid(k, a) ==> pq.spec_valid(k, a),
        0 <= i <= l1.len(),
    ensures
        keys_sorted(locale_r1(l1, l2, pr, i)),
        keys_sorted(locale_r1(l1, l2, pq, i)),
        submap_of(locale_r1(l1, l2, pr, i), locale_r1(l1, l2, pq, i)),
        forall|k: Seq<char>| #[trigger] lookup(locale_r1(l1, l2, pr, i), k) is Some ==> exists|j: int| 0 <= j < i && (#[trigger] l1[j]).language@ == k,
        forall|k: Seq<char>| #[trigger] lookup(locale_r1(l1, l2, pq, i), k) is Some ==> exists|j: int| 0 <= j < i && (#[trigger] l1[j]).language@ == k,
    decreases i,
{
    if i > 0 {
        lemma_locale_r1_mono(l1, l2, pr, pq, i - 1);
        let mr = locale_r1(l1, l2, pr, i - 1);
        let mq = locale_r1(l1, l2, pq, i - 1);
        let mr2 = locale_r1(l1, l2, pr, i);
        let mq2 = locale_r1(l1, l2, pq, i);
        let s1 = l1[i - 1];
        if locale_pair_in(l2, s1) {
            assert(mr2 == mr && mq2 == mq);
        } else if locale_lang_in(l2, s1.language@) {
            lemma_first_lang_from(l2, s1.language@, 0);
            let e2 = l2[first_lang_from(l2, s1.language@, 0)];
            let key = e2.language;
            let v = locale_alter_entry(e2);
            assert(key@ == s1.language@);
            if pr.spec_valid(s1.language@, ScopeAction::Alter) {
                assert(pq.spec_valid(s1.language@, ScopeAction::Alter));
                assert(mr2 == sorted_insert(mr, key, v) && mq2 == sorted_insert(mq, key, v));
                lemma_sorted_insert_sorted(mr, key, v);
                lemma_sorted_insert_sorted(mq, key, v);
                assert forall|k: Seq<char>| #[trigger] lookup(mr2, k) is Some implies lookup(mq2, k) == lookup(mr2, k) by {
                    lemma_lookup_sorted_insert(mr, key, v, k);
                    lemma_lookup_sorted_insert(mq, key, v, k);
                }
                assert forall|k: Seq<char>| #[trigger] lookup(mr2, k) is Some implies exists|j: int| 0 <= j < i && (#[trigger] l1[j]).language@ == k by {
                    lemma_lookup_sorted_insert(mr, key, v, k);
                    if k != key@ {
                        assert(lookup(mr, k) is Some);
                    } else {
                        assert(l1[i - 1].language@ == k);
                    }
                }
                assert forall|k: Seq<char>| #[trigger] lookup(mq2, k) is Some implies exists|j: int| 0 <= j < i && (#[trigger] l1[j]).language@ == k by {
                    lemma_lookup_sorted_insert(mq, key, v, k);
                    if k != key@ {
                        assert(lookup(mq, k) is Some);
                    } else {
                        assert(l1[i - 1].language@ == k);
                    }
                }
            } else if pq.spec_valid(s1.language@, ScopeAction::Alter) {
                assert(mr2 == mr && mq2 == sorted_insert(mq, key, v));
                lemma_sorted_insert_sorted(mq, key, v);
                assert forall|k: Seq<char>| #[trigger] lookup(mr2, k) is Some implies lookup(mq2, k) == lookup(mr2, k) by {
                    lemma_lookup_sorted_insert(mq, key, v, k);
                    if k == key@ {
                        let j = choose|j: int| 0 <= j < i - 1 && (#[trigger] l1[j]).language@ == k;
                        assert(l1[j].language@ == l1[i - 1].language@);
                        assert(false);
                    }
                }
                assert forall|k: Seq<char>| #[trigger] lookup(mq2, k) is Some implies exists|j: int| 0 <= j < i && (#[trigger] l1[j]).language@ == k by {
                    lemma_lookup_sorted_insert(mq, key, v, k);
                    if k != key@ {
                        assert(lookup(mq, k) is Some);
                    } else {
                        assert(l1[i - 1].language@ == k);
                    }
                }
            } else {
                assert(mr2 == mr && mq2 == mq);
            }
        } else {
            let key = s1.language;
            let v = locale_remove_entry(s1);
            if pr.spec_valid(s1.language@, ScopeAction::Remove) {
                assert(pq.spec_valid(s1.language@, ScopeAction::Remove));
                assert(mr2 == sorted_insert(mr, key, v) && mq2 == sorted_insert(mq, key, v));
                lemma_sorted_insert_sorted(mr, key, v);
                lemma_sorted_insert_sorted(mq, key, v);
                assert forall|k: Seq<char>| #[trigger] lookup(mr2, k) is Some implies lookup(mq2, k) == lookup(mr2, k) by {
                    lemma_lookup_sorted_insert(mr, key, v, k);
                    lemma_lookup_sorted_insert(mq, key, v, k);
                }
                assert forall|k: Seq<char>| #[trigger] lookup(mr2, k) is Some implies exists|j: int| 0 <= j < i && (#[trigger] l1[j]).language@ == k by {
                    lemma_lookup_sorted_insert(mr, key, v, k);
                    if k != key@ {
                        assert(lookup(mr, k) is Some);
                    } else {
                        assert(l1[i - 1].language@ == k);
                    }
                }
                assert forall|k: Seq<char>| #[trigger] lookup(mq2, k) is Some implies exists|j: int| 0 <= j < i && (#[trigger] l1[j]).language@ == k by {
                    lemma_lookup_sorted_insert(mq, key, v, k);
                    if k != key@ {
                        assert(lookup(mq, k) is Some);
                    } else {
                        assert(l1[i - 1].language@ == k);
                    }
                }
            } else if pq.spec_valid(s1.language@, ScopeAction::Remove) {
                assert(mr2 == mr && mq2 == sorted_insert(mq, key, v));
                lemma_sorted_insert_sorted(mq, key, v);
                assert forall|k: Seq<char>| #[trigger] lookup(mr2, k) is Some implies lookup(mq2, k) == lookup(mr2, k) by {
                    lemma_lookup_sorted_insert(mq, key, v, k);
                    if k == key@ {
                        let j = choose|j: int| 0 <= j < i - 1 && (#[trigger] l1[j]).language@ == k;
                        assert(l1[j].language@ == l1[i - 1].language@);
                        assert(false);
                    }
                }
                assert forall|k: Seq<char>| #[trigger] lookup(mq2, k) is Some implies exists|j: int| 0 <= j < i && (#[trigger] l1[j]).language@ == k by {
                    lemma_lookup_sorted_insert(mq, key, v, k);
                    if k != key@ {
                        assert(lookup(mq, k) is Some);
                    } else {
                        assert(l1[i - 1].language@ == k);
                    }
                }
            } else {
                assert(mr2 == mr && mq2 == mq);
            }
        }
    }
}

proof fn lemma_locale_r2_mono(l1: Seq<LocaleString>, l2: Seq<LocaleString>, pr: EntityDiffParam, pq: EntityDiffParam, mr0: Seq<(String, LocaleEntry)>, mq0: Seq<(String, LocaleEntry)>, i: int)
    requires
        unique_langs(l2),
        forall|k: Seq<char>, a: ScopeAction| #[trigger] pr.spec_valid(k, a) ==> pq.spec_valid(k, a),
        keys_sorted(mr0),
        keys_sorted(mq0),
        submap_of(mr0, mq0),
        forall|k: Seq<char>| #[trigger] lookup(mr0, k) is Some ==> locale_lang_in(l1, k),
        forall|k: Seq<char>| #[trigger] lookup(mq0, k) is Some ==> locale_lang_in(l1, k),
        0 <= i <= l2.len(),
    ensures
        keys_sorted(locale_r2(l1, l2, pr, mr0, i)),
        keys_sorted(locale_r2(l1, l2, pq, mq0, i)),
        submap_of(locale_r2(l1, l2, pr, mr0, i), locale_r2(l1, l2, pq, mq0, i)),
        forall|k: Seq<char>| #[trigger] lookup(locale_r2(l1, l2, pr, mr0, i), k) is Some ==> locale_lang_in(l1, k) || exists|j: int| 0 <= j < i && (#[trigger] l2[j]).language@ == k,
        forall|k: Seq<char>| #[trigger] lookup(locale_r2(l1, l2, pq, mq0, i), k) is Some ==> locale_lang_in(l1, k) || exists|j: int| 0 <= j < i && (#[trigger] l2[j]).language@ == k,
    decreases i,
{
    if i > 0 {
        lemma_locale_r2_mono(l1, l2, pr, pq, mr0, mq0, i - 1);
        let mr = locale_r2(l1, l2, pr, mr0, i - 1);
        let mq = locale_r2(l1, l2, pq, mq0, i - 1);
        let mr2 = locale_r2(l1, l2, pr, mr0, i);
        let mq2 = locale_r2(l1, l2, pq, mq0, i);
        let s2 = l2[i - 1];
        if locale_lang_in(l1, s2.language@) {
            assert(mr2 == mr && mq2 == mq);
        } else {
            let key = s2.language;
            let v = locale_add_entry(s2);
            if pr.spec_valid(s2.language@, ScopeAction::Add) {
                assert(pq.spec_valid(s2.language@, ScopeAction::Add));
                assert(mr2 == sorted_insert(mr, key, v) && mq2 == sorted_insert(mq, key, v));
                lemma_sorted_insert_sorted(mr, key, v);
                lemma_sorted_insert_sorted(mq, key, v);
                assert forall|k: Seq<char>| #[trigger] lookup(mr2, k) is Some implies lookup(mq2, k) == lookup(mr2, k) by {
                    lemma_lookup_sorted_insert(mr, key, v, k);
                    lemma_lookup_sorted_insert(mq, key, v, k);
                }
                assert forall|k: Seq<char>| #[trigger] lookup(mr2, k) is Some implies locale_lang_in(l1, k) || exists|j: int| 0 <= j < i && (#[trigger] l2[j]).language@ == k by {
                    lemma_lookup_sorted_insert(mr, key, v, k);
                    if k != key@ {
                        assert(lookup(mr, k) is Some);
                    } else {
                        assert(l2[i - 1].language@ == k);
                    }
                }
                assert forall|k: Seq<char>| #[trigger] lookup(mq2, k) is Some implies locale_lang_in(l1, k) || exists|j: int| 0 <= j < i && (#[trigger] l2[j]).language@ == k by {
                    lemma_lookup_sorted_insert(mq, key, v, k);
                    if k != key@ {
                        assert(lookup(mq, k) is Some);
                    } else {
                        assert(l2[i - 1].language@ == k);
                    }
                }
            } else if pq.spec_valid(s2.language@, ScopeAction::Add) {
                assert(mr2 == mr && mq2 == sorted_insert(mq, key, v));
                lemma_sorted_insert_sorted(mq, key, v);
                assert forall|k: Seq<char>| #[trigger] lookup(mr2, k) is Some implies lookup(mq2, k) == lookup(mr2, k) by {
                    lemma_lookup_sorted_insert(mq, key, v, k);
                    if k == key@ {
                        if locale_lang_in(l1, k) {
                            assert(false);
                        } else {
                            let j = choose|j: int| 0 <= j < i - 1 && (#[trigger] l2[j]).language@ == k;
                            assert(l2[j].language@ == l2[i - 1].language@);
                            assert(false);
                        }
                    }
                }
                assert forall|k: Seq<char>| #[trigger] lookup(mq2, k) is Some implies locale_lang_in(l1, k) || exists|j: int| 0 <= j < i && (#[trigger] l2[j]).language@ == k by {
                    lemma_lookup_sorted_insert(mq, key, v, k);
                    if k != key@ {
                        assert(lookup(mq, k) is Some);
                    } else {
                        assert(l2[i - 1].language@ == k);
                    }
                }
            } else {
                assert(mr2 == mr && mq2 == mq);
            }
        }
    }
}

/// Monotonicity for the keyed locale sections: with well-formed entities, a
/// narrower scope's section is a submap of a wider scope's.
pub proof fn lemma_diff_locales_mono(l1: Seq<LocaleString>, l2: Seq<LocaleString>, pr: EntityDiffParam, pq: EntityDiffParam)
    requires
        unique_langs(l1),
        unique_langs(l2),
        forall|k: Seq<char>, a: ScopeAction| #[trigger] pr.spec_valid(k, a) ==> pq.spec_valid(k, a),
    ensures
        submap_of(spec_diff_locales(l1, l2, pr), spec_diff_locales(l1, l2, pq)),
{
    lemma_locale_r1_mono(l1, l2, pr, pq, l1.len() as int);
    let mr0 = locale_r1(l1, l2, pr, l1.len() as int);
    let mq0 = locale_r1(l1, l2, pq, l1.len() as int);
    assert forall|k: Seq<char>| #[trigger] lookup(mr0, k) is Some implies locale_lang_in(l1, k) by {
        let j = choose|j: int| 0 <= j < l1.len() && (#[trigger] l1[j]).language@ == k;
        assert(l1[j].language@ == k);
    }
    assert forall|k: Seq<char>| #[trigger] lookup(mq0, k) is Some implies locale_lang_in(l1, k) by {
        let j = choose|j: int| 0 <= j < l1.len() && (#[trigger] l1[j]).language@ == k;
        assert(l1[j].language@ == k);
    }
    lemma_locale_r2_mono(l1, l2, pr, pq, mr0, mq0, l2.len() as int);
}

} // verus!

verus! {

/// The value a keyed site-link section stores under a site that the new
/// list still carries is that site's new link.
pub open spec fn sl_value_ok(l2: Seq<SiteLink>, k: Seq<char>, v: SiteLinkEntry) -> bool {
    sl_site_in(l2, k) ==> v == sl_entry_of(l2[first_site_from(l2, k, 0)], false)
}

proof fn lemma_sl_r1_mono(sl1: Seq<SiteLink>, sl2: Seq<SiteLink>, pr: EntityDiffParam, pq: EntityDiffParam, i: int)
    requires
        unique_sites(sl1),
        forall|k: Seq<char>, a: ScopeAction| #[trigger] pr.spec_valid(k, a) ==> pq.spec_valid(k, a),
        0 <= i <= sl1.len(),
    ensures
        keys_sorted(sl_r1(sl1, sl2, pr, i)),
        keys_sorted(sl_r1(sl1, sl2, pq, i)),
        submap_of(sl_r1(sl1, sl2, pr, i), sl_r1(sl1, sl2, pq, i)),
        forall|k: Seq<char>| #[trigger] lookup(sl_r1(sl1, sl2, pr, i), k) is Some ==> exists|j: int| 0 <= j < i && (#[trigger] sl1[j]).site@ == k,
        forall|k: Seq<char>| #[trigger] lookup(sl_r1(sl1, sl2, pq, i), k) is Some ==> exists|j: int| 0 <= j < i && (#[trigger] sl1[j]).site@ == k,
        forall|k: Seq<char>| (#[trigger] lookup(sl_r1(sl1, sl2, pr, i), k)) matches Some(v) ==> sl_value_ok(sl2, k, v),
        forall|k: Seq<char>| (#[trigger] lookup(sl_r1(sl1, sl2, pq, i), k)) matches Some(v) ==> sl_value_ok(sl2, k, v),
    decreases i,
{
    if i > 0 {
        lemma_sl_r1_mono(sl1, sl2, pr, pq, i - 1);
        let mr = sl_r1(sl1, sl2, pr, i - 1);
        let mq = sl_r1(sl1, sl2, pq, i - 1);
        let mr2 = sl_r1(sl1, sl2, pr, i);
        let mq2 = sl_r1(sl1, sl2, pq, i);
        let s1 = sl1[i - 1];
        if sl_pair_in(sl2, s1) {
            assert(mr2 == mr && mq2 == mq);
        } else {
            let ghost key: String;
            let ghost v: SiteLinkEntry;
            let ghost action: ScopeAction;
            if sl_site_in(sl2, s1.site@) {
                lemma_first_site_from(sl2, s1.site@, 0);
                key = sl2[first_site_from(sl2, s1.site@, 0)].site;
                v = sl_entry_of(sl2[first_site_from(sl2, s1.site@, 0)], false);
                action = ScopeAction::Alter;
                assert(key@ == s1.site@);
                assert(sl_value_ok(sl2, key@, v));
            } else {
                key = s1.site;
                v = sl_entry_of(s1, true);
                action = ScopeAction::Remove;
                assert(key@ == s1.site@);
                assert(sl_value_ok(sl2, key@, v));
            }
            if pr.spec_valid(s1.site@, action) {
                assert(pq.spec_valid(s1.site@, action));
                assert(mr2 == sorted_insert(mr, key, v) && mq2 == sorted_insert(mq, key, v));
                lemma_sorted_insert_sorted(mr, key, v);
                lemma_sorted_insert_sorted(mq, key, v);
                assert forall|k: Seq<char>| #[trigger] lookup(mr2, k) is Some implies lookup(mq2, k) == lookup(mr2, k) by {
                    lemma_lookup_sorted_insert(mr, key, v, k);
                    lemma_lookup_sorted_insert(mq, key, v, k);
                }
                assert forall|k: Seq<char>| #[trigger] lookup(mr2, k) is Some implies exists|j: int| 0 <= j < i && (#[trigger] sl1[j]).site@ == k by {
                    lemma_lookup_sorted_insert(mr, key, v, k);
                    if k != key@ {
                        assert(lookup(mr, k) is Some);
                    } else {
                        assert(sl1[i - 1].site@ == k);
                    }
                }
                assert forall|k: Seq<char>| #[trigger] lookup(mq2, k) is Some implies exists|j: int| 0 <= j < i && (#[trigger] sl1[j]).site@ == k by {
                    lemma_lookup_sorted_insert(mq, key, v, k);
                    if k != key@ {
                        assert(lookup(mq, k) is Some);
                    } else {
                        assert(sl1[i - 1].site@ == k);
                    }
                }
                assert forall|k: Seq<char>| #[trigger] lookup(mr2, k) is Some implies sl_value_ok(sl2, k, lookup(mr2, k)->Some_0) by {
                    lemma_lookup_sorted_insert(mr, key, v, k);
                }
                assert forall|k: Seq<char>| #[trigger] lookup(mq2, k) is Some implies sl_value_ok(sl2, k, lookup(mq2, k)->Some_0) by {
                    lemma_lookup_sorted_insert(mq, key, v, k);
                }
            } else if pq.spec_valid(s1.site@, action) {
                assert(mr2 == mr && mq2 == sorted_insert(mq, key, v));
                lemma_sorted_insert_sorted(mq, key, v);
                assert forall|k: Seq<char>| #[trigger] lookup(mr2, k) is Some implies lookup(mq2, k) == lookup(mr2, k) by {
                    lemma_lookup_sorted_insert(mq, key, v, k);
                    if k == key@ {
                        let j = choose|j: int| 0 <= j < i - 1 && (#[trigger] sl1[j]).site@ == k;
                        assert(sl1[j].site@ == sl1[i - 1].site@);
                        assert(false);
                    }
                }
                assert forall|k: Seq<char>| #[trigger] lookup(mq2, k) is Some implies exists|j: int| 0 <= j < i && (#[trigger] sl1[j]).site@ == k by {
                    lemma_lookup_sorted_insert(mq, key, v, k);
                    if k != key@ {
                        assert(lookup(mq, k) is Some);
                    } else {
                        assert(sl1[i - 1].site@ == k);
                    }
                }
                assert forall|k: Seq<char>| #[trigger] lookup(mq2, k) is Some implies sl_value_ok(sl2, k, lookup(mq2, k)->Some_0) by {
                    lemma_lookup_sorted_insert(mq, key, v, k);
                }
            } else {
                assert(mr2 == mr && mq2 == mq);
            }
        }
    }
}

proof fn lemma_sl_r2_mono(sl1: Seq<SiteLink>, sl2: Seq<SiteLink>, pr: EntityDiffParam, pq: EntityDiffParam, mr0: Seq<(String, SiteLinkEntry)>, mq0: Seq<(String, SiteLinkEntry)>, i: int)
    requires
        unique_sites(sl2),
        forall|k: Seq<char>, a: ScopeAction| #[trigger] pr.spec_valid(k, a) ==> pq.spec_valid(k, a),
        keys_sorted(mr0),
        keys_sorted(mq0),
        submap_of(mr0, mq0),
        forall|k: Seq<char>| (#[trigger] lookup(mr0, k)) matches Some(v) ==> sl_value_ok(sl2, k, v),
        forall|k: Seq<char>| (#[trigger] lookup(mq0, k)) matches Some(v) ==> sl_value_ok(sl2, k, v),
        0 <= i <= sl2.len(),
    ensures
        keys_sorted(sl_r2(sl1, sl2, pr, mr0, i)),
        keys_sorted(sl_r2(sl1, sl2, pq, mq0, i)),
        submap_of(sl_r2(sl1, sl2, pr, mr0, i), sl_r2(sl1, sl2, pq, mq0, i)),
        forall|k: Seq<char>| (#[trigger] lookup(sl_r2(sl1, sl2, pr, mr0, i), k)) matches Some(v) ==> sl_value_ok(sl2, k, v),
        forall|k: Seq<char>| (#[trigger] lookup(sl_r2(sl1, sl2, pq, mq0, i), k)) matches Some(v) ==> sl_value_ok(sl2, k, v),
    decreases i,
{
    if i > 0 {
        lemma_sl_r2_mono(sl1, sl2, pr, pq, mr0, mq0, i - 1);
        let mr = sl_r2(sl1, sl2, pr, mr0, i - 1);
        let mq = sl_r2(sl1, sl2, pq, mq0, i - 1);
        let mr2 = sl_r2(sl1, sl2, pr, mr0, i);
        let mq2 = sl_r2(sl1, sl2, pq, mq0, i);
        let s2 = sl2[i - 1];
        if sl_pair_in(sl1, s2) {
            assert(mr2 == mr && mq2 == mq);
        } else {
            let key = s2.site;
            let v = sl_entry_of(s2, false);
            assert(s2.site@ == key@);
            lemma_first_site_from(sl2, key@, 0);
            let fi = first_site_from(sl2, key@, 0);
            assert(sl2[i - 1].site@ == key@);
            if fi == -1 {
                assert(false);
            } else if fi < i - 1 {
                assert(sl2[fi].site@ == sl2[i - 1].site@);
                assert(false);
            } else if fi > i - 1 {
                assert(sl2[i - 1].site@ != key@);
                assert(false);
            }
            assert(sl_value_ok(sl2, key@, v));
            if pr.spec_valid(s2.site@, ScopeAction::Add) {
                assert(pq.spec_valid(s2.site@, ScopeAction::Add));
                assert(mr2 == sorted_insert(mr, key, v) && mq2 == sorted_insert(mq, key, v));
                lemma_sorted_insert_sorted(mr, key, v);
                lemma_sorted_insert_sorted(mq, key, v);
                assert forall|k: Seq<char>| #[trigger] lookup(mr2, k) is Some implies lookup(mq2, k) == lookup(mr2, k) by {
                    lemma_lookup_sorted_insert(mr, key, v, k);
                    lemma_lookup_sorted_insert(mq, key, v, k);
                }
                assert forall|k: Seq<char>| #[trigger] lookup(mr2, k) is Some implies sl_value_ok(sl2, k, lookup(mr2, k)->Some_0) by {
                    lemma_lookup_sorted_insert(mr, key, v, k);
                }
                assert forall|k: Seq<char>| #[trigger] lookup(mq2, k) is Some implies sl_value_ok(sl2, k, lookup(mq2, k)->Some_0) by {
                    lemma_lookup_sorted_insert(mq, key, v, k);
                }
            } else if pq.spec_valid(s2.site@, ScopeAction::Add) {
                assert(mr2 == mr && mq2 == sorted_insert(mq, key, v));
                lemma_sorted_insert_sorted(mq, key, v);
                assert forall|k: Seq<char>| #[trigger] lookup(mr2, k) is Some implies lookup(mq2, k) == lookup(mr2, k) by {
                    lemma_lookup_sorted_insert(mq, key, v, k);
                    if k == key@ {
                        assert(lookup(mr, k) matches Some(w) ==> sl_value_ok(sl2, k, w));
                        assert(sl_site_in(sl2, k));
                        assert(lookup(mr, k) == Some(v));
                    }
                }
                assert forall|k: Seq<char>| #[trigger] lookup(mq2, k) is Some implies sl_value_ok(sl2, k, lookup(mq2, k)->Some_0) by {
                    lemma_lookup_sorted_insert(mq, key, v, k);
                }
            } else {
                assert(mr2 == mr && mq2 == mq);
            }
        }
    }
}

proof fn lemma_sl_remove_all_mono(sl1: Seq<SiteLink>, pr: EntityDiffParam, pq: EntityDiffParam, i: int)
    requires
        unique_sites(sl1),
        forall|k: Seq<char>, a: ScopeAction| #[trigger] pr.spec_valid(k, a) ==> pq.spec_valid(k, a),
        0 <= i <= sl1.len(),
    ensures
        keys_sorted(sl_remove_all(sl1, pr, i)),
        keys_sorted(sl_remove_all(sl1, pq, i)),
        submap_of(sl_remove_all(sl1, pr, i), sl_remove_all(sl1, pq, i)),
        forall|k: Seq<char>| #[trigger] lookup(sl_remove_all(sl1, pr, i), k) is Some ==> exists|j: int| 0 <= j < i && (#[trigger] sl1[j]).site@ == k,
        forall|k: Seq<char>| #[trigger] lookup(sl_remove_all(sl1, pq, i), k) is Some ==> exists|j: int| 0 <= j < i && (#[trigger] sl1[j]).site@ == k,
    decreases i,
{
    if i > 0 {
        lemma_sl_remove_all_mono(sl1, pr, pq, i - 1);
        let mr = sl_remove_all(sl1, pr, i - 1);
        let mq = sl_remove_all(sl1, pq, i - 1);
        let mr2 = sl_remove_all(sl1, pr, i);
        let mq2 = sl_remove_all(sl1, pq, i);
        let s1 = sl1[i - 1];
        let key = s1.site;
        let v = sl_entry_of(s1, true);
        if pr.spec_valid(s1.site@, ScopeAction::Remove) {
            assert(pq.spec_valid(s1.site@, ScopeAction::Remove));
            lemma_sorted_insert_sorted(mr, key, v);
            lemma_sorted_insert_sorted(mq, key, v);
            assert forall|k: Seq<char>| #[trigger] lookup(mr2, k) is Some implies lookup(mq2, k) == lookup(mr2, k) by {
                lemma_lookup_sorted_insert(mr, key, v, k);
                lemma_lookup_sorted_insert(mq, key, v, k);
            }
            assert forall|k: Seq<char>| #[trigger] lookup(mr2, k) is Some implies exists|j: int| 0 <= j < i && (#[trigger] sl1[j]).site@ == k by {
                lemma_lookup_sorted_insert(mr, key, v, k);
                if k != key@ {
                    assert(lookup(mr, k) is Some);
                } else {
                    assert(sl1[i - 1].site@ == k);
                }
            }
            assert forall|k: Seq<char>| #[trigger] lookup(mq2, k) is Some implies exists|j: int| 0 <= j < i && (#[trigger] sl1[j]).site@ == k by {
                lemma_lookup_sorted_insert(mq, key, v, k);
                if k != key@ {
                    assert(lookup(mq, k) is Some);
                } else {
                    assert(sl1[i - 1].site@ == k);
                }
            }
        } else if pq.spec_valid(s1.site@, ScopeAction::Remove) {
            assert(mr2 == mr && mq2 == sorted_insert(mq, key, v));
            lemma_sorted_insert_sorted(mq, key, v);
            assert forall|k: Seq<char>| #[trigger] lookup(mr2, k) is Some implies lookup(mq2, k) == lookup(mr2, k) by {
                lemma_lookup_sorted_insert(mq, key, v, k);
                if k == key@ {
                    let j = choose|j: int| 0 <= j < i - 1 && (#[trigger] sl1[j]).site@ == k;
                    assert(sl1[j].site@ == sl1[i - 1].site@);
                    assert(false);
                }
            }
            assert forall|k: Seq<char>| #[trigger] lookup(mq2, k) is Some implies exists|j: int| 0 <= j < i && (#[trigger] sl1[j]).site@ == k by {
                lemma_lookup_sorted_insert(mq, key, v, k);
                if k != key@ {
                    assert(lookup(mq, k) is Some);
                } else {
                    assert(sl1[i - 1].site@ == k);
                }
            }
        } else {
            assert(mr2 == mr && mq2 == mq);
        }
    }
}

proof fn lemma_sl_add_all_mono(sl2: Seq<SiteLink>, pr: EntityDiffParam, pq: EntityDiffParam, i: int)
    requires
        unique_sites(sl2),
        forall|k: Seq<char>, a: ScopeAction| #[trigger] pr.spec_valid(k, a) ==> pq.spec_valid(k, a),
        0 <= i <= sl2.len(),
    ensures
        keys_sorted(sl_add_all(sl2, pr, i)),
        keys_sorted(sl_add_all(sl2, pq, i)),
        submap_of(sl_add_all(sl2, pr, i), sl_add_all(sl2, pq, i)),
        forall|k: Seq<char>| #[trigger] lookup(sl_add_all(sl2, pr, i), k) is Some ==> exists|j: int| 0 <= j < i && (#[trigger] sl2[j]).site@ == k,
        forall|k: Seq<char>| #[trigger] lookup(sl_add_all(sl2, pq, i), k) is Some ==> exists|j: int| 0 <= j < i && (#[trigger] sl2[j]).site@ == k,
    decreases i,
{
    if i > 0 {
        lemma_sl_add_all_mono(sl2, pr, pq, i - 1);
        let mr = sl_add_all(sl2, pr, i - 1);
        let mq = sl_add_all(sl2, pq, i - 1);
        let mr2 = sl_add_all(sl2, pr, i);
        let mq2 = sl_add_all(sl2, pq, i);
        let s2 = sl2[i - 1];
        let key = s2.site;
        let v = sl_entry_of(s2, false);
        if pr.spec_valid(s2.site@, ScopeAction::Add) {
            assert(pq.spec_valid(s2.site@, ScopeAction::Add));
            lemma_sorted_insert_sorted(mr, key, v);
            lemma_sorted_insert_sorted(mq, key, v);
            assert forall|k: Seq<char>| #[trigger] lookup(mr2, k) is Some implies lookup(mq2, k) == lookup(mr2, k) by {
                lemma_lookup_sorted_insert(mr, key, v, k);
                lemma_lookup_sorted_insert(mq, key, v, k);
            }
            assert forall|k: Seq<char>| #[trigger] lookup(mr2, k) is Some implies exists|j: int| 0 <= j < i && (#[trigger] sl2[j]).site@ == k by {
                lemma_lookup_sorted_insert(mr, key, v, k);
                if k != key@ {
                    assert(lookup(mr, k) is Some);
                } else {
                    assert(sl2[i - 1].site@ == k);
                }
            }
            assert forall|k: Seq<char>| #[trigger] lookup(mq2, k) is Some implies exists|j: int| 0 <= j < i && (#[trigger] sl2[j]).site@ == k by {
                lemma_lookup_sorted_insert(mq, key, v, k);
                if k != key@ {
                    assert(lookup(mq, k) is Some);
                } else {
                    assert(sl2[i - 1].site@ == k);
                }
            }
        } else if pq.spec_valid(s2.site@, ScopeAction::Add) {
            assert(mr2 == mr && mq2 == sorted_insert(mq, key, v));
            lemma_sorted_insert_sorted(mq, key, v);
            assert forall|k: Seq<char>| #[trigger] lookup(mr2, k) is Some implies lookup(mq2, k) == lookup(mr2, k) by {
                lemma_lookup_sorted_insert(mq, key, v, k);
                if k == key@ {
                    let j = choose|j: int| 0 <= j < i - 1 && (#[trigger] sl2[j]).site@ == k;
                    assert(sl2[j].site@ == sl2[i - 1].site@);
                    assert(false);
                }
            }
            assert forall|k: Seq<char>| #[trigger] lookup(mq2, k) is Some implies exists|j: int| 0 <= j < i && (#[trigger] sl2[j]).site@ == k by {
                lemma_lookup_sorted_insert(mq, key, v, k);
                if k != key@ {
                    assert(lookup(mq, k) is Some);
                } else {
                    assert(sl2[i - 1].site@ == k);
                }
            }
        } else {
            assert(mr2 == mr && mq2 == mq);
        }
    }
}

} // verus!

verus! {

proof fn lemma_alias_r1_mono(l1: Seq<LocaleString>, l2: Seq<LocaleString>, pr: EntityDiffParam, pq: EntityDiffParam, i: int)
    requires
        forall|k: Seq<char>, a: ScopeAction| #[trigger] pr.spec_valid(k, a) ==> pq.spec_valid(k, a),
        0 <= i <= l1.len(),
    ensures
        alias_r1(l1, l2, pr, i).to_multiset().subset_of(alias_r1(l1, l2, pq, i).to_multiset()),
    decreases i,
{
    broadcast use vstd::seq_lib::group_to_multiset_ensures;
    broadcast use vstd::multiset::group_multiset_properties;

    if i > 0 {
        lemma_alias_r1_mono(l1, l2, pr, pq, i - 1);
        let ar = alias_r1(l1, l2, pr, i - 1);
        let aq = alias_r1(l1, l2, pq, i - 1);
        let ar2 = alias_r1(l1, l2, pr, i);
        let aq2 = alias_r1(l1, l2, pq, i);
        assert forall|x: LocaleEntry| #[trigger] ar2.to_multiset().count(x) <= aq2.to_multiset().count(x) by {
            assert(ar.to_multiset().count(x) <= aq.to_multiset().count(x));
        }
    }
}

proof fn lemma_alias_r2_mono(l1: Seq<LocaleString>, l2: Seq<LocaleString>, pr: EntityDiffParam, pq: EntityDiffParam, ar0: Seq<LocaleEntry>, aq0: Seq<LocaleEntry>, i: int)
    requires
        forall|k: Seq<char>, a: ScopeAction| #[trigger] pr.spec_valid(k, a) ==> pq.spec_valid(k, a),
        ar0.to_multiset().subset_of(aq0.to_multiset()),
        0 <= i <= l2.len(),
    ensures
        alias_r2(l1, l2, pr, ar0, i).to_multiset().subset_of(alias_r2(l1, l2, pq, aq0, i).to_multiset()),
    decreases i,
{
    broadcast use vstd::seq_lib::group_to_multiset_ensures;
    broadcast use vstd::multiset::group_multiset_properties;

    if i > 0 {
        lemma_alias_r2_mono(l1, l2, pr, pq, ar0, aq0, i - 1);
        let ar = alias_r2(l1, l2, pr, ar0, i - 1);
        let aq = alias_r2(l1, l2, pq, aq0, i - 1);
        let ar2 = alias_r2(l1, l2, pr, ar0, i);
        let aq2 = alias_r2(l1, l2, pq, aq0, i);
        assert forall|x: LocaleEntry| #[trigger] ar2.to_multiset().count(x) <= aq2.to_multiset().count(x) by {
            assert(ar.to_multiset().count(x) <= aq.to_multiset().count(x));
        }
    }
}

proof fn lemma_claims_r1_mono(cs1: Seq<Statement>, cs2: Seq<Statement>, pr: EntityDiffParam, pq: EntityDiffParam, i: int)
    requires
        forall|k: Seq<char>, a: ScopeAction| #[trigger] pr.spec_valid(k, a) ==> pq.spec_valid(k, a),
        0 <= i <= cs1.len(),
    ensures
        claims_r1(cs1, cs2, pr, i).to_multiset().subset_of(claims_r1(cs1, cs2, pq, i).to_multiset()),
    decreases i,
{
    broadcast use vstd::seq_lib::group_to_multiset_ensures;
    broadcast use vstd::multiset::group_multiset_properties;

    if i > 0 {
        lemma_claims_r1_mono(cs1, cs2, pr, pq, i - 1);
        let ar = claims_r1(cs1, cs2, pr, i - 1);
        let aq = claims_r1(cs1, cs2, pq, i - 1);
        let ar2 = claims_r1(cs1, cs2, pr, i);
        let aq2 = claims_r1(cs1, cs2, pq, i);
        assert forall|x: ClaimEntry| #[trigger] ar2.to_multiset().count(x) <= aq2.to_multiset().count(x) by {
            assert(ar.to_multiset().count(x) <= aq.to_multiset().count(x));
        }
    }
}

proof fn lemma_claims_r2_mono(cs1: Seq<Statement>, cs2: Seq<Statement>, pr: EntityDiffParam, pq: EntityDiffParam, ar0: Seq<ClaimEntry>, aq0: Seq<ClaimEntry>, i: int)
    requires
        forall|k: Seq<char>, a: ScopeAction| #[trigger] pr.spec_valid(k, a) ==> pq.spec_valid(k, a),
        ar0.to_multiset().subset_of(aq0.to_multiset()),
        0 <= i <= cs2.len(),
    ensures
        claims_r2(cs1, cs2, pr, ar0, i).to_multiset().subset_of(claims_r2(cs1, cs2, pq, aq0, i).to_multiset()),
    decreases i,
{
    broadcast use vstd::seq_lib::group_to_multiset_ensures;
    broadcast use vstd::multiset::group_multiset_properties;

    if i > 0 {
        lemma_claims_r2_mono(cs1, cs2, pr, pq, ar0, aq0, i - 1);
        let ar = claims_r2(cs1, cs2, pr, ar0, i - 1);
        let aq = claims_r2(cs1, cs2, pq, aq0, i - 1);
        let ar2 = claims_r2(cs1, cs2, pr, ar0, i);
        let aq2 = claims_r2(cs1, cs2, pq, aq0, i);
        assert forall|x: ClaimEntry| #[trigger] ar2.to_multiset().count(x) <= aq2.to_multiset().count(x) by {
            assert(ar.to_multiset().count(x) <= aq.to_multiset().count(x));
        }
    }
}

/// Scope monotonicity: with well-formed entities, every action emitted
/// under a scope is also emitted, with the same content, under any wider
/// scope. The keyed sections of the narrower run are submaps of the wider
/// run's; the appended sections are sub-multisets. With a scope that
/// authorizes nothing the patch is empty (`lemma_diff_unauthorized_empty`),
/// and under a scope that authorizes everything every candidate difference
/// is emitted, so any restricted run lies between the two.
pub proof fn lemma_diff_scope_monotonic(e1: Entity, e2: Entity, pr: EntityDiffParams, pq: EntityDiffParams)
    requires
        e1.well_formed(),
        e2.well_formed(),
        forall|k: Seq<char>, a: ScopeAction| #[trigger] pr.labels.spec_valid(k, a) ==> pq.labels.spec_valid(k, a),
        forall|k: Seq<char>, a: ScopeAction| #[trigger] pr.descriptions.spec_valid(k, a) ==> pq.descriptions.spec_valid(k, a),
        forall|k: Seq<char>, a: ScopeAction| #[trigger] pr.aliases.spec_valid(k, a) ==> pq.aliases.spec_valid(k, a),
        forall|k: Seq<char>, a: ScopeAction| #[trigger] pr.claims.spec_valid(k, a) ==> pq.claims.spec_valid(k, a),
        forall|k: Seq<char>, a: ScopeAction| #[trigger] pr.sitelinks.spec_valid(k, a) ==> pq.sitelinks.spec_valid(k, a),
    ensures
        submap_of(spec_diff_locales(e1.labels@, e2.labels@, pr.labels), spec_diff_locales(e1.labels@, e2.labels@, pq.labels)),
        submap_of(spec_diff_locales(e1.descriptions@, e2.descriptions@, pr.descriptions), spec_diff_locales(e1.descriptions@, e2.descriptions@, pq.descriptions)),
        spec_diff_aliases(e1.aliases@, e2.aliases@, pr.aliases).to_multiset().subset_of(spec_diff_aliases(e1.aliases@, e2.aliases@, pq.aliases).to_multiset()),
        spec_diff_claims(e1.claims@, e2.claims@, pr.claims).to_multiset().subset_of(spec_diff_claims(e1.claims@, e2.claims@, pq.claims).to_multiset()),
        submap_of(spec_diff_sitelinks(e1.sitelinks, e2.sitelinks, pr.sitelinks), spec_diff_sitelinks(e1.sitelinks, e2.sitelinks, pq.sitelinks)),
{
    lemma_diff_locales_mono(e1.labels@, e2.labels@, pr.labels, pq.labels);
    lemma_diff_locales_mono(e1.descriptions@, e2.descriptions@, pr.descriptions, pq.descriptions);
    lemma_alias_r1_mono(e1.aliases@, e2.aliases@, pr.aliases, pq.aliases, e1.aliases@.len() as int);
    lemma_alias_r2_mono(e1.aliases@, e2.aliases@, pr.aliases, pq.aliases, alias_r1(e1.aliases@, e2.aliases@, pr.aliases, e1.aliases@.len() as int), alias_r1(e1.aliases@, e2.aliases@, pq.aliases, e1.aliases@.len() as int), e2.aliases@.len() as int);
    lemma_claims_r1_mono(e1.claims@, e2.claims@, pr.claims, pq.claims, e1.claims@.len() as int);
    lemma_claims_r2_mono(e1.claims@, e2.claims@, pr.claims, pq.claims, claims_r1(e1.claims@, e2.claims@, pr.claims, e1.claims@.len() as int), claims_r1(e1.claims@, e2.claims@, pq.claims, e1.claims@.len() as int), e2.claims@.len() as int);
    match e1.sitelinks {
        Option::Some(sl1) => match e2.sitelinks {
            Option::Some(sl2) => {
                lemma_sl_r1_mono(sl1@, sl2@, pr.sitelinks, pq.sitelinks, sl1@.len() as int);
                lemma_sl_r2_mono(sl1@, sl2@, pr.sitelinks, pq.sitelinks, sl_r1(sl1@, sl2@, pr.sitelinks, sl1@.len() as int), sl_r1(sl1@, sl2@, pq.sitelinks, sl1@.len() as int), sl2@.len() as int);
            },
            Option::None => {
                lemma_sl_remove_all_mono(sl1@, pr.sitelinks, pq.sitelinks, sl1@.len() as int);
            },
        },
        Option::None => match e2.sitelinks {
            Option::Some(sl2) => {
                lemma_sl_add_all_mono(sl2@, pr.sitelinks, pq.sitelinks, sl2@.len() as int);
            },
            Option::None => {},
        },
    }
}

} // verus!

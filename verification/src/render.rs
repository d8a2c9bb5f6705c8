//! Rendering of a patch document into its JSON wire form.
//!
//! Object keys are emitted in code-point order, matching the canonical form
//! of the write action's wire format. Statement payloads carry qualifier and
//! reference snaks as flat arrays in statement order.

use vstd::prelude::*;
use vstd::string::StrSliceExecFns;
use crate::model::{Value, DataValue, ValueType, SnakType, Snak, Rank, Reference, Statement};
use crate::patch::{LocaleEntry, SiteLinkEntry, ClaimEntry, Patch};
use crate::text::{json_quoted, append_json_string};

verus! {

/// The items of `s` rendered by `f`, each preceded by a comma.
pub open spec fn join_tail<V>(s: Seq<V>, f: spec_fn(V) -> Seq<char>) -> Seq<char>
    decreases s.len(),
{
    if s.len() == 0 {
        Seq::empty()
    } else {
        ","@ + f(s[0]) + join_tail(s.drop_first(), f)
    }
}

/// The items of `s` rendered by `f`, comma-separated.
pub open spec fn join_items<V>(s: Seq<V>, f: spec_fn(V) -> Seq<char>) -> Seq<char> {
    if s.len() == 0 {
        Seq::empty()
    } else {
        f(s[0]) + join_tail(s.drop_first(), f)
    }
}

pub proof fn lemma_join_tail_push<V>(s: Seq<V>, f: spec_fn(V) -> Seq<char>, x: V)
    ensures
        join_tail(s.push(x), f) == join_tail(s, f) + ","@ + f(x),
    decreases s.len(),
{
    if s.len() == 0 {
        assert(s.push(x)[0] == x);
        assert(s.push(x).drop_first() =~= Seq::<V>::empty());
        assert(join_tail(Seq::<V>::empty(), f) == Seq::<char>::empty());
        assert(join_tail(s.push(x), f) == ","@ + f(x) + join_tail(Seq::<V>::empty(), f));
        assert(join_tail(s, f) == Seq::<char>::empty());
        assert(join_tail(s.push(x), f) =~= join_tail(s, f) + ","@ + f(x));
    } else {
        lemma_join_tail_push(s.drop_first(), f, x);
        assert(s.push(x).drop_first() =~= s.drop_first().push(x));
        assert(s.push(x)[0] == s[0]);
        assert(join_tail(s.push(x), f) == ","@ + f(s[0]) + join_tail(s.drop_first().push(x), f));
        assert(join_tail(s.push(x), f) =~= join_tail(s, f) + ","@ + f(x));
    }
}

pub proof fn lemma_join_items_push<V>(s: Seq<V>, f: spec_fn(V) -> Seq<char>, x: V)
    ensures
        s.len() == 0 ==> join_items(s.push(x), f) == f(x),
        s.len() > 0 ==> join_items(s.push(x), f) == join_items(s, f) + ","@ + f(x),
{
    if s.len() == 0 {
        assert(s.push(x)[0] == x);
        assert(s.push(x).drop_first() =~= Seq::<V>::empty());
        assert(join_tail(Seq::<V>::empty(), f) == Seq::<char>::empty());
        assert(join_items(s.push(x), f) == f(x) + join_tail(Seq::<V>::empty(), f));
        assert(join_items(s.push(x), f) =~= f(x));
    } else {
        lemma_join_tail_push(s.drop_first(), f, x);
        assert(s.push(x).drop_first() =~= s.drop_first().push(x));
        assert(s.push(x)[0] == s[0]);
        assert(join_items(s.push(x), f) =~= join_items(s, f) + ","@ + f(x));
    }
}

/// `null` for an absent text, a quoted string for a present one.
pub open spec fn opt_text_json(o: Option<String>) -> Seq<char> {
    match o {
        Option::None => "null"@,
        Option::Some(s) => json_quoted(s@),
    }
}

/// The wire name of a declared value kind, quoted.
pub open spec fn value_type_json(t: ValueType) -> Seq<char> {
    match t {
        ValueType::Coordinate => "\"globecoordinate\""@,
        ValueType::EntityId => "\"wikibase-entityid\""@,
        ValueType::MonoLingualText => "\"monolingualtext\""@,
        ValueType::Quantity => "\"quantity\""@,
        ValueType::StringType => "\"string\""@,
        ValueType::Time => "\"time\""@,
    }
}

/// The wire name of a snak type, quoted.
pub open spec fn snak_type_json(t: SnakType) -> Seq<char> {
    match t {
        SnakType::Value => "\"value\""@,
        SnakType::NoValue => "\"novalue\""@,
        SnakType::SomeValue => "\"somevalue\""@,
    }
}

/// The wire name of a rank, quoted.
pub open spec fn rank_json(r: Rank) -> Seq<char> {
    match r {
        Rank::Preferred => "\"preferred\""@,
        Rank::Normal => "\"normal\""@,
        Rank::Deprecated => "\"deprecated\""@,
    }
}

/// A quoted string item.
pub open spec fn quoted_item() -> spec_fn(String) -> Seq<char> {
    |x: String| json_quoted(x@)
}

/// A badge id array.
pub open spec fn badges_json(b: Seq<String>) -> Seq<char> {
    "["@ + join_items(b, quoted_item()) + "]"@
}

/// One snak value in its wire form; text leaves stand quoted and verbatim.
pub open spec fn value_json(v: Value) -> Seq<char> {
    match v {
        Value::Coordinate(a) => "{\"altitude\":"@ + opt_text_json(a.altitude) + ",\"globe\":"@
            + json_quoted(a.globe@) + ",\"latitude\":"@ + json_quoted(a.latitude@)
            + ",\"longitude\":"@ + json_quoted(a.longitude@) + ",\"precision\":"@
            + json_quoted(a.precision@) + "}"@,
        Value::MonoLingual(a) => "{\"language\":"@ + json_quoted(a.language@) + ",\"text\":"@
            + json_quoted(a.text@) + "}"@,
        Value::Entity(a) => "{\"entity-type\":"@ + json_quoted(a.entity_type@) + ",\"id\":"@
            + json_quoted(a.id@) + "}"@,
        Value::Quantity(a) => "{\"amount\":"@ + json_quoted(a.amount@) + ",\"lowerBound\":"@
            + opt_text_json(a.lower_bound) + ",\"unit\":"@ + json_quoted(a.unit@)
            + ",\"upperBound\":"@ + opt_text_json(a.upper_bound) + "}"@,
        Value::StringValue(a) => json_quoted(a@),
        Value::Time(a) => "{\"after\":"@ + json_quoted(a.after@) + ",\"before\":"@
            + json_quoted(a.before@) + ",\"calendarmodel\":"@ + json_quoted(a.calendarmodel@)
            + ",\"precision\":"@ + json_quoted(a.precision@) + ",\"time\":"@
            + json_quoted(a.time@) + ",\"timezone\":"@ + json_quoted(a.timezone@) + "}"@,
    }
}

/// A data value: declared kind tag and value.
pub open spec fn data_value_json(dv: DataValue) -> Seq<char> {
    "{\"type\":"@ + value_type_json(dv.value_type) + ",\"value\":"@ + value_json(dv.value) + "}"@
}

/// One snak; the data value stands only where the snak carries one.
pub open spec fn snak_json(s: Snak) -> Seq<char> {
    "{\"datatype\":"@ + json_quoted(s.datatype@) + (match s.data_value {
        Option::Some(dv) => ",\"datavalue\":"@ + data_value_json(dv),
        Option::None => Seq::empty(),
    }) + ",\"property\":"@ + json_quoted(s.property@) + ",\"snaktype\":"@
        + snak_type_json(s.snak_type) + "}"@
}

/// A snak item.
pub open spec fn snak_item() -> spec_fn(Snak) -> Seq<char> {
    |x: Snak| snak_json(x)
}

/// A snak array.
pub open spec fn snak_list_json(s: Seq<Snak>) -> Seq<char> {
    "["@ + join_items(s, snak_item()) + "]"@
}

/// One reference: its snak list.
pub open spec fn reference_json(r: Reference) -> Seq<char> {
    "{\"snaks\":"@ + snak_list_json(r.snaks@) + "}"@
}

/// A reference item.
pub open spec fn reference_item() -> spec_fn(Reference) -> Seq<char> {
    |x: Reference| reference_json(x)
}

/// A reference array.
pub open spec fn references_json(rs: Seq<Reference>) -> Seq<char> {
    "["@ + join_items(rs, reference_item()) + "]"@
}

/// A full statement payload, without identity metadata.
pub open spec fn statement_json(st: Statement) -> Seq<char> {
    "{\"mainsnak\":"@ + snak_json(st.main_snak) + ",\"qualifiers\":"@
        + snak_list_json(st.qualifiers@) + ",\"rank\":"@ + rank_json(st.rank)
        + ",\"references\":"@ + references_json(st.references@) + ",\"type\":"@
        + json_quoted(st.claim_type@) + "}"@
}

/// One claims-section item: a payload for additions and alterations, the
/// property id with the remove marker for removals.
pub open spec fn claim_entry_json(e: ClaimEntry) -> Seq<char> {
    match e {
        ClaimEntry::Add(st) => statement_json(st),
        ClaimEntry::Alter(st) => statement_json(st),
        ClaimEntry::Remove(p) => "{\"property\":"@ + json_quoted(p@) + ",\"remove\":\"\"}"@,
    }
}

/// A claim item.
pub open spec fn claim_item() -> spec_fn(ClaimEntry) -> Seq<char> {
    |x: ClaimEntry| claim_entry_json(x)
}

/// The claims section: an array.
pub open spec fn claims_json(cs: Seq<ClaimEntry>) -> Seq<char> {
    "["@ + join_items(cs, claim_item()) + "]"@
}

/// One locale action object.
pub open spec fn locale_entry_json(e: LocaleEntry) -> Seq<char> {
    "{\"language\":"@ + json_quoted(e.language@) + (if e.remove {
        ",\"remove\":\"\""@
    } else {
        Seq::empty()
    }) + ",\"value\":"@ + json_quoted(e.value@) + "}"@
}

/// A locale item.
pub open spec fn locale_item() -> spec_fn(LocaleEntry) -> Seq<char> {
    |x: LocaleEntry| locale_entry_json(x)
}

/// The aliases section: an array, not keyed by language.
pub open spec fn aliases_json(al: Seq<LocaleEntry>) -> Seq<char> {
    "["@ + join_items(al, locale_item()) + "]"@
}

/// A keyed locale pair.
pub open spec fn locale_pair_item() -> spec_fn((String, LocaleEntry)) -> Seq<char> {
    |kv: (String, LocaleEntry)| json_quoted(kv.0@) + ":"@ + locale_entry_json(kv.1)
}

/// A labels or descriptions section: a language-keyed object.
pub open spec fn locale_map_json(entries: Seq<(String, LocaleEntry)>) -> Seq<char> {
    "{"@ + join_items(entries, locale_pair_item()) + "}"@
}

/// One site-link action object.
pub open spec fn sitelink_entry_json(e: SiteLinkEntry) -> Seq<char> {
    "{\"badges\":"@ + badges_json(e.badges@) + (if e.remove {
        ",\"remove\":\"\""@
    } else {
        Seq::empty()
    }) + ",\"site\":"@ + json_quoted(e.site@) + ",\"title\":"@ + json_quoted(e.title@) + "}"@
}

/// A keyed site-link pair.
pub open spec fn sitelink_pair_item() -> spec_fn((String, SiteLinkEntry)) -> Seq<char> {
    |kv: (String, SiteLinkEntry)| json_quoted(kv.0@) + ":"@ + sitelink_entry_json(kv.1)
}

/// The site-links section: a site-keyed object.
pub open spec fn sitelink_map_json(entries: Seq<(String, SiteLinkEntry)>) -> Seq<char> {
    "{"@ + join_items(entries, sitelink_pair_item()) + "}"@
}

/// A section chunk item: already-rendered text.
pub open spec fn chunk_item() -> spec_fn(Seq<char>) -> Seq<char> {
    |x: Seq<char>| x
}

/// The rendered chunks of the non-empty sections, in key order.
pub open spec fn patch_chunks(p: Patch) -> Seq<Seq<char>> {
    (if p.aliases@.len() > 0 {
        seq!["\"aliases\":"@ + aliases_json(p.aliases@)]
    } else {
        Seq::empty()
    }) + (if p.claims@.len() > 0 {
        seq!["\"claims\":"@ + claims_json(p.claims@)]
    } else {
        Seq::empty()
    }) + (if p.descriptions.entries@.len() > 0 {
        seq!["\"descriptions\":"@ + locale_map_json(p.descriptions.entries@)]
    } else {
        Seq::empty()
    }) + (if p.labels.entries@.len() > 0 {
        seq!["\"labels\":"@ + locale_map_json(p.labels.entries@)]
    } else {
        Seq::empty()
    }) + (if p.sitelinks.entries@.len() > 0 {
        seq!["\"sitelinks\":"@ + sitelink_map_json(p.sitelinks.entries@)]
    } else {
        Seq::empty()
    })
}

/// The whole patch document in its wire form.
pub open spec fn patch_json(p: Patch) -> Seq<char> {
    "{"@ + join_items(patch_chunks(p), chunk_item()) + "}"@
}

fn append_opt_text(out: &mut String, o: &Option<String>)
    ensures
        final(out)@ == old(out)@ + opt_text_json(*o),
{
    match o {
        Option::None => {
            out.append("null");
        },
        Option::Some(s) => {
            append_json_string(out, s.as_str());
        },
    }
}

fn append_value(out: &mut String, v: &Value)
    ensures
        final(out)@ == old(out)@ + value_json(*v),
{
    match v {
        Value::Coordinate(a) => {
            out.append("{\"altitude\":");
            append_opt_text(out, &a.altitude);
            out.append(",\"globe\":");
            append_json_string(out, a.globe.as_str());
            out.append(",\"latitude\":");
            append_json_string(out, a.latitude.as_str());
            out.append(",\"longitude\":");
            append_json_string(out, a.longitude.as_str());
            out.append(",\"precision\":");
            append_json_string(out, a.precision.as_str());
            out.append("}");
            proof {
                assert(out@ =~= old(out)@ + value_json(*v));
            }
        },
        Value::MonoLingual(a) => {
            out.append("{\"language\":");
            append_json_string(out, a.language.as_str());
            out.append(",\"text\":");
            append_json_string(out, a.text.as_str());
            out.append("}");
            proof {
                assert(out@ =~= old(out)@ + value_json(*v));
            }
        },
        Value::Entity(a) => {
            out.append("{\"entity-type\":");
            append_json_string(out, a.entity_type.as_str());
            out.append(",\"id\":");
            append_json_string(out, a.id.as_str());
            out.append("}");
            proof {
                assert(out@ =~= old(out)@ + value_json(*v));
            }
        },
        Value::Quantity(a) => {
            out.append("{\"amount\":");
            append_json_string(out, a.amount.as_str());
            out.append(",\"lowerBound\":");
            append_opt_text(out, &a.lower_bound);
            out.append(",\"unit\":");
            append_json_string(out, a.unit.as_str());
            out.append(",\"upperBound\":");
            append_opt_text(out, &a.upper_bound);
            out.append("}");
            proof {
                assert(out@ =~= old(out)@ + value_json(*v));
            }
        },
        Value::StringValue(a) => {
            append_json_string(out, a.as_str());
            proof {
                assert(out@ =~= old(out)@ + value_json(*v));
            }
        },
        Value::Time(a) => {
            out.append("{\"after\":");
            append_json_string(out, a.after.as_str());
            out.append(",\"before\":");
            append_json_string(out, a.before.as_str());
            out.append(",\"calendarmodel\":");
            append_json_string(out, a.calendarmodel.as_str());
            out.append(",\"precision\":");
            append_json_string(out, a.precision.as_str());
            out.append(",\"time\":");
            append_json_string(out, a.time.as_str());
            out.append(",\"timezone\":");
            append_json_string(out, a.timezone.as_str());
            out.append("}");
            proof {
                assert(out@ =~= old(out)@ + value_json(*v));
            }
        },
    }
}

fn append_value_type(out: &mut String, t: ValueType)
    ensures
        final(out)@ == old(out)@ + value_type_json(t),
{
    match t {
        ValueType::Coordinate => out.append("\"globecoordinate\""),
        ValueType::EntityId => out.append("\"wikibase-entityid\""),
        ValueType::MonoLingualText => out.append("\"monolingualtext\""),
        ValueType::Quantity => out.append("\"quantity\""),
        ValueType::StringType => out.append("\"string\""),
        ValueType::Time => out.append("\"time\""),
    }
}

fn append_data_value(out: &mut String, dv: &DataValue)
    ensures
        final(out)@ == old(out)@ + data_value_json(*dv),
{
    out.append("{\"type\":");
    append_value_type(out, dv.value_type);
    out.append(",\"value\":");
    append_value(out, &dv.value);
    out.append("}");
    proof {
        assert(out@ =~= old(out)@ + data_value_json(*dv));
    }
}

fn append_snak_type(out: &mut String, t: SnakType)
    ensures
        final(out)@ == old(out)@ + snak_type_json(t),
{
    match t {
        SnakType::Value => out.append("\"value\""),
        SnakType::NoValue => out.append("\"novalue\""),
        SnakType::SomeValue => out.append("\"somevalue\""),
    }
}

fn append_snak(out: &mut String, s: &Snak)
    ensures
        final(out)@ == old(out)@ + snak_json(*s),
{
    out.append("{\"datatype\":");
    append_json_string(out, s.datatype.as_str());
    match &s.data_value {
        Option::Some(dv) => {
            out.append(",\"datavalue\":");
            append_data_value(out, dv);
        },
        Option::None => {},
    }
    out.append(",\"property\":");
    append_json_string(out, s.property.as_str());
    out.append(",\"snaktype\":");
    append_snak_type(out, s.snak_type);
    out.append("}");
    proof {
        assert(out@ =~= old(out)@ + snak_json(*s));
    }
}

fn append_snak_list(out: &mut String, snaks: &Vec<Snak>)
    ensures
        final(out)@ == old(out)@ + snak_list_json(snaks@),
{
    out.append("[");
    proof {
        assert(out@ =~= old(out)@ + "["@ + join_items(snaks@.take(0), snak_item()));
    }
    let mut i: usize = 0;
    while i < snaks.len()
        invariant
            0 <= i <= snaks@.len(),
            out@ == old(out)@ + "["@ + join_items(snaks@.take(i as int), snak_item()),
        decreases snaks@.len() - i,
    {
        if i > 0 {
            out.append(",");
        }
        append_snak(out, &snaks[i]);
        proof {
            lemma_join_items_push(snaks@.take(i as int), snak_item(), snaks@[i as int]);
            assert(snaks@.take(i as int).push(snaks@[i as int]) =~= snaks@.take(i as int + 1));
            assert(out@ =~= old(out)@ + "["@ + join_items(snaks@.take(i as int + 1), snak_item()));
        }
        i += 1;
    }
    out.append("]");
    proof {
        assert(snaks@.take(snaks@.len() as int) =~= snaks@);
        assert(out@ =~= old(out)@ + snak_list_json(snaks@));
    }
}

fn append_references(out: &mut String, rs: &Vec<Reference>)
    ensures
        final(out)@ == old(out)@ + references_json(rs@),
{
    out.append("[");
    proof {
        assert(out@ =~= old(out)@ + "["@ + join_items(rs@.take(0), reference_item()));
    }
    let mut i: usize = 0;
    while i < rs.len()
        invariant
            0 <= i <= rs@.len(),
            out@ == old(out)@ + "["@ + join_items(rs@.take(i as int), reference_item()),
        decreases rs@.len() - i,
    {
        if i > 0 {
            out.append(",");
        }
        out.append("{\"snaks\":");
        append_snak_list(out, &rs[i].snaks);
        out.append("}");
        proof {
            lemma_join_items_push(rs@.take(i as int), reference_item(), rs@[i as int]);
            assert(rs@.take(i as int).push(rs@[i as int]) =~= rs@.take(i as int + 1));
            assert(out@ =~= old(out)@ + "["@ + join_items(rs@.take(i as int + 1), reference_item()));
        }
        i += 1;
    }
    out.append("]");
    proof {
        assert(rs@.take(rs@.len() as int) =~= rs@);
        assert(out@ =~= old(out)@ + references_json(rs@));
    }
}

fn append_rank(out: &mut String, r: Rank)
    ensures
        final(out)@ == old(out)@ + rank_json(r),
{
    match r {
        Rank::Preferred => out.append("\"preferred\""),
        Rank::Normal => out.append("\"normal\""),
        Rank::Deprecated => out.append("\"deprecated\""),
    }
}

#[verifier::rlimit(50)]
fn append_statement(out: &mut String, st: &Statement)
    ensures
        final(out)@ == old(out)@ + statement_json(*st),
{
    out.append("{\"mainsnak\":");
    append_snak(out, &st.main_snak);
    out.append(",\"qualifiers\":");
    append_snak_list(out, &st.qualifiers);
    out.append(",\"rank\":");
    append_rank(out, st.rank);
    out.append(",\"references\":");
    append_references(out, &st.references);
    out.append(",\"type\":");
    append_json_string(out, st.claim_type.as_str());
    out.append("}");
    proof {
        assert(out@ =~= old(out)@ + statement_json(*st));
    }
}

fn append_claim_entry(out: &mut String, e: &ClaimEntry)
    ensures
        final(out)@ == old(out)@ + claim_entry_json(*e),
{
    match e {
        ClaimEntry::Add(st) => {
            append_statement(out, st);
        },
        ClaimEntry::Alter(st) => {
            append_statement(out, st);
        },
        ClaimEntry::Remove(p) => {
            out.append("{\"property\":");
            append_json_string(out, p.as_str());
            out.append(",\"remove\":\"\"}");
            proof {
                assert(out@ =~= old(out)@ + claim_entry_json(*e));
            }
        },
    }
}

fn append_claims(out: &mut String, cs: &Vec<ClaimEntry>)
    ensures
        final(out)@ == old(out)@ + claims_json(cs@),
{
    out.append("[");
    proof {
        assert(out@ =~= old(out)@ + "["@ + join_items(cs@.take(0), claim_item()));
    }
    let mut i: usize = 0;
    while i < cs.len()
        invariant
            0 <= i <= cs@.len(),
            out@ == old(out)@ + "["@ + join_items(cs@.take(i as int), claim_item()),
        decreases cs@.len() - i,
    {
        if i > 0 {
            out.append(",");
        }
        append_claim_entry(out, &cs[i]);
        proof {
            lemma_join_items_push(cs@.take(i as int), claim_item(), cs@[i as int]);
            assert(cs@.take(i as int).push(cs@[i as int]) =~= cs@.take(i as int + 1));
            assert(out@ =~= old(out)@ + "["@ + join_items(cs@.take(i as int + 1), claim_item()));
        }
        i += 1;
    }
    out.append("]");
    proof {
        assert(cs@.take(cs@.len() as int) =~= cs@);
        assert(out@ =~= old(out)@ + claims_json(cs@));
    }
}

fn append_locale_entry(out: &mut String, e: &LocaleEntry)
    ensures
        final(out)@ == old(out)@ + locale_entry_json(*e),
{
    out.append("{\"language\":");
    append_json_string(out, e.language.as_str());
    if e.remove {
        out.append(",\"remove\":\"\"");
    }
    out.append(",\"value\":");
    append_json_string(out, e.value.as_str());
    out.append("}");
    proof {
        assert(out@ =~= old(out)@ + locale_entry_json(*e));
    }
}

fn append_aliases(out: &mut String, al: &Vec<LocaleEntry>)
    ensures
        final(out)@ == old(out)@ + aliases_json(al@),
{
    out.append("[");
    proof {
        assert(out@ =~= old(out)@ + "["@ + join_items(al@.take(0), locale_item()));
    }
    let mut i: usize = 0;
    while i < al.len()
        invariant
            0 <= i <= al@.len(),
            out@ == old(out)@ + "["@ + join_items(al@.take(i as int), locale_item()),
        decreases al@.len() - i,
    {
        if i > 0 {
            out.append(",");
        }
        append_locale_entry(out, &al[i]);
        proof {
            lemma_join_items_push(al@.take(i as int), locale_item(), al@[i as int]);
            assert(al@.take(i as int).push(al@[i as int]) =~= al@.take(i as int + 1));
            assert(out@ =~= old(out)@ + "["@ + join_items(al@.take(i as int + 1), locale_item()));
        }
        i += 1;
    }
    out.append("]");
    proof {
        assert(al@.take(al@.len() as int) =~= al@);
        assert(out@ =~= old(out)@ + aliases_json(al@));
    }
}

fn append_locale_map(out: &mut String, entries: &Vec<(String, LocaleEntry)>)
    ensures
        final(out)@ == old(out)@ + locale_map_json(entries@),
{
    out.append("{");
    proof {
        assert(out@ =~= old(out)@ + "{"@ + join_items(entries@.take(0), locale_pair_item()));
    }
    let mut i: usize = 0;
    while i < entries.len()
        invariant
            0 <= i <= entries@.len(),
            out@ == old(out)@ + "{"@ + join_items(entries@.take(i as int), locale_pair_item()),
        decreases entries@.len() - i,
    {
        if i > 0 {
            out.append(",");
        }
        append_json_string(out, entries[i].0.as_str());
        out.append(":");
        append_locale_entry(out, &entries[i].1);
        proof {
            lemma_join_items_push(entries@.take(i as int), locale_pair_item(), entries@[i as int]);
            assert(entries@.take(i as int).push(entries@[i as int]) =~= entries@.take(i as int + 1));
            assert(out@ =~= old(out)@ + "{"@ + join_items(entries@.take(i as int + 1), locale_pair_item()));
        }
        i += 1;
    }
    out.append("}");
    proof {
        assert(entries@.take(entries@.len() as int) =~= entries@);
        assert(out@ =~= old(out)@ + locale_map_json(entries@));
    }
}

fn append_badges(out: &mut String, b: &Vec<String>)
    ensures
        final(out)@ == old(out)@ + badges_json(b@),
{
    out.append("[");
    proof {
        assert(out@ =~= old(out)@ + "["@ + join_items(b@.take(0), quoted_item()));
    }
    let mut i: usize = 0;
    while i < b.len()
        invariant
            0 <= i <= b@.len(),
            out@ == old(out)@ + "["@ + join_items(b@.take(i as int), quoted_item()),
        decreases b@.len() - i,
    {
        if i > 0 {
            out.append(",");
        }
        append_json_string(out, b[i].as_str());
        proof {
            lemma_join_items_push(b@.take(i as int), quoted_item(), b@[i as int]);
            assert(b@.take(i as int).push(b@[i as int]) =~= b@.take(i as int + 1));
            assert(out@ =~= old(out)@ + "["@ + join_items(b@.take(i as int + 1), quoted_item()));
        }
        i += 1;
    }
    out.append("]");
    proof {
        assert(b@.take(b@.len() as int) =~= b@);
        assert(out@ =~= old(out)@ + badges_json(b@));
    }
}

fn append_sitelink_entry(out: &mut String, e: &SiteLinkEntry)
    ensures
        final(out)@ == old(out)@ + sitelink_entry_json(*e),
{
    out.append("{\"badges\":");
    append_badges(out, &e.badges);
    if e.remove {
        out.append(",\"remove\":\"\"");
    }
    out.append(",\"site\":");
    append_json_string(out, e.site.as_str());
    out.append(",\"title\":");
    append_json_string(out, e.title.as_str());
    out.append("}");
    proof {
        assert(out@ =~= old(out)@ + sitelink_entry_json(*e));
    }
}

#[verifier::rlimit(60)]
fn append_sitelink_map(out: &mut String, entries: &Vec<(String, SiteLinkEntry)>)
    ensures
        final(out)@ == old(out)@ + sitelink_map_json(entries@),
{
    out.append("{");
    proof {
        assert(out@ =~= old(out)@ + "{"@ + join_items(entries@.take(0), sitelink_pair_item()));
    }
    let mut i: usize = 0;
    while i < entries.len()
        invariant
            0 <= i <= entries@.len(),
            out@ == old(out)@ + "{"@ + join_items(entries@.take(i as int), sitelink_pair_item()),
        decreases entries@.len() - i,
    {
        if i > 0 {
            out.append(",");
        }
        append_json_string(out, entries[i].0.as_str());
        out.append(":");
        append_sitelink_entry(out, &entries[i].1);
        proof {
            lemma_join_items_push(entries@.take(i as int), sitelink_pair_item(), entries@[i as int]);
            assert(entries@.take(i as int).push(entries@[i as int]) =~= entries@.take(i as int + 1));
            assert(out@ =~= old(out)@ + "{"@ + join_items(entries@.take(i as int + 1), sitelink_pair_item()));
        }
        i += 1;
    }
    out.append("}");
    proof {
        assert(entries@.take(entries@.len() as int) =~= entries@);
        assert(out@ =~= old(out)@ + sitelink_map_json(entries@));
    }
}

/// Renders the whole patch document.
/// Renders the whole patch document.
#[verifier::rlimit(60)]
pub fn patch_to_json(p: &Patch) -> (r: String)
    ensures
        r@ == patch_json(*p),
{
    let mut out = String::new();
    out.append("{");
    let mut first: bool = true;
    let ghost mut done: Seq<Seq<char>> = Seq::empty();
    let ghost mut body: Seq<char> = Seq::empty();
    proof {
        assert(out@ =~= "{"@ + body);
        assert(body == join_items(done, chunk_item()));
    }
    if p.aliases.len() > 0 {
        if !first {
            out.append(",");
        }
        first = false;
        out.append("\"aliases\":");
        append_aliases(&mut out, &p.aliases);
        proof {
            let chunk = "\"aliases\":"@ + aliases_json(p.aliases@);
            lemma_join_items_push(done, chunk_item(), chunk);
            if done.len() == 0 {
                assert(("{"@ + body) =~= "{"@);
                vstd::seq_lib::lemma_concat_associative("{"@, "\"aliases\":"@, aliases_json(p.aliases@));
                body = chunk;
            } else {
                vstd::seq_lib::lemma_concat_associative("{"@, body, ","@);
                vstd::seq_lib::lemma_concat_associative("{"@, body + ","@, "\"aliases\":"@);
                vstd::seq_lib::lemma_concat_associative("{"@, (body + ","@) + "\"aliases\":"@, aliases_json(p.aliases@));
                vstd::seq_lib::lemma_concat_associative(body + ","@, "\"aliases\":"@, aliases_json(p.aliases@));
                body = (body + ","@) + chunk;
            }
            done = done.push(chunk);
            assert(out@ == "{"@ + body);
            assert(body == join_items(done, chunk_item()));
        }
    }
    if p.claims.len() > 0 {
        if !first {
            out.append(",");
        }
        first = false;
        out.append("\"claims\":");
        append_claims(&mut out, &p.claims);
        proof {
            let chunk = "\"claims\":"@ + claims_json(p.claims@);
            lemma_join_items_push(done, chunk_item(), chunk);
            if done.len() == 0 {
                assert(("{"@ + body) =~= "{"@);
                vstd::seq_lib::lemma_concat_associative("{"@, "\"claims\":"@, claims_json(p.claims@));
                body = chunk;
            } else {
                vstd::seq_lib::lemma_concat_associative("{"@, body, ","@);
                vstd::seq_lib::lemma_concat_associative("{"@, body + ","@, "\"claims\":"@);
                vstd::seq_lib::lemma_concat_associative("{"@, (body + ","@) + "\"claims\":"@, claims_json(p.claims@));
                vstd::seq_lib::lemma_concat_associative(body + ","@, "\"claims\":"@, claims_json(p.claims@));
                body = (body + ","@) + chunk;
            }
            done = done.push(chunk);
            assert(out@ == "{"@ + body);
            assert(body == join_items(done, chunk_item()));
        }
    }
    if p.descriptions.entries.len() > 0 {
        if !first {
            out.append(",");
        }
        first = false;
        out.append("\"descriptions\":");
        append_locale_map(&mut out, &p.descriptions.entries);
        proof {
            let chunk = "\"descriptions\":"@ + locale_map_json(p.descriptions.entries@);
            lemma_join_items_push(done, chunk_item(), chunk);
            if done.len() == 0 {
                assert(("{"@ + body) =~= "{"@);
                vstd::seq_lib::lemma_concat_associative("{"@, "\"descriptions\":"@, locale_map_json(p.descriptions.entries@));
                body = chunk;
            } else {
                vstd::seq_lib::lemma_concat_associative("{"@, body, ","@);
                vstd::seq_lib::lemma_concat_associative("{"@, body + ","@, "\"descriptions\":"@);
                vstd::seq_lib::lemma_concat_associative("{"@, (body + ","@) + "\"descriptions\":"@, locale_map_json(p.descriptions.entries@));
                vstd::seq_lib::lemma_concat_associative(body + ","@, "\"descriptions\":"@, locale_map_json(p.descriptions.entries@));
                body = (body + ","@) + chunk;
            }
            done = done.push(chunk);
            assert(out@ == "{"@ + body);
            assert(body == join_items(done, chunk_item()));
        }
    }
    if p.labels.entries.len() > 0 {
        if !first {
            out.append(",");
        }
        first = false;
        out.append("\"labels\":");
        append_locale_map(&mut out, &p.labels.entries);
        proof {
            let chunk = "\"labels\":"@ + locale_map_json(p.labels.entries@);
            lemma_join_items_push(done, chunk_item(), chunk);
            if done.len() == 0 {
                assert(("{"@ + body) =~= "{"@);
                vstd::seq_lib::lemma_concat_associative("{"@, "\"labels\":"@, locale_map_json(p.labels.entries@));
                body = chunk;
            } else {
                vstd::seq_lib::lemma_concat_associative("{"@, body, ","@);
                vstd::seq_lib::lemma_concat_associative("{"@, body + ","@, "\"labels\":"@);
                vstd::seq_lib::lemma_concat_associative("{"@, (body + ","@) + "\"labels\":"@, locale_map_json(p.labels.entries@));
                vstd::seq_lib::lemma_concat_associative(body + ","@, "\"labels\":"@, locale_map_json(p.labels.entries@));
                body = (body + ","@) + chunk;
            }
            done = done.push(chunk);
            assert(out@ == "{"@ + body);
            assert(body == join_items(done, chunk_item()));
        }
    }
    if p.sitelinks.entries.len() > 0 {
        if !first {
            out.append(",");
        }
        first = false;
        out.append("\"sitelinks\":");
        append_sitelink_map(&mut out, &p.sitelinks.entries);
        proof {
            let chunk = "\"sitelinks\":"@ + sitelink_map_json(p.sitelinks.entries@);
            lemma_join_items_push(done, chunk_item(), chunk);
            if done.len() == 0 {
                assert(("{"@ + body) =~= "{"@);
                vstd::seq_lib::lemma_concat_associative("{"@, "\"sitelinks\":"@, sitelink_map_json(p.sitelinks.entries@));
                body = chunk;
            } else {
                vstd::seq_lib::lemma_concat_associative("{"@, body, ","@);
                vstd::seq_lib::lemma_concat_associative("{"@, body + ","@, "\"sitelinks\":"@);
                vstd::seq_lib::lemma_concat_associative("{"@, (body + ","@) + "\"sitelinks\":"@, sitelink_map_json(p.sitelinks.entries@));
                vstd::seq_lib::lemma_concat_associative(body + ","@, "\"sitelinks\":"@, sitelink_map_json(p.sitelinks.entries@));
                body = (body + ","@) + chunk;
            }
            done = done.push(chunk);
            assert(out@ == "{"@ + body);
            assert(body == join_items(done, chunk_item()));
        }
    }
    out.append("}");
    proof {
        assert(done =~= patch_chunks(*p));
        assert(out@ == ("{"@ + body) + "}"@);
        assert(out@ == patch_json(*p));
    }
    out
}

} // verus!

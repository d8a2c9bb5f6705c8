//! The entity value model: a closed sum type for snak values and the
//! container types built from it (snaks, statements, site-links, entities).
//!
//! Numeric leaves (coordinates, quantity amounts and bounds, time offsets)
//! are carried as their decimal wire text and compared verbatim; the
//! comparator never does arithmetic on them, so the text is the value.

use vstd::prelude::*;

verus! {

/// A language-tagged text value (one label, description or alias).
#[derive(Clone, Debug)]
pub struct LocaleString {
    pub language: String,
    pub value: String,
}

impl LocaleString {
    pub fn new(language: &str, value: &str) -> (r: LocaleString)
        ensures
            r.language@ == language@,
            r.value@ == value@,
    {
        LocaleString { language: language.to_owned(), value: value.to_owned() }
    }
}

/// A link from the entity to a page of one site, with badge ids.
#[derive(Clone, Debug)]
pub struct SiteLink {
    pub site: String,
    pub title: String,
    pub badges: Vec<String>,
}

impl SiteLink {
    pub fn new(site: &str, title: &str, badges: Vec<String>) -> (r: SiteLink)
        ensures
            r.site@ == site@,
            r.title@ == title@,
            r.badges == badges,
    {
        SiteLink { site: site.to_owned(), title: title.to_owned(), badges }
    }
}

/// A globe coordinate; only globe, latitude and longitude identify it.
#[derive(Clone, Debug)]
pub struct CoordinateValue {
    pub globe: String,
    pub latitude: String,
    pub longitude: String,
    pub altitude: Option<String>,
    pub precision: String,
}

/// A text value in one language.
#[derive(Clone, Debug)]
pub struct MonoLingualValue {
    pub language: String,
    pub text: String,
}

/// A reference to another entity.
#[derive(Clone, Debug)]
pub struct EntityRefValue {
    pub entity_type: String,
    pub id: String,
}

/// An amount with a unit; the bounds are metadata.
#[derive(Clone, Debug)]
pub struct QuantityValue {
    pub amount: String,
    pub unit: String,
    pub lower_bound: Option<String>,
    pub upper_bound: Option<String>,
}

/// A point in time; before, after and timezone are metadata.
#[derive(Clone, Debug)]
pub struct TimeValue {
    pub calendarmodel: String,
    pub precision: String,
    pub time: String,
    pub before: String,
    pub after: String,
    pub timezone: String,
}

/// The closed set of snak value kinds.
#[derive(Clone, Debug)]
pub enum Value {
    Coordinate(CoordinateValue),
    MonoLingual(MonoLingualValue),
    Entity(EntityRefValue),
    Quantity(QuantityValue),
    StringValue(String),
    Time(TimeValue),
}

/// The declared kind tag of a data value, carried beside the value itself.
#[derive(Clone, Copy, Debug, PartialEq, Eq, Structural)]
pub enum ValueType {
    Coordinate,
    EntityId,
    MonoLingualText,
    Quantity,
    StringType,
    Time,
}

/// A data value: the declared kind tag and the value.
#[derive(Clone, Debug)]
pub struct DataValue {
    pub value_type: ValueType,
    pub value: Value,
}

/// Whether a snak carries a value, no value, or some unknown value.
#[derive(Clone, Copy, Debug, PartialEq, Eq, Structural)]
pub enum SnakType {
    Value,
    NoValue,
    SomeValue,
}

/// The (property, datatype, snak-type, optional value) unit underlying a
/// statement's main assertion or a qualifier.
#[derive(Clone, Debug)]
pub struct Snak {
    pub property: String,
    pub datatype: String,
    pub snak_type: SnakType,
    pub data_value: Option<DataValue>,
}

impl Snak {
    pub fn new_value_snak(property: &str, datatype: &str, data_value: DataValue) -> (r: Snak)
        ensures
            r.property@ == property@,
            r.datatype@ == datatype@,
            r.snak_type == SnakType::Value,
            r.data_value == Some(data_value),
    {
        Snak {
            property: property.to_owned(),
            datatype: datatype.to_owned(),
            snak_type: SnakType::Value,
            data_value: Some(data_value),
        }
    }
}

/// A statement's rank.
#[derive(Clone, Copy, Debug, PartialEq, Eq, Structural)]
pub enum Rank {
    Preferred,
    Normal,
    Deprecated,
}

/// A reference: an ordered list of snaks, treated opaquely by the comparator.
#[derive(Clone, Debug)]
pub struct Reference {
    pub snaks: Vec<Snak>,
}

/// A property-value assertion with rank, qualifiers and references.
#[derive(Clone, Debug)]
pub struct Statement {
    pub claim_type: String,
    pub main_snak: Snak,
    pub rank: Rank,
    pub qualifiers: Vec<Snak>,
    pub references: Vec<Reference>,
}

impl Statement {
    pub fn new(claim_type: &str, main_snak: Snak, rank: Rank, qualifiers: Vec<Snak>, references: Vec<Reference>) -> (r: Statement)
        ensures
            r.claim_type@ == claim_type@,
            r.main_snak == main_snak,
            r.rank == rank,
            r.qualifiers == qualifiers,
            r.references == references,
    {
        Statement { claim_type: claim_type.to_owned(), main_snak, rank, qualifiers, references }
    }
}

/// No two entries share a language.
pub open spec fn unique_langs(l: Seq<LocaleString>) -> bool {
    forall|i: int, j: int| 0 <= i < j < l.len() ==> l[i].language@ != l[j].language@
}

/// No two site-links share a site.
pub open spec fn unique_sites(l: Seq<SiteLink>) -> bool {
    forall|i: int, j: int| 0 <= i < j < l.len() ==> l[i].site@ != l[j].site@
}

/// First position at or after `i` whose entry is for `lang`, or -1.
pub open spec fn first_lang_from(l: Seq<LocaleString>, lang: Seq<char>, i: int) -> int
    decreases l.len() - i,
{
    if i < 0 || i >= l.len() {
        -1
    } else if l[i].language@ == lang {
        i
    } else {
        first_lang_from(l, lang, i + 1)
    }
}

/// First position at or after `i` whose site-link is for `site`, or -1.
pub open spec fn first_site_from(l: Seq<SiteLink>, site: Seq<char>, i: int) -> int
    decreases l.len() - i,
{
    if i < 0 || i >= l.len() {
        -1
    } else if l[i].site@ == site {
        i
    } else {
        first_site_from(l, site, i + 1)
    }
}

/// The first same-language position is a same-language position, no earlier
/// one is, and -1 means there is none.
pub proof fn lemma_first_lang_from(l: Seq<LocaleString>, lang: Seq<char>, i: int)
    requires
        0 <= i <= l.len(),
    ensures
        first_lang_from(l, lang, i) == -1 ==> forall|j: int| i <= j < l.len() ==> l[j].language@ != lang,
        first_lang_from(l, lang, i) != -1 ==> {
            &&& i <= first_lang_from(l, lang, i) < l.len()
            &&& l[first_lang_from(l, lang, i)].language@ == lang
            &&& forall|j: int| i <= j < first_lang_from(l, lang, i) ==> l[j].language@ != lang
        },
    decreases l.len() - i,
{
    if i < l.len() && l[i].language@ != lang {
        lemma_first_lang_from(l, lang, i + 1);
    }
}

/// The same, for site-links.
pub proof fn lemma_first_site_from(l: Seq<SiteLink>, site: Seq<char>, i: int)
    requires
        0 <= i <= l.len(),
    ensures
        first_site_from(l, site, i) == -1 ==> forall|j: int| i <= j < l.len() ==> l[j].site@ != site,
        first_site_from(l, site, i) != -1 ==> {
            &&& i <= first_site_from(l, site, i) < l.len()
            &&& l[first_site_from(l, site, i)].site@ == site
            &&& forall|j: int| i <= j < first_site_from(l, site, i) ==> l[j].site@ != site
        },
    decreases l.len() - i,
{
    if i < l.len() && l[i].site@ != site {
        lemma_first_site_from(l, site, i + 1);
    }
}

/// A knowledge-base record: localized texts, statements and site-links.
/// The id is absent for not-yet-created entities.
#[derive(Clone, Debug)]
pub struct Entity {
    pub id: Option<String>,
    pub labels: Vec<LocaleString>,
    pub descriptions: Vec<LocaleString>,
    pub aliases: Vec<LocaleString>,
    pub claims: Vec<Statement>,
    pub sitelinks: Option<Vec<SiteLink>>,
}

impl Entity {
    /// At most one label and one description per language, and at most one
    /// site-link per site.
    pub open spec fn well_formed(&self) -> bool {
        &&& unique_langs(self.labels@)
        &&& unique_langs(self.descriptions@)
        &&& match self.sitelinks {
            Some(sl) => unique_sites(sl@),
            None => true,
        }
    }

    /// An entity with no content and no id.
    pub fn new_empty() -> (r: Entity)
        ensures
            r.id is None,
            r.labels@.len() == 0,
            r.descriptions@.len() == 0,
            r.aliases@.len() == 0,
            r.claims@.len() == 0,
            r.sitelinks is None,
            r.well_formed(),
    {
        Entity {
            id: None,
            labels: Vec::new(),
            descriptions: Vec::new(),
            aliases: Vec::new(),
            claims: Vec::new(),
            sitelinks: None,
        }
    }

    /// Sets the label for `label.language`, replacing an existing one.
    pub fn set_label(&mut self, label: LocaleString)
        ensures
            final(self).labels@ == spec_set_locale(old(self).labels@, label),
            final(self).descriptions == old(self).descriptions,
            final(self).aliases == old(self).aliases,
            final(self).claims == old(self).claims,
            final(self).sitelinks == old(self).sitelinks,
            final(self).id == old(self).id,
            old(self).well_formed() ==> final(self).well_formed(),
    {
        set_locale_in(&mut self.labels, label);
        proof {
            if old(self).well_formed() {
                lemma_set_locale_unique(old(self).labels@, label);
            }
        }
    }

    /// Sets the description for `description.language`, replacing an existing one.
    pub fn set_description(&mut self, description: LocaleString)
        ensures
            final(self).descriptions@ == spec_set_locale(old(self).descriptions@, description),
            final(self).labels == old(self).labels,
            final(self).aliases == old(self).aliases,
            final(self).claims == old(self).claims,
            final(self).sitelinks == old(self).sitelinks,
            final(self).id == old(self).id,
            old(self).well_formed() ==> final(self).well_formed(),
    {
        set_locale_in(&mut self.descriptions, description);
        proof {
            if old(self).well_formed() {
                lemma_set_locale_unique(old(self).descriptions@, description);
            }
        }
    }

    /// Appends an alias; several aliases per language are legal.
    pub fn add_alias(&mut self, alias: LocaleString)
        ensures
            final(self).aliases@ == old(self).aliases@.push(alias),
            final(self).labels == old(self).labels,
            final(self).descriptions == old(self).descriptions,
            final(self).claims == old(self).claims,
            final(self).sitelinks == old(self).sitelinks,
            final(self).id == old(self).id,
            old(self).well_formed() ==> final(self).well_formed(),
    {
        self.aliases.push(alias);
    }

    /// Appends a statement.
    pub fn add_claim(&mut self, claim: Statement)
        ensures
            final(self).claims@ == old(self).claims@.push(claim),
            final(self).labels == old(self).labels,
            final(self).descriptions == old(self).descriptions,
            final(self).aliases == old(self).aliases,
            final(self).sitelinks == old(self).sitelinks,
            final(self).id == old(self).id,
            old(self).well_formed() ==> final(self).well_formed(),
    {
        self.claims.push(claim);
    }

    /// Sets the site-link for `link.site`, replacing an existing one; an
    /// entity without a site-link set gets one.
    pub fn set_sitelink(&mut self, link: SiteLink)
        ensures
            final(self).sitelinks matches Some(sl) && sl@ == (match old(self).sitelinks {
                Some(osl) => spec_set_sitelink(osl@, link),
                None => seq![link],
            }),
            final(self).labels == old(self).labels,
            final(self).descriptions == old(self).descriptions,
            final(self).aliases == old(self).aliases,
            final(self).claims == old(self).claims,
            final(self).id == old(self).id,
            old(self).well_formed() ==> final(self).well_formed(),
    {
        match self.sitelinks.take() {
            Some(mut sl) => {
                set_sitelink_in(&mut sl, link);
                proof {
                    if old(self).well_formed() {
                        lemma_set_sitelink_unique(old(self).sitelinks->Some_0@, link);
                    }
                }
                self.sitelinks = Some(sl);
            },
            None => {
                let mut sl: Vec<SiteLink> = Vec::new();
                sl.push(link);
                self.sitelinks = Some(sl);
            },
        }
    }
}

/// `l` with the first entry for `ls.language` replaced by `ls`, or `ls`
/// appended when no entry for that language exists.
pub open spec fn spec_set_locale(l: Seq<LocaleString>, ls: LocaleString) -> Seq<LocaleString> {
    let i = first_lang_from(l, ls.language@, 0);
    if i == -1 {
        l.push(ls)
    } else {
        l.update(i, ls)
    }
}

/// `l` with the first link for `link.site` replaced by `link`, or `link`
/// appended when no link for that site exists.
pub open spec fn spec_set_sitelink(l: Seq<SiteLink>, link: SiteLink) -> Seq<SiteLink> {
    let i = first_site_from(l, link.site@, 0);
    if i == -1 {
        l.push(link)
    } else {
        l.update(i, link)
    }
}

proof fn lemma_set_locale_unique(l: Seq<LocaleString>, ls: LocaleString)
    requires
        unique_langs(l),
    ensures
        unique_langs(spec_set_locale(l, ls)),
{
    lemma_first_lang_from(l, ls.language@, 0);
    let i = first_lang_from(l, ls.language@, 0);
    if i == -1 {
        assert forall|p: int, q: int| 0 <= p < q < l.push(ls).len() implies l.push(ls)[p].language@ != l.push(ls)[q].language@ by {
            if q < l.len() {
            } else {
                assert(l.push(ls)[q] == ls);
                assert(l.push(ls)[p] == l[p]);
            }
        }
    } else {
        let r = l.update(i, ls);
        assert forall|p: int, q: int| 0 <= p < q < r.len() implies r[p].language@ != r[q].language@ by {
            if p != i && q != i {
                assert(r[p] == l[p] && r[q] == l[q]);
            } else if p == i {
                assert(r[p].language@ == l[i].language@ && r[q] == l[q]);
            } else {
                assert(r[q].language@ == l[i].language@ && r[p] == l[p]);
            }
        }
    }
}

proof fn lemma_set_sitelink_unique(l: Seq<SiteLink>, link: SiteLink)
    requires
        unique_sites(l),
    ensures
        unique_sites(spec_set_sitelink(l, link)),
{
    lemma_first_site_from(l, link.site@, 0);
    let i = first_site_from(l, link.site@, 0);
    if i == -1 {
        assert forall|p: int, q: int| 0 <= p < q < l.push(link).len() implies l.push(link)[p].site@ != l.push(link)[q].site@ by {
            if q < l.len() {
            } else {
                assert(l.push(link)[q] == link);
                assert(l.push(link)[p] == l[p]);
            }
        }
    } else {
        let r = l.update(i, link);
        assert forall|p: int, q: int| 0 <= p < q < r.len() implies r[p].site@ != r[q].site@ by {
            if p != i && q != i {
                assert(r[p] == l[p] && r[q] == l[q]);
            } else if p == i {
                assert(r[p].site@ == l[i].site@ && r[q] == l[q]);
            } else {
                assert(r[q].site@ == l[i].site@ && r[p] == l[p]);
            }
        }
    }
}

/// Replaces the first same-language entry by `ls`, or appends `ls`.
fn set_locale_in(l: &mut Vec<LocaleString>, ls: LocaleString)
    ensures
        final(l)@ == spec_set_locale(old(l)@, ls),
{
    let mut i: usize = 0;
    while i < l.len()
        invariant
            l@ == old(l)@,
            0 <= i <= l@.len(),
            forall|j: int| 0 <= j < i ==> l@[j].language@ != ls.language@,
        decreases l@.len() - i,
    {
        if l[i].language == ls.language {
            proof {
                lemma_first_lang_from(l@, ls.language@, 0);
                let fi = first_lang_from(l@, ls.language@, 0);
                assert(l@[i as int].language@ == ls.language@);
                if fi == -1 {
                    assert(false);
                } else if fi < i as int {
                    assert(l@[fi].language@ != ls.language@);
                    assert(false);
                } else if fi > i as int {
                    assert(l@[i as int].language@ != ls.language@);
                    assert(false);
                }
            }
            l[i] = ls;
            proof {
                assert(l@ =~= spec_set_locale(old(l)@, ls));
            }
            return;
        }
        i += 1;
    }
    proof {
        lemma_first_lang_from(l@, ls.language@, 0);
        let fi = first_lang_from(l@, ls.language@, 0);
        if fi != -1 {
            assert(l@[fi].language@ == ls.language@);
            assert(false);
        }
    }
    l.push(ls);
}

/// Replaces the first same-site link by `link`, or appends `link`.
fn set_sitelink_in(l: &mut Vec<SiteLink>, link: SiteLink)
    ensures
        final(l)@ == spec_set_sitelink(old(l)@, link),
{
    let mut i: usize = 0;
    while i < l.len()
        invariant
            l@ == old(l)@,
            0 <= i <= l@.len(),
            forall|j: int| 0 <= j < i ==> l@[j].site@ != link.site@,
        decreases l@.len() - i,
    {
        if l[i].site == link.site {
            proof {
                lemma_first_site_from(l@, link.site@, 0);
                let fi = first_site_from(l@, link.site@, 0);
                assert(l@[i as int].site@ == link.site@);
                if fi == -1 {
                    assert(false);
                } else if fi < i as int {
                    assert(l@[fi].site@ != link.site@);
                    assert(false);
                } else if fi > i as int {
                    assert(l@[i as int].site@ != link.site@);
                    assert(false);
                }
            }
            l[i] = link;
            proof {
                assert(l@ =~= spec_set_sitelink(old(l)@, link));
            }
            return;
        }
        i += 1;
    }
    proof {
        lemma_first_site_from(l@, link.site@, 0);
        let fi = first_site_from(l@, link.site@, 0);
        if fi != -1 {
            assert(l@[fi].site@ == link.site@);
            assert(false);
        }
    }
    l.push(link);
}

} // verus!

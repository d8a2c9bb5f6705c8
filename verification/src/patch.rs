//! The patch document: an immutable, section-keyed description of the
//! authorized additions, removals and alterations between two entities.

use vstd::prelude::*;
use crate::model::Statement;
use crate::text::{lex_lt, str_lex_lt, lemma_lex_trichotomy, lemma_lex_trans};

verus! {

/// One keyed or appended locale action: the language, the value written
/// (the new value for additions and alterations, the old one for removals),
/// and whether the entry carries the remove marker.
#[derive(Clone, Debug)]
pub struct LocaleEntry {
    pub language: String,
    pub value: String,
    pub remove: bool,
}

/// One site-link action, keyed by site.
#[derive(Clone, Debug)]
pub struct SiteLinkEntry {
    pub site: String,
    pub title: String,
    pub badges: Vec<String>,
    pub remove: bool,
}

/// One statement action. Additions and alterations carry the full statement
/// payload (an alteration re-sends the replacement statement); removals
/// carry the property id and the remove marker.
#[derive(Clone, Debug)]
pub enum ClaimEntry {
    Add(Statement),
    Alter(Statement),
    Remove(String),
}

/// Whether the keys of `s` are strictly sorted in code-point order.
pub open spec fn keys_sorted<V>(s: Seq<(String, V)>) -> bool {
    forall|i: int, j: int| 0 <= i < j < s.len() ==> lex_lt(s[i].0@, s[j].0@)
}

/// `s` with `(k, v)` placed at its ordered position; an entry with the same
/// key is replaced.
pub open spec fn sorted_insert<V>(s: Seq<(String, V)>, k: String, v: V) -> Seq<(String, V)>
    decreases s.len(),
{
    if s.len() == 0 {
        seq![(k, v)]
    } else if lex_lt(s[0].0@, k@) {
        seq![s[0]] + sorted_insert(s.drop_first(), k, v)
    } else if s[0].0@ == k@ {
        seq![(k, v)] + s.drop_first()
    } else {
        seq![(k, v)] + s
    }
}

/// Where the insertion lands: with the first `i` keys below `k` and the key
/// at `i` (if any) not below `k`, the ordered insert replaces position `i`
/// on a key match and otherwise opens a slot there.
pub proof fn lemma_sorted_insert_at<V>(s: Seq<(String, V)>, k: String, v: V, i: int)
    requires
        0 <= i <= s.len(),
        forall|j: int| 0 <= j < i ==> lex_lt(s[j].0@, k@),
        i < s.len() ==> !lex_lt(s[i].0@, k@),
    ensures
        i < s.len() && s[i].0@ == k@ ==> sorted_insert(s, k, v) == s.update(i, (k, v)),
        !(i < s.len() && s[i].0@ == k@) ==> sorted_insert(s, k, v) == s.take(i) + seq![(k, v)] + s.skip(i),
    decreases i,
{
    if i == 0 {
        if s.len() == 0 {
            assert(sorted_insert(s, k, v) =~= s.take(0) + seq![(k, v)] + s.skip(0));
        } else if s[0].0@ == k@ {
            assert(sorted_insert(s, k, v) =~= s.update(0, (k, v)));
        } else {
            assert(sorted_insert(s, k, v) =~= s.take(0) + seq![(k, v)] + s.skip(0));
        }
    } else {
        let d = s.drop_first();
        assert(lex_lt(s[0].0@, k@));
        assert forall|j: int| 0 <= j < i - 1 implies lex_lt(d[j].0@, k@) by {
            assert(d[j] == s[j + 1]);
        }
        lemma_sorted_insert_at(d, k, v, i - 1);
        if i < s.len() && s[i].0@ == k@ {
            assert(d[i - 1] == s[i]);
            assert(sorted_insert(s, k, v) == seq![s[0]] + d.update(i - 1, (k, v)));
            assert(sorted_insert(s, k, v) =~= s.update(i, (k, v)));
        } else {
            assert(sorted_insert(s, k, v) == seq![s[0]] + (d.take(i - 1) + seq![(k, v)] + d.skip(i - 1)));
            assert(sorted_insert(s, k, v) =~= s.take(i) + seq![(k, v)] + s.skip(i));
        }
    }
}

/// The ordered insert keeps the keys strictly sorted, and introduces no key
/// other than `k`.
pub proof fn lemma_sorted_insert_sorted<V>(s: Seq<(String, V)>, k: String, v: V)
    requires
        keys_sorted(s),
    ensures
        keys_sorted(sorted_insert(s, k, v)),
        forall|i: int| 0 <= i < sorted_insert(s, k, v).len() ==> (#[trigger] sorted_insert(s, k, v)[i]).0@ == k@
            || exists|j: int| 0 <= j < s.len() && s[j].0@ == sorted_insert(s, k, v)[i].0@,
    decreases s.len(),
{
    let r = sorted_insert(s, k, v);
    if s.len() == 0 {
        assert(r =~= seq![(k, v)]);
    } else if lex_lt(s[0].0@, k@) {
        let d = s.drop_first();
        assert forall|p: int, q: int| 0 <= p < q < d.len() implies lex_lt(d[p].0@, d[q].0@) by {
            assert(d[p] == s[p + 1] && d[q] == s[q + 1]);
        }
        lemma_sorted_insert_sorted(d, k, v);
        let rd = sorted_insert(d, k, v);
        assert(r == seq![s[0]] + rd);
        assert forall|p: int, q: int| 0 <= p < q < r.len() implies lex_lt(r[p].0@, r[q].0@) by {
            if p == 0 {
                assert(r[q] == rd[q - 1]);
                if rd[q - 1].0@ == k@ {
                    assert(lex_lt(s[0].0@, k@));
                } else {
                    let j = choose|j: int| 0 <= j < d.len() && d[j].0@ == rd[q - 1].0@;
                    assert(d[j] == s[j + 1]);
                    assert(lex_lt(s[0].0@, s[j + 1].0@));
                }
            } else {
                assert(r[p] == rd[p - 1] && r[q] == rd[q - 1]);
            }
        }
        assert forall|i: int| 0 <= i < r.len() implies (#[trigger] r[i]).0@ == k@
            || exists|j: int| 0 <= j < s.len() && s[j].0@ == r[i].0@ by {
            if i == 0 {
                assert(s[0].0@ == r[0].0@);
            } else {
                assert(r[i] == rd[i - 1]);
                if rd[i - 1].0@ != k@ {
                    let j = choose|j: int| 0 <= j < d.len() && d[j].0@ == rd[i - 1].0@;
                    assert(s[j + 1].0@ == r[i].0@);
                }
            }
        }
    } else if s[0].0@ == k@ {
        let d = s.drop_first();
        assert(r == seq![(k, v)] + d);
        assert forall|p: int, q: int| 0 <= p < q < r.len() implies lex_lt(r[p].0@, r[q].0@) by {
            if p == 0 {
                assert(r[q] == d[q - 1] && d[q - 1] == s[q]);
                assert(lex_lt(s[0].0@, s[q].0@));
            } else {
                assert(r[p] == s[p] && r[q] == s[q]);
            }
        }
        assert forall|i: int| 0 <= i < r.len() implies (#[trigger] r[i]).0@ == k@
            || exists|j: int| 0 <= j < s.len() && s[j].0@ == r[i].0@ by {
            if i > 0 {
                assert(s[i].0@ == r[i].0@);
            }
        }
    } else {
        lemma_lex_trichotomy(s[0].0@, k@);
        assert(lex_lt(k@, s[0].0@));
        assert(r == seq![(k, v)] + s);
        assert forall|p: int, q: int| 0 <= p < q < r.len() implies lex_lt(r[p].0@, r[q].0@) by {
            if p == 0 {
                assert(r[q] == s[q - 1]);
                if q - 1 > 0 {
                    assert(lex_lt(s[0].0@, s[q - 1].0@));
                    lemma_lex_trans(k@, s[0].0@, s[q - 1].0@);
                }
            } else {
                assert(r[p] == s[p - 1] && r[q] == s[q - 1]);
            }
        }
        assert forall|i: int| 0 <= i < r.len() implies (#[trigger] r[i]).0@ == k@
            || exists|j: int| 0 <= j < s.len() && s[j].0@ == r[i].0@ by {
            if i > 0 {
                assert(s[i - 1].0@ == r[i].0@);
            }
        }
    }
}

/// The value stored under `k`: the first entry whose key reads `k`.
pub open spec fn lookup<V>(s: Seq<(String, V)>, k: Seq<char>) -> Option<V>
    decreases s.len(),
{
    if s.len() == 0 {
        Option::None
    } else if s[0].0@ == k {
        Option::Some(s[0].1)
    } else {
        lookup(s.drop_first(), k)
    }
}

/// After an ordered insert, `k0` maps to the new value and every other key
/// to what it mapped to before.
pub proof fn lemma_lookup_sorted_insert<V>(s: Seq<(String, V)>, k0: String, v: V, k: Seq<char>)
    requires
        keys_sorted(s),
    ensures
        lookup(sorted_insert(s, k0, v), k) == (if k == k0@ {
            Option::Some(v)
        } else {
            lookup(s, k)
        }),
    decreases s.len(),
{
    let r = sorted_insert(s, k0, v);
    if s.len() == 0 {
        assert(r == seq![(k0, v)]);
        assert(r[0] == (k0, v));
        assert(r.drop_first() =~= Seq::<(String, V)>::empty());
        if k == k0@ {
            assert(lookup(r, k) == Option::Some(v));
        } else {
            assert(lookup(Seq::<(String, V)>::empty(), k) is None);
            assert(lookup(r, k) == lookup(r.drop_first(), k));
            assert(lookup(s, k) is None);
        }
    } else if lex_lt(s[0].0@, k0@) {
        let d = s.drop_first();
        assert forall|p2: int, q2: int| 0 <= p2 < q2 < d.len() implies lex_lt(d[p2].0@, d[q2].0@) by {
            assert(d[p2] == s[p2 + 1] && d[q2] == s[q2 + 1]);
        }
        lemma_lookup_sorted_insert(d, k0, v, k);
        assert(r == seq![s[0]] + sorted_insert(d, k0, v));
        assert(r[0] == s[0]);
        assert(r.drop_first() =~= sorted_insert(d, k0, v));
        if s[0].0@ == k {
            if k == k0@ {
                crate::text::lemma_lex_irrefl(k0@);
                assert(false);
            }
            assert(lookup(r, k) == Option::Some(s[0].1));
            assert(lookup(s, k) == Option::Some(s[0].1));
        } else {
            assert(lookup(r, k) == lookup(sorted_insert(d, k0, v), k));
            assert(lookup(s, k) == lookup(d, k));
        }
    } else if s[0].0@ == k0@ {
        assert(r == seq![(k0, v)] + s.drop_first());
        assert(r[0] == (k0, v));
        assert(r.drop_first() =~= s.drop_first());
        if k == k0@ {
            assert(lookup(r, k) == Option::Some(v));
        } else {
            assert(lookup(r, k) == lookup(s.drop_first(), k));
            assert(lookup(s, k) == lookup(s.drop_first(), k));
        }
    } else {
        assert(r == seq![(k0, v)] + s);
        assert(r[0] == (k0, v));
        assert(r.drop_first() =~= s);
        if k == k0@ {
            assert(lookup(r, k) == Option::Some(v));
        } else {
            assert(lookup(r, k) == lookup(s, k));
        }
    }
}

/// A vector of key-value entries kept strictly sorted by key, the exec
/// carrier of one keyed patch section.
#[derive(Clone, Debug)]
pub struct KeyedVec<V> {
    pub entries: Vec<(String, V)>,
}

/// First position whose key is not below `k`.
fn find_pos<V>(entries: &Vec<(String, V)>, k: &String) -> (r: usize)
    ensures
        0 <= r <= entries@.len(),
        forall|j: int| 0 <= j < r ==> lex_lt(entries@[j].0@, k@),
        r < entries@.len() ==> !lex_lt(entries@[r as int].0@, k@),
{
    let mut i: usize = 0;
    while i < entries.len()
        invariant
            0 <= i <= entries@.len(),
            forall|j: int| 0 <= j < i ==> lex_lt(entries@[j].0@, k@),
        decreases entries@.len() - i,
    {
        if !str_lex_lt(entries[i].0.as_str(), k.as_str()) {
            return i;
        }
        i += 1;
    }
    i
}

impl<V> KeyedVec<V> {
    /// Strictly sorted keys.
    pub open spec fn wf(&self) -> bool {
        keys_sorted(self.entries@)
    }

    pub fn new() -> (r: KeyedVec<V>)
        ensures
            r.entries@.len() == 0,
            r.wf(),
    {
        KeyedVec { entries: Vec::new() }
    }

    pub fn len(&self) -> (r: usize)
        ensures
            r == self.entries@.len(),
    {
        self.entries.len()
    }

    /// Writes `v` under `k`, replacing any entry with the same key and
    /// keeping the entries sorted.
    pub fn insert(&mut self, k: String, v: V)
        requires
            old(self).wf(),
        ensures
            final(self).entries@ == sorted_insert(old(self).entries@, k, v),
            final(self).wf(),
    {
        let i = find_pos(&self.entries, &k);
        proof {
            lemma_sorted_insert_at(self.entries@, k, v, i as int);
            lemma_sorted_insert_sorted(self.entries@, k, v);
        }
        if i < self.entries.len() && self.entries[i].0 == k {
            self.entries[i] = (k, v);
        } else {
            self.entries.insert(i, (k, v));
            proof {
                assert(self.entries@ =~= old(self).entries@.take(i as int) + seq![(k, v)] + old(self).entries@.skip(i as int));
            }
        }
    }
}

/// The patch document. Labels, descriptions and site-links are keyed
/// sections; aliases and claims are appended lists.
#[derive(Clone, Debug)]
pub struct Patch {
    pub labels: KeyedVec<LocaleEntry>,
    pub descriptions: KeyedVec<LocaleEntry>,
    pub aliases: Vec<LocaleEntry>,
    pub claims: Vec<ClaimEntry>,
    pub sitelinks: KeyedVec<SiteLinkEntry>,
}

impl Patch {
    /// The keyed sections are sorted.
    pub open spec fn wf(&self) -> bool {
        &&& self.labels.wf()
        &&& self.descriptions.wf()
        &&& self.sitelinks.wf()
    }

    /// No section holds an action.
    pub open spec fn spec_is_empty(&self) -> bool {
        &&& self.labels.entries@.len() == 0
        &&& self.descriptions.entries@.len() == 0
        &&& self.aliases@.len() == 0
        &&& self.claims@.len() == 0
        &&& self.sitelinks.entries@.len() == 0
    }

    pub fn new() -> (r: Patch)
        ensures
            r.spec_is_empty(),
            r.wf(),
    {
        Patch {
            labels: KeyedVec::new(),
            descriptions: KeyedVec::new(),
            aliases: Vec::new(),
            claims: Vec::new(),
            sitelinks: KeyedVec::new(),
        }
    }

    /// Whether the patch holds no action at all: the valid and common
    /// outcome when no authorized difference exists.
    pub fn is_empty(&self) -> (r: bool)
        ensures
            r == self.spec_is_empty(),
    {
        self.labels.len() == 0 && self.descriptions.len() == 0
            && self.aliases.len() == 0 && self.claims.len() == 0
            && self.sitelinks.len() == 0
    }
}

} // verus!

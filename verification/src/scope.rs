//! Permission scopes: per-section, per-key authorization of diff actions.

use vstd::prelude::*;

verus! {

/// The three actions a scope entry can authorize for a key.
#[derive(Clone, Copy, Debug, PartialEq, Eq, Structural)]
pub enum ScopeAction {
    Add,
    Remove,
    Alter,
}

/// The wildcard key: an action list that contains it authorizes every key.
pub open spec fn star() -> Seq<char> {
    seq!['*']
}

/// Whether some entry of `l` reads exactly `k`.
pub open spec fn list_has(l: Seq<String>, k: Seq<char>) -> bool {
    exists|i: int| 0 <= i < l.len() && l[i]@ == k
}

/// Builds the one-element wildcard list.
fn star_string() -> (s: String)
    ensures
        s@ == star(),
{
    let s: String = "*".to_owned();
    proof {
        reveal_strlit("*");
        assert(s@ =~= star());
    }
    s
}

/// Whether `list` holds an entry equal to `x`.
fn contains_string(list: &Vec<String>, x: &String) -> (r: bool)
    ensures
        r == list_has(list@, x@),
{
    let mut i: usize = 0;
    let mut found: bool = false;
    while i < list.len()
        invariant
            0 <= i <= list@.len(),
            found == (exists|j: int| 0 <= j < i && list@[j]@ == x@),
        decreases list@.len() - i,
    {
        if list[i] == *x {
            found = true;
            proof {
                assert(list@[i as int]@ == x@);
            }
        }
        i += 1;
    }
    found
}

/// One section's permission lists: which keys may be added, removed or altered.
///
/// A key is in scope for an action when it is literally present in the
/// matching list, or that list contains the wildcard `"*"`.
#[derive(Debug, Default)]
pub struct EntityDiffParam {
    pub add: Vec<String>,
    pub remove: Vec<String>,
    pub alter: Vec<String>,
}

impl EntityDiffParam {
    /// The list consulted for `action`.
    pub open spec fn action_list(&self, action: ScopeAction) -> Seq<String> {
        match action {
            ScopeAction::Add => self.add@,
            ScopeAction::Remove => self.remove@,
            ScopeAction::Alter => self.alter@,
        }
    }

    /// Authorization: the key is listed for the action, or the action list
    /// holds the wildcard.
    pub open spec fn spec_valid(&self, k: Seq<char>, action: ScopeAction) -> bool {
        list_has(self.action_list(action), k) || list_has(self.action_list(action), star())
    }

    /// The entry that authorizes every action on every key.
    pub fn all() -> (r: EntityDiffParam)
        ensures
            forall|k: Seq<char>, a: ScopeAction| r.spec_valid(k, a),
    {
        let mut add: Vec<String> = Vec::new();
        add.push(star_string());
        let mut remove: Vec<String> = Vec::new();
        remove.push(star_string());
        let mut alter: Vec<String> = Vec::new();
        alter.push(star_string());
        let r = EntityDiffParam { add, remove, alter };
        proof {
            assert forall|k: Seq<char>, a: ScopeAction| r.spec_valid(k, a) by {
                assert(r.action_list(a)[0]@ == star());
            }
        }
        r
    }

    /// The entry that authorizes nothing.
    pub fn none() -> (r: EntityDiffParam)
        ensures
            forall|k: Seq<char>, a: ScopeAction| !r.spec_valid(k, a),
    {
        EntityDiffParam { add: Vec::new(), remove: Vec::new(), alter: Vec::new() }
    }

    /// An entry that assigns the same key list to all three actions.
    pub fn some(list: &Vec<String>) -> (r: EntityDiffParam)
        ensures
            r.add@ == list@,
            r.remove@ == list@,
            r.alter@ == list@,
    {
        EntityDiffParam { add: list.clone(), remove: list.clone(), alter: list.clone() }
    }

    /// Decides whether `action` is authorized for `key`.
    pub fn valid(&self, key: &str, action: ScopeAction) -> (r: bool)
        ensures
            r == self.spec_valid(key@, action),
    {
        let list = match action {
            ScopeAction::Add => &self.add,
            ScopeAction::Remove => &self.remove,
            ScopeAction::Alter => &self.alter,
        };
        let k: String = key.to_owned();
        let star_s = star_string();
        let has_key = contains_string(list, &k);
        let has_star = contains_string(list, &star_s);
        has_key || has_star
    }
}

/// One scope entry per entity section; no cross-section inheritance.
#[derive(Debug, Default)]
pub struct EntityDiffParams {
    pub labels: EntityDiffParam,
    pub descriptions: EntityDiffParam,
    pub aliases: EntityDiffParam,
    pub claims: EntityDiffParam,
    pub sitelinks: EntityDiffParam,
}

impl EntityDiffParams {
    /// Every section authorizes every action on every key.
    pub fn all() -> (r: EntityDiffParams)
        ensures
            forall|k: Seq<char>, a: ScopeAction| r.labels.spec_valid(k, a),
            forall|k: Seq<char>, a: ScopeAction| r.descriptions.spec_valid(k, a),
            forall|k: Seq<char>, a: ScopeAction| r.aliases.spec_valid(k, a),
            forall|k: Seq<char>, a: ScopeAction| r.claims.spec_valid(k, a),
            forall|k: Seq<char>, a: ScopeAction| r.sitelinks.spec_valid(k, a),
    {
        EntityDiffParams {
            labels: EntityDiffParam::all(),
            descriptions: EntityDiffParam::all(),
            aliases: EntityDiffParam::all(),
            claims: EntityDiffParam::all(),
            sitelinks: EntityDiffParam::all(),
        }
    }

    /// No section authorizes anything.
    pub fn none() -> (r: EntityDiffParams)
        ensures
            forall|k: Seq<char>, a: ScopeAction| !r.labels.spec_valid(k, a),
            forall|k: Seq<char>, a: ScopeAction| !r.descriptions.spec_valid(k, a),
            forall|k: Seq<char>, a: ScopeAction| !r.aliases.spec_valid(k, a),
            forall|k: Seq<char>, a: ScopeAction| !r.claims.spec_valid(k, a),
            forall|k: Seq<char>, a: ScopeAction| !r.sitelinks.spec_valid(k, a),
    {
        EntityDiffParams {
            labels: EntityDiffParam::none(),
            descriptions: EntityDiffParam::none(),
            aliases: EntityDiffParam::none(),
            claims: EntityDiffParam::none(),
            sitelinks: EntityDiffParam::none(),
        }
    }
}

} // verus!

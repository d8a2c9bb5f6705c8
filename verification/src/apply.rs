//! The patch applier's decisions: the parameters of the single atomic write
//! request, and the interpretation of the collaborator's response. The
//! network round-trip itself is the transport collaborator's concern.

use vstd::prelude::*;
use vstd::string::StringExecFns;

verus! {

/// The edit target: an existing entity by id, or a request to create a new
/// entity of a given type.
#[derive(Clone, Debug)]
pub enum EditTarget {
    Entity(String),
    New(String),
}

/// A failed application: the write was not acknowledged as a success. It
/// carries the submitted patch and the raw response for diagnosis; the
/// caller may reload the entities, recompute the diff and resubmit.
#[derive(Clone, Debug)]
pub struct ApplyError {
    pub patch_json: String,
    pub response: String,
}

impl ApplyError {
    /// A readable account of the failure.
    pub fn message(&self) -> (r: String)
        ensures
            r@ == "failed to apply diff "@ + self.patch_json@ + ", result: "@ + self.response@,
    {
        let mut m: String = "failed to apply diff ".to_owned();
        m.append(self.patch_json.as_str());
        m.append(", result: ");
        m.append(self.response.as_str());
        proof {
            assert(m@ =~= "failed to apply diff "@ + self.patch_json@ + ", result: "@ + self.response@);
        }
        m
    }
}

/// The key-value parameters of the write request: the edit action, the
/// serialized patch, the write token, and the target discriminator (an
/// existing id or a new-entity type).
pub fn edit_entity_params(data: &str, token: &str, target: &EditTarget) -> (r: Vec<(String, String)>)
    ensures
        r@.len() == 4,
        r@[0].0@ == "action"@ && r@[0].1@ == "wbeditentity"@,
        r@[1].0@ == "data"@ && r@[1].1@ == data@,
        r@[2].0@ == "token"@ && r@[2].1@ == token@,
        match *target {
            EditTarget::Entity(ref id) => r@[3].0@ == "id"@ && r@[3].1@ == id@,
            EditTarget::New(ref t) => r@[3].0@ == "new"@ && r@[3].1@ == t@,
        },
{
    let mut r: Vec<(String, String)> = Vec::new();
    r.push(("action".to_owned(), "wbeditentity".to_owned()));
    r.push(("data".to_owned(), data.to_owned()));
    r.push(("token".to_owned(), token.to_owned()));
    match target {
        EditTarget::Entity(id) => r.push(("id".to_owned(), id.clone())),
        EditTarget::New(t) => r.push(("new".to_owned(), t.clone())),
    }
    r
}

/// Interprets the response of the write: success is exactly a numeric
/// success indicator of 1 together with a non-null resulting-record
/// payload, which is returned; any other shape is a failure carrying the
/// patch and the raw response.
pub fn interpret_edit_response(patch_json: &str, raw_response: &str, success: Option<i64>, entity: Option<String>) -> (r: Result<String, ApplyError>)
    ensures
        r is Ok <==> (success == Some(1i64) && entity is Some),
        r matches Ok(e) ==> entity == Some(e),
        r matches Err(err) ==> err.patch_json@ == patch_json@ && err.response@ == raw_response@,
{
    if let Some(n) = success {
        if n == 1 {
            if let Some(e) = entity {
                return Ok(e);
            }
        }
    }
    Err(ApplyError { patch_json: patch_json.to_owned(), response: raw_response.to_owned() })
}

} // verus!

//! A user whose id and status are JSON values.
use vstd::prelude::*;

verus! {

/// A JSON value (`serde_json::Value`), carried as an opaque value.
#[verifier::external_type_specification]
#[verifier::external_body]
pub struct ExJsonValue(serde_json::Value);

/// The JSON value that `serde_json::to_value` makes of the string `s`.
pub uninterp spec fn json_string(s: Seq<char>) -> serde_json::Value;

/// A copy of a JSON value (`serde_json::Value::clone`, a derived deep copy).
/// Claimed: the copy equals the value it copies.
#[verifier::external_body]
fn clone_value(v: &serde_json::Value) -> (r: serde_json::Value)
    ensures
        r == *v,
{
    v.clone()
}

/// The JSON value of a string (`serde_json::to_value`, which turns a string
/// into a JSON string and does not fail on one). Claimed: the result is the
/// value named `json_string` of the string.
#[verifier::external_body]
fn string_value(s: &String) -> (r: serde_json::Value)
    ensures
        r == json_string(s@),
{
    serde_json::to_value(s.clone()).unwrap()
}

/// A user: its id and status, as JSON values.
pub struct User {
    id: serde_json::Value,
    status: serde_json::Value,
}

impl User {
    /// The id.
    pub closed spec fn id(&self) -> serde_json::Value {
        self.id
    }

    /// The status.
    pub closed spec fn status(&self) -> serde_json::Value {
        self.status
    }

    /// A user with a copy of `id` and with `status`.
    pub fn new(id: &serde_json::Value, status: serde_json::Value) -> (u: User)
        ensures
            u.id() == *id,
            u.status() == status,
    {
        User { id: clone_value(id), status }
    }

    /// The parts of a user, as read from its JSON form.
    pub fn from_parts(id: serde_json::Value, status: serde_json::Value) -> (u: User)
        ensures
            u.id() == id,
            u.status() == status,
    {
        User { id, status }
    }

    /// The id.
    pub fn get_id(&self) -> (r: &serde_json::Value)
        ensures
            *r == self.id(),
    {
        &self.id
    }

    /// The status.
    pub fn get_status(&self) -> (r: &serde_json::Value)
        ensures
            *r == self.status(),
    {
        &self.status
    }

    /// Sets the status to the JSON string `status`; the id stays.
    pub fn set_status(&mut self, status: &String)
        ensures
            final(self).status() == json_string(status@),
            final(self).id() == old(self).id(),
    {
        self.status = string_value(status);
    }
}

} // verus!

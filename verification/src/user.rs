//! A user of the chat: an id and a status.
use vstd::prelude::*;

verus! {

/// A user: its id and its status.
pub struct User {
    id: String,
    status: String,
}

impl User {
    /// A user with the given id and status.
    pub fn new(id: &String, status: &String) -> (u: User)
        ensures
            u.id()@ == id@,
            u.status()@ == status@,
    {
        User { id: id.clone(), status: status.clone() }
    }

    /// The id (as a value).
    pub closed spec fn id(&self) -> String {
        self.id
    }

    /// The status (as a value).
    pub closed spec fn status(&self) -> String {
        self.status
    }

    /// The id.
    pub fn get_id(&self) -> (r: &String)
        ensures
            r@ == self.id()@,
    {
        &self.id
    }

    /// The status.
    pub fn get_status(&self) -> (r: &String)
        ensures
            r@ == self.status()@,
    {
        &self.status
    }

    /// Replaces the status; the id stays.
    pub fn set_status(&mut self, status: &String)
        ensures
            final(self).status()@ == status@,
            final(self).id() == old(self).id(),
    {
        self.status = status.clone();
    }
}

} // verus!

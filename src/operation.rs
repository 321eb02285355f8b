//! Operations that walk a widget tree.
use vstd::prelude::*;
use crate::id::{Id, same_id};

verus! {

/// An operation that looks for a widget with a target identifier.
#[derive(Debug)]
pub struct SearchId {
    found: bool,
    target: Id,
}

/// Produces an operation that searches for the widget identified by `target`.
pub fn search_id(target: Id) -> (r: SearchId)
    ensures
        !r.found(),
        r.target() == target,
{
    SearchId { found: false, target }
}

impl SearchId {
    /// Whether a widget with the target identifier has been visited.
    pub closed spec fn found(&self) -> bool {
        self.found
    }

    /// The identifier searched for.
    pub closed spec fn target(&self) -> Id {
        self.target
    }

    /// Visits a widget carrying `id`.
    pub fn custom(&mut self, id: Option<&Id>)
        ensures
            final(self).target() == old(self).target(),
            final(self).found() == (old(self).found() || (id matches Some(i) && same_id(old(self).target(), *i))),
    {
        if let Some(i) = id {
            if self.target.same(i) {
                self.found = true;
            }
        }
    }

    /// The target identifier, if it was found.
    pub fn finish(&self) -> (r: Option<Id>)
        ensures
            r == (if self.found() { Some(self.target()) } else { None }),
    {
        if self.found {
            Some(self.target.clone())
        } else {
            None
        }
    }
}

} // verus!

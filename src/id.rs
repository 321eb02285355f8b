//! Stable identifiers that widgets may carry across reconciliation passes.
use vstd::prelude::*;

verus! {

/// The inner representation of an [`Id`].
#[derive(Debug)]
pub enum Internal {
    /// An identifier generated for a single widget instance.
    Unique(u64),
    /// A user-assigned name, together with a numeric discriminator.
    Custom(u64, String),
}

/// The identifier of a widget.
#[derive(Debug)]
pub struct Id(pub Internal);

/// The name carried by an optional identifier, if it is a named one.
pub open spec fn name_of(id: Option<Id>) -> Option<Seq<char>> {
    match id {
        Some(Id(Internal::Custom(_, n))) => Some(n@),
        _ => None,
    }
}

impl Clone for Internal {
    fn clone(&self) -> (r: Self)
        ensures
            r == *self,
    {
        match self {
            Internal::Unique(n) => Internal::Unique(*n),
            Internal::Custom(k, s) => Internal::Custom(*k, s.clone()),
        }
    }
}

impl Clone for Id {
    fn clone(&self) -> (r: Self)
        ensures
            r == *self,
    {
        Id(self.0.clone())
    }
}

/// Whether two identifiers are equal: unique ones by number, named ones by name.
pub open spec fn same_id(a: Id, b: Id) -> bool {
    match (a.0, b.0) {
        (Internal::Unique(x), Internal::Unique(y)) => x == y,
        (Internal::Custom(_, x), Internal::Custom(_, y)) => x@ == y@,
        _ => false,
    }
}

impl Id {
    /// Whether `self` and `other` identify the same widget.
    pub fn same(&self, other: &Id) -> (r: bool)
        ensures
            r == same_id(*self, *other),
    {
        match (&self.0, &other.0) {
            (Internal::Unique(x), Internal::Unique(y)) => *x == *y,
            (Internal::Custom(_, x), Internal::Custom(_, y)) => *x == *y,
            _ => false,
        }
    }

    /// Creates a named identifier.
    pub fn new(name: String) -> (r: Id)
        ensures
            name_of(Some(r)) == Some(name@),
    {
        Id(Internal::Custom(0, name))
    }

    /// Creates an unnamed identifier from a number.
    pub fn unique(n: u64) -> (r: Id)
        ensures
            r == Id(Internal::Unique(n)),
            name_of(Some(r)).is_none(),
    {
        Id(Internal::Unique(n))
    }

    /// Returns the name of this identifier, if it is a named one.
    pub fn name(&self) -> (r: Option<&String>)
        ensures
            match r {
                Some(s) => name_of(Some(*self)) == Some(s@),
                None => name_of(Some(*self)).is_none(),
            },
    {
        match &self.0 {
            Internal::Custom(_, n) => Some(n),
            Internal::Unique(_) => None,
        }
    }
}

} // verus!

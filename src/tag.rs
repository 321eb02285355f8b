//! Type identities of widget state.
use vstd::prelude::*;
use std::any::TypeId;

verus! {

#[verifier::external_type_specification]
#[verifier::external_body]
pub struct ExTypeId(TypeId);

/// Relies on `TypeId::of`: the identifier of the type `T`; nothing is known of its value.
pub assume_specification<T: ?Sized + 'static>[ TypeId::of::<T> ]() -> TypeId;

/// Relies on `TypeId`'s `==`: two identifiers compare equal exactly when they are the same value.
pub assume_specification[ <TypeId as PartialEq>::eq ](a: &TypeId, b: &TypeId) -> (r: bool)
    ensures
        r == (*a == *b),
;

/// The identifier of some widget state.
#[derive(Debug, Clone, Copy, Hash)]
pub struct Tag(TypeId);

impl Tag {
    /// Creates a [`Tag`] for a state of type `T`.
    pub fn of<T: 'static>() -> (r: Self) {
        Tag(TypeId::of::<T>())
    }

    /// Creates a [`Tag`] for a stateless widget.
    pub fn stateless() -> (r: Self) {
        Self::of::<()>()
    }

    /// Whether two tags identify the same state type.
    pub fn same(&self, other: &Tag) -> (r: bool)
        ensures
            r == (*self == *other),
    {
        let eq = self.0 == other.0;
        proof {
            if eq {
                assert(*self == *other);
            }
        }
        eq
    }
}

impl PartialEq for Tag {
    fn eq(&self, other: &Tag) -> (r: bool) {
        self.same(other)
    }
}

impl vstd::std_specs::cmp::PartialEqSpecImpl for Tag {
    open spec fn obeys_eq_spec() -> bool {
        true
    }

    open spec fn eq_spec(&self, other: &Tag) -> bool {
        *self == *other
    }
}

impl Eq for Tag {}

} // verus!

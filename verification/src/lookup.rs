//! References to an element: by name or by position.

use vstd::prelude::*;

verus! {

/// Addresses an element of a collection, either by its name or by its
/// position.
#[derive(Clone, Copy)]
pub enum Lookup<'a> {
    Name(&'a str),
    Index(usize),
}

impl<'a> From<&'a str> for Lookup<'a> {
    fn from(s: &'a str) -> (r: Self) {
        Lookup::Name(s)
    }
}

impl<'a> vstd::std_specs::convert::FromSpecImpl<&'a str> for Lookup<'a> {
    open spec fn obeys_from_spec() -> bool {
        true
    }

    open spec fn from_spec(s: &'a str) -> Self {
        Lookup::Name(s)
    }
}

impl<'a> From<usize> for Lookup<'a> {
    fn from(i: usize) -> (r: Self) {
        Lookup::Index(i)
    }
}

impl<'a> vstd::std_specs::convert::FromSpecImpl<usize> for Lookup<'a> {
    open spec fn obeys_from_spec() -> bool {
        true
    }

    open spec fn from_spec(i: usize) -> Self {
        Lookup::Index(i)
    }
}

/// What can stand where a collection asks for a reference to an element: a
/// name, a position, or a [`Lookup`] itself.
pub trait IntoLookup<'a>: Copy {
    /// The reference that this value stands for.
    spec fn spec_lookup(self) -> Lookup<'a>;

    /// Returns the reference that this value stands for.
    fn into_lookup(self) -> (l: Lookup<'a>)
        ensures
            l == self.spec_lookup(),
    ;
}

impl<'a> IntoLookup<'a> for Lookup<'a> {
    open spec fn spec_lookup(self) -> Lookup<'a> {
        self
    }

    fn into_lookup(self) -> (l: Lookup<'a>) {
        self
    }
}

impl<'a> IntoLookup<'a> for &'a str {
    open spec fn spec_lookup(self) -> Lookup<'a> {
        Lookup::Name(self)
    }

    fn into_lookup(self) -> (l: Lookup<'a>) {
        Lookup::Name(self)
    }
}

impl<'a> IntoLookup<'a> for usize {
    open spec fn spec_lookup(self) -> Lookup<'a> {
        Lookup::Index(self)
    }

    fn into_lookup(self) -> (l: Lookup<'a>) {
        Lookup::Index(self)
    }
}

} // verus!

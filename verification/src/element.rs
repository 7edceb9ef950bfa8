//! The capability an element must offer: a name.

use vstd::prelude::*;

verus! {

/// An element that carries a name.
///
/// The name identifies the element inside a collection, so it must stay the
/// same for as long as the element is stored there: whenever asked, the
/// element gives the same name. [`obeys_name_spec`] says so of a type.
pub trait Named {
    /// The element's name, as a sequence of characters. Unless a type says
    /// otherwise, it is a name that [`name`](Named::name) may return.
    open spec fn spec_name(&self) -> Seq<char> {
        (choose|s: &str| call_ensures(Self::name, (self,), s))@
    }

    /// Returns the element's name.
    fn name(&self) -> &str;
}

/// Every element of type `T` gives its one name whenever it is asked:
/// whatever `name` returns is the element's `spec_name`.
///
/// A type whose `name` is specified to return one particular string obeys
/// this. Of a type that was not verified it is the caller's word.
pub open spec fn obeys_name_spec<T: Named>() -> bool {
    forall|t: T, s: &str| call_ensures(T::name, (&t,), s) ==> s@ == t.spec_name()
}

} // verus!

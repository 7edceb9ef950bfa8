//! Operations of `Vec` that the collection relies on and that are taken on
//! trust: each contract below restates what the standard library documents.

use vstd::prelude::*;

verus! {

/// `slice::swap` on the vector's elements: exchanges the elements at
/// positions `a` and `b` and leaves every other element where it is. The
/// standard library panics when either position is out of bounds, so both
/// must be within.
#[verifier::external_body]
pub(crate) fn vec_swap<T>(v: &mut Vec<T>, a: usize, b: usize)
    requires
        a < old(v)@.len(),
        b < old(v)@.len(),
    ensures
        final(v)@ == old(v)@.update(a as int, old(v)@[b as int]).update(b as int, old(v)@[a as int]),
{
    v.swap(a, b)
}

/// `Vec::capacity`: the number of elements the vector can hold without
/// reallocating, which is never less than the number it holds.
#[verifier::external_body]
pub(crate) fn vec_capacity<T>(v: &Vec<T>) -> (c: usize)
    ensures
        c >= v@.len(),
{
    v.capacity()
}

/// `Vec::shrink_to_fit`: gives spare capacity back and leaves the elements
/// as they are.
#[verifier::external_body]
pub(crate) fn vec_shrink_to_fit<T>(v: &mut Vec<T>)
    ensures
        final(v)@ == old(v)@,
{
    v.shrink_to_fit()
}

} // verus!

//! The collection as mathematics: a sequence of named elements, and what each
//! operation does to it.
//!
//! The sequence alone says what a collection holds. Names are looked up in it
//! by position of the element that bears them; the executable index is a
//! faster way to the same answer.

use vstd::prelude::*;
use crate::element::Named;
use crate::lookup::Lookup;

verus! {

/// Some element of `s` bears `name`.
pub open spec fn has_name<T: Named>(s: Seq<T>, name: Seq<char>) -> bool {
    exists|i: int| 0 <= i < s.len() && (#[trigger] s[i]).spec_name() == name
}

/// The position of an element of `s` that bears `name`, if there is one.
/// Where names are distinct there is at most one such position.
pub open spec fn position_of<T: Named>(s: Seq<T>, name: Seq<char>) -> Option<int> {
    if has_name(s, name) {
        Some(choose|i: int| 0 <= i < s.len() && (#[trigger] s[i]).spec_name() == name)
    } else {
        None
    }
}

/// No two elements of `s` share a name.
pub open spec fn distinct_names<T: Named>(s: Seq<T>) -> bool {
    forall|i: int, j: int|
        0 <= i < s.len() && 0 <= j < s.len() && (#[trigger] s[i]).spec_name() == (
        #[trigger] s[j]).spec_name() ==> i == j
}

/// The position that a reference resolves to: that of the element bearing the
/// name, or the position itself where it is within bounds.
pub open spec fn resolve<T: Named>(s: Seq<T>, lookup: Lookup) -> Option<int> {
    match lookup {
        Lookup::Name(name) => position_of(s, name@),
        Lookup::Index(index) => if index < s.len() {
            Some(index as int)
        } else {
            None
        },
    }
}

/// The element that a reference resolves to.
pub open spec fn get<T: Named>(s: Seq<T>, lookup: Lookup) -> Option<T> {
    match resolve(s, lookup) {
        Some(i) => Some(s[i]),
        None => None,
    }
}

/// Pushing `value`: it takes the place of the element of the same name, or
/// goes to the end where no element bears its name.
pub open spec fn push<T: Named>(s: Seq<T>, value: T) -> Seq<T> {
    match position_of(s, value.spec_name()) {
        Some(i) => s.update(i, value),
        None => s.push(value),
    }
}

/// Pushing the elements of `elements` one after the other, the first one
/// first.
pub open spec fn push_all<T: Named>(s: Seq<T>, elements: Seq<T>) -> Seq<T>
    decreases elements.len(),
{
    if elements.len() == 0 {
        s
    } else {
        push(push_all(s, elements.drop_last()), elements.last())
    }
}

/// Inserting `value` before position `index`: it takes the place of the
/// element of the same name, wherever that stands, or goes in at `index`
/// where no element bears its name.
pub open spec fn insert<T: Named>(s: Seq<T>, index: int, value: T) -> Seq<T>
    recommends
        has_name(s, value.spec_name()) || 0 <= index <= s.len(),
{
    match position_of(s, value.spec_name()) {
        Some(i) => s.update(i, value),
        None => s.insert(index, value),
    }
}

/// Exchanging the elements at positions `i` and `j`.
pub open spec fn swap<T: Named>(s: Seq<T>, i: int, j: int) -> Seq<T>
    recommends
        0 <= i < s.len(),
        0 <= j < s.len(),
{
    s.update(i, s[j]).update(j, s[i])
}

/// Keeping the first `len` elements; everything, where there are no more
/// than `len`.
pub open spec fn truncate<T: Named>(s: Seq<T>, len: int) -> Seq<T>
    recommends
        0 <= len,
{
    if len < s.len() {
        s.take(len)
    } else {
        s
    }
}

/// A position found for a name is within bounds and holds an element of that
/// name; with distinct names it is the only such position.
pub proof fn lemma_position_of<T: Named>(s: Seq<T>, name: Seq<char>)
    ensures
        match position_of(s, name) {
            Some(i) => 0 <= i < s.len() && s[i].spec_name() == name,
            None => forall|i: int| 0 <= i < s.len() ==> (#[trigger] s[i]).spec_name() != name,
        },
{
}

/// With distinct names, the element at position `i` is the one that its own
/// name finds.
pub proof fn lemma_position_unique<T: Named>(s: Seq<T>, i: int)
    requires
        distinct_names(s),
        0 <= i < s.len(),
    ensures
        position_of(s, s[i].spec_name()) == Some(i),
{
    lemma_position_of(s, s[i].spec_name());
}

} // verus!

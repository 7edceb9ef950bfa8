//! What holds of the collection whatever is done with it.
//!
//! The laws about single operations are stated over sequences of named
//! elements, as the operations' contracts are; those about the index are
//! stated of a well-formed collection.

use vstd::prelude::*;
use crate::container::NamedVec;
use crate::element::Named;
use crate::lookup::Lookup;
use crate::model;

verus! {

/// In a well-formed collection the name of the element at position `i`
/// resolves to `i`, through the index and through the elements alike.
pub proof fn law_name_resolves_to_position<T: Named>(c: &NamedVec<T>, i: int)
    requires
        c.wf(),
        0 <= i < c@.len(),
    ensures
        c.name_index().contains_key(c@[i].spec_name()),
        c.name_index()[c@[i].spec_name()] == i,
        model::position_of(c@, c@[i].spec_name()) == Some(i),
        forall|name: &str|
            name@ == c@[i].spec_name() ==> #[trigger] model::resolve(c@, Lookup::Name(name)) == Some(i),
{
    c.lemma_index_agrees(c@[i].spec_name());
}

/// The index of a well-formed collection has exactly one entry for each
/// element.
pub proof fn law_one_entry_per_element<T: Named>(c: &NamedVec<T>)
    requires
        c.wf(),
    ensures
        c.name_index().dom().finite(),
        c.name_index().len() == c@.len(),
{
    let positions = vstd::set_lib::set_int_range(0, c@.len() as int);
    let name_at = |i: int| c@[i].spec_name();
    vstd::set_lib::lemma_int_range(0, c@.len() as int);
    assert forall|i: int, j: int|
        positions.contains(i) && positions.contains(j) && #[trigger] name_at(i) == #[trigger] name_at(
            j,
        ) implies i == j by {
        assert(c.name_index()[c@[i].spec_name()] == i);
        assert(c.name_index()[c@[j].spec_name()] == j);
    }
    assert forall|n: Seq<char>| positions.map(name_at).contains(n) <==> c.name_index().dom().contains(
        n,
    ) by {
        if c.name_index().dom().contains(n) {
            let p = c.name_index()[n] as int;
            assert(positions.contains(p) && name_at(p) == n);
        }
        if positions.map(name_at).contains(n) {
            let p = choose|p: int| positions.contains(p) && name_at(p) == n;
            assert(c.name_index().contains_key(c@[p].spec_name()));
        }
    }
    assert(positions.map(name_at) =~= c.name_index().dom());
    vstd::set_lib::lemma_map_size(positions, c.name_index().dom(), name_at);
}

/// The elements determine the index: two well-formed collections that hold
/// the same elements in the same order have the same index.
pub proof fn law_elements_determine_index<T: Named>(a: &NamedVec<T>, b: &NamedVec<T>)
    requires
        a.wf(),
        b.wf(),
        a@ == b@,
    ensures
        a.name_index() == b.name_index(),
{
    assert forall|n: Seq<char>| a.name_index().contains_key(n) <==> b.name_index().contains_key(
        n,
    ) by {
        a.lemma_index_agrees(n);
        b.lemma_index_agrees(n);
    }
    assert forall|n: Seq<char>| a.name_index().contains_key(n) implies a.name_index()[n]
        == b.name_index()[n] by {
        a.lemma_index_agrees(n);
        b.lemma_index_agrees(n);
    }
    assert(a.name_index() =~= b.name_index());
}

/// Pushing an element whose name is taken keeps the length and puts the
/// element where its namesake stood, leaving the others alone; pushing one
/// whose name is new makes the collection longer by one, the element last.
/// Either way the names stay distinct.
pub proof fn law_push_upsert<T: Named>(s: Seq<T>, value: T)
    requires
        model::distinct_names(s),
    ensures
        model::distinct_names(model::push(s, value)),
        forall|i: int|
            0 <= i < s.len() && (#[trigger] s[i]).spec_name() == value.spec_name() ==> {
                &&& model::push(s, value).len() == s.len()
                &&& model::push(s, value) == s.update(i, value)
            },
        !model::has_name(s, value.spec_name()) ==> {
            &&& model::push(s, value).len() == s.len() + 1
            &&& model::push(s, value) == s.push(value)
        },
{
    let t = model::push(s, value);
    model::lemma_position_of(s, value.spec_name());
    assert forall|i: int, j: int|
        0 <= i < t.len() && 0 <= j < t.len() && (#[trigger] t[i]).spec_name() == (
        #[trigger] t[j]).spec_name() implies i == j by {
        match model::position_of(s, value.spec_name()) {
            Some(p) => {
                if i != p {
                    assert(t[i] == s[i]);
                }
                if j != p {
                    assert(t[j] == s[j]);
                }
            },
            None => {
                if i < s.len() {
                    assert(t[i] == s[i]);
                }
                if j < s.len() {
                    assert(t[j] == s[j]);
                }
            },
        }
    }
}

/// Elements of distinct names, pushed one after the other into an empty
/// collection, stand there in the order in which they were pushed.
pub proof fn law_pushes_keep_order<T: Named>(elements: Seq<T>)
    requires
        model::distinct_names(elements),
    ensures
        model::push_all(Seq::<T>::empty(), elements) == elements,
    decreases elements.len(),
{
    if elements.len() > 0 {
        let front = elements.drop_last();
        assert forall|i: int, j: int|
            0 <= i < front.len() && 0 <= j < front.len() && (#[trigger] front[i]).spec_name() == (
            #[trigger] front[j]).spec_name() implies i == j by {
            assert(front[i] == elements[i]);
            assert(front[j] == elements[j]);
        }
        law_pushes_keep_order(front);
        model::lemma_position_of(front, elements.last().spec_name());
        if model::has_name(front, elements.last().spec_name()) {
            let p = model::position_of(front, elements.last().spec_name()).unwrap();
            assert(front[p] == elements[p]);
            assert(elements[elements.len() - 1] == elements.last());
        }
        assert(front.push(elements.last()) =~= elements);
    }
}

/// Equality is sensitive to order: two collections built by pushing
/// elements of distinct names are the same exactly when the elements were
/// pushed in the same order.
pub proof fn law_equal_iff_same_order<T: Named>(first: Seq<T>, second: Seq<T>)
    requires
        model::distinct_names(first),
        model::distinct_names(second),
    ensures
        model::push_all(Seq::<T>::empty(), first) == model::push_all(Seq::<T>::empty(), second)
            <==> first == second,
{
    law_pushes_keep_order(first);
    law_pushes_keep_order(second);
}

/// Two elements of different names, pushed in the one order and in the
/// other, give different collections.
pub proof fn law_push_order_matters<T: Named>(s: Seq<T>, a: T, b: T)
    requires
        !model::has_name(s, a.spec_name()),
        !model::has_name(s, b.spec_name()),
        a.spec_name() != b.spec_name(),
    ensures
        model::push(model::push(s, a), b) != model::push(model::push(s, b), a),
{
    let sa = model::push(s, a);
    let sb = model::push(s, b);
    model::lemma_position_of(sa, b.spec_name());
    model::lemma_position_of(sb, a.spec_name());
    assert forall|i: int| 0 <= i < sa.len() implies (#[trigger] sa[i]).spec_name() != b.spec_name() by {
        if i < s.len() {
            assert(sa[i] == s[i]);
        }
    }
    assert forall|i: int| 0 <= i < sb.len() implies (#[trigger] sb[i]).spec_name() != a.spec_name() by {
        if i < s.len() {
            assert(sb[i] == s[i]);
        }
    }
    assert(model::push(sa, b)[s.len() as int] == a);
    assert(model::push(sb, a)[s.len() as int] == b);
}

/// Exchanging an element with itself changes nothing.
pub proof fn law_swap_with_itself<T: Named>(s: Seq<T>, i: int)
    requires
        0 <= i < s.len(),
    ensures
        model::swap(s, i, i) == s,
{
    assert(model::swap(s, i, i) =~= s);
}

/// Exchanging two elements twice brings the collection back.
pub proof fn law_swap_twice<T: Named>(s: Seq<T>, i: int, j: int)
    requires
        0 <= i < s.len(),
        0 <= j < s.len(),
    ensures
        model::swap(model::swap(s, i, j), i, j) == s,
{
    assert(model::swap(model::swap(s, i, j), i, j) =~= s);
}

/// Inserting an element of a new name at a position and then removing what
/// stands at that position gives the element back and restores the
/// collection. The element is found there by its position and, where names
/// are distinct, by its name.
pub proof fn law_insert_then_remove<T: Named>(s: Seq<T>, index: usize, value: T)
    requires
        model::distinct_names(s),
        !model::has_name(s, value.spec_name()),
        index <= s.len(),
    ensures
        model::resolve(model::insert(s, index as int, value), Lookup::Index(index)) == Some(
            index as int,
        ),
        forall|name: &str|
            name@ == value.spec_name() ==> #[trigger] model::resolve(
                model::insert(s, index as int, value),
                Lookup::Name(name),
            ) == Some(index as int),
        model::insert(s, index as int, value)[index as int] == value,
        model::insert(s, index as int, value).remove(index as int) == s,
{
    let t = model::insert(s, index as int, value);
    assert(t == s.insert(index as int, value));
    assert(t.remove(index as int) =~= s);
    model::lemma_position_of(t, value.spec_name());
    assert(t[index as int] == value);
    let p = model::position_of(t, value.spec_name()).unwrap();
    if p != index {
        let q = if p < index { p } else { p - 1 };
        assert(t[p] == s[q]);
    }
}

/// Truncating twice to the same length is truncating once, and truncating
/// to the length or beyond changes nothing.
pub proof fn law_truncate_idempotent<T: Named>(s: Seq<T>, len: int)
    requires
        0 <= len,
    ensures
        model::truncate(model::truncate(s, len), len) == model::truncate(s, len),
        len >= s.len() ==> model::truncate(s, len) == s,
{
}

} // verus!

//! The collection itself.

use vstd::prelude::*;
use vstd::hash_map::StringHashMap;
use vstd::std_specs::cmp::PartialEqSpec;
use crate::element::{obeys_name_spec, Named};
use crate::iter::NamedVecIter;
use crate::lookup::{IntoLookup, Lookup};
use crate::model;
use crate::storage::{vec_capacity, vec_shrink_to_fit, vec_swap};

verus! {

/// A vector whose elements are also reachable by name.
///
/// The elements are held in order; beside them an index maps each name to the
/// position of the element that bears it. No two elements share a name.
pub struct NamedVec<T: Named> {
    map: StringHashMap<usize>,
    items: Vec<T>,
}

impl<T: Named> View for NamedVec<T> {
    type V = Seq<T>;

    /// The elements in order.
    closed spec fn view(&self) -> Seq<T> {
        self.items@
    }
}

impl<T: Named> NamedVec<T> {
    /// The index from names to positions.
    pub closed spec fn name_index(&self) -> Map<Seq<char>, usize> {
        self.map@
    }

    /// The collection is well-formed: its elements give stable names, and the
    /// index holds exactly the names of the elements, each mapped to the
    /// position of its element. It follows that no two elements share a name.
    pub open spec fn wf(&self) -> bool {
        &&& obeys_name_spec::<T>()
        &&& self.name_index().dom().finite()
        &&& forall|i: int|
            0 <= i < self@.len() ==> {
                &&& self.name_index().contains_key(#[trigger] self@[i].spec_name())
                &&& self.name_index()[self@[i].spec_name()] == i
            }
        &&& forall|n: Seq<char>| #[trigger]
            self.name_index().contains_key(n) ==> {
                &&& self.name_index()[n] < self@.len()
                &&& self@[self.name_index()[n] as int].spec_name() == n
            }
    }

    /// In a well-formed collection names are distinct, and the index answers
    /// for a name what a search through the elements would.
    pub proof fn lemma_index_agrees(&self, name: Seq<char>)
        requires
            self.wf(),
        ensures
            model::distinct_names(self@),
            self.name_index().contains_key(name) <==> model::has_name(self@, name),
            self.name_index().contains_key(name) ==> model::position_of(self@, name) == Some(
                self.name_index()[name] as int,
            ),
            !self.name_index().contains_key(name) ==> model::position_of(self@, name).is_none(),
    {
        assert forall|i: int, j: int|
            0 <= i < self@.len() && 0 <= j < self@.len() && (#[trigger] self@[i]).spec_name() == (
            #[trigger] self@[j]).spec_name() implies i == j by {
            assert(self.name_index()[self@[i].spec_name()] == i);
            assert(self.name_index()[self@[j].spec_name()] == j);
        }
        if self.name_index().contains_key(name) {
            let p = self.name_index()[name] as int;
            assert(self@[p].spec_name() == name);
            model::lemma_position_unique(self@, p);
        } else {
            if model::has_name(self@, name) {
                let i = choose|i: int| 0 <= i < self@.len() && (#[trigger] self@[i]).spec_name() == name;
                assert(self.name_index().contains_key(self@[i].spec_name()));
            }
        }
    }

    /// Creates an empty collection. It is well-formed if the names of its
    /// element type are stable.
    pub fn new() -> (r: Self)
        ensures
            r@ == Seq::<T>::empty(),
            r.name_index() == Map::<Seq<char>, usize>::empty(),
            obeys_name_spec::<T>() ==> r.wf(),
    {
        NamedVec { map: StringHashMap::new(), items: Vec::new() }
    }

    /// Creates an empty collection with room for `capacity` elements. The
    /// room is a hint: it changes nothing that the collection does.
    pub fn with_capacity(capacity: usize) -> (r: Self)
        ensures
            r@ == Seq::<T>::empty(),
            r.name_index() == Map::<Seq<char>, usize>::empty(),
            obeys_name_spec::<T>() ==> r.wf(),
    {
        NamedVec {
            map: StringHashMap::with_capacity(capacity),
            items: Vec::with_capacity(capacity),
        }
    }

    /// Creates a collection from the given elements, pushed one after the
    /// other: of several elements with one name the last one stays, at the
    /// position of the first.
    pub fn from_vec(elements: Vec<T>) -> (r: Self)
        requires
            obeys_name_spec::<T>(),
        ensures
            r.wf(),
            r@ == model::push_all(Seq::<T>::empty(), elements@),
    {
        let mut r: Self = Self::with_capacity(elements.len());
        let ghost all = elements@;
        for value in it: elements
            invariant
                it.seq() == all,
                r.wf(),
                r@ == model::push_all(Seq::<T>::empty(), all.take(it.index() as int)),
        {
            proof {
                let k = it.index() as int;
                assert(all.take(k + 1).drop_last() =~= all.take(k));
                assert(all.take(k + 1).last() == value);
            }
            r.push(value);
        }
        proof {
            assert(all.take(all.len() as int) =~= all);
        }
        r
    }

    /// Returns the number of elements.
    pub fn len(&self) -> (n: usize)
        ensures
            n == self@.len(),
    {
        self.items.len()
    }

    /// Returns `true` if the collection holds no element.
    pub fn is_empty(&self) -> (b: bool)
        ensures
            b == (self@.len() == 0),
    {
        self.len() == 0
    }

    /// The elements in order, as a slice.
    pub fn as_slice(&self) -> (r: &[T])
        ensures
            r@ == self@,
    {
        self.items.as_slice()
    }

    /// The elements in order, as a slice whose elements the caller may
    /// change.
    ///
    /// The index is left as it is: the collection stays well-formed exactly
    /// as long as the caller leaves every element's name unchanged.
    pub fn as_mut_slice(&mut self) -> (r: &mut [T])
        ensures
            r@ == old(self)@,
            final(self)@ == final(r)@,
            final(self).name_index() == old(self).name_index(),
    {
        self.items.as_mut_slice()
    }

    /// Resolves a reference to a position: a name gives the position of the
    /// element that bears it, a position gives itself where it is within
    /// bounds. A name that no element bears and a position out of bounds do
    /// not resolve.
    pub fn index_from_lookup(&self, lookup: Lookup) -> (r: Option<usize>)
        requires
            self.wf(),
        ensures
            match model::resolve(self@, lookup) {
                Some(i) => r == Some(i as usize) && i < self@.len(),
                None => r.is_none(),
            },
    {
        match lookup {
            Lookup::Name(name) => {
                proof {
                    self.lemma_index_agrees(name@);
                }
                match self.map.get(name) {
                    Some(i) => Some(*i),
                    None => None,
                }
            },
            Lookup::Index(index) => if index < self.items.len() {
                Some(index)
            } else {
                None
            },
        }
    }

    /// Resolves a reference to a name. A name is handed back as it is,
    /// whether or not an element bears it; a position gives the name of the
    /// element that stands there, if one does.
    pub fn name_from_lookup(&self, lookup: Lookup) -> (r: Option<String>)
        requires
            obeys_name_spec::<T>(),
        ensures
            match lookup {
                Lookup::Name(name) => r.is_some() && r.unwrap()@ == name@,
                Lookup::Index(index) => if index < self@.len() {
                    r.is_some() && r.unwrap()@ == self@[index as int].spec_name()
                } else {
                    r.is_none()
                },
            },
    {
        match lookup {
            Lookup::Name(name) => Some(name.to_owned()),
            Lookup::Index(index) => if index < self.items.len() {
                Some(self.items[index].name().to_owned())
            } else {
                None
            },
        }
    }

    /// Returns the element that `lookup` resolves to, or `None` where the
    /// name is unknown or the position is out of bounds.
    pub fn get<'a, A: IntoLookup<'a>>(&self, lookup: A) -> (r: Option<&T>)
        requires
            self.wf(),
        ensures
            match model::get(self@, lookup.spec_lookup()) {
                Some(t) => r == Some(&t),
                None => r.is_none(),
            },
    {
        match self.index_from_lookup(lookup.into_lookup()) {
            Some(i) => Some(&self.items[i]),
            None => None,
        }
    }

    /// Returns the element that `lookup` resolves to, for the caller to
    /// change, or `None` where the name is unknown or the position is out of
    /// bounds.
    ///
    /// The index is left as it is. The collection stays well-formed exactly
    /// as long as the caller leaves the element's name unchanged.
    pub fn get_mut<'a, A: IntoLookup<'a>>(&mut self, lookup: A) -> (r: Option<&mut T>)
        requires
            old(self).wf(),
        ensures
            final(self).name_index() == old(self).name_index(),
            match model::resolve(old(self)@, lookup.spec_lookup()) {
                Some(i) => {
                    &&& r.is_some()
                    &&& *r.unwrap() == old(self)@[i]
                    &&& final(self)@ == old(self)@.update(i, *final(r.unwrap()))
                    &&& final(r.unwrap()).spec_name() == old(self)@[i].spec_name() ==> final(self).wf()
                },
                None => r.is_none() && final(self)@ == old(self)@ && final(self).wf(),
            },
    {
        match self.index_from_lookup(lookup.into_lookup()) {
            Some(i) => Some(&mut self.items[i]),
            None => None,
        }
    }

    /// Appends an element, or replaces the element of the same name where
    /// there is one.
    pub fn push(&mut self, value: T)
        requires
            old(self).wf(),
        ensures
            final(self).wf(),
            final(self)@ == model::push(old(self)@, value),
    {
        proof {
            self.lemma_index_agrees(value.spec_name());
        }
        let found: Option<usize> = match self.map.get(value.name()) {
            Some(i) => Some(*i),
            None => None,
        };
        match found {
            Some(i) => {
                self.items[i] = value;
            },
            None => {
                let n: usize = self.items.len();
                self.map.insert(value.name().to_owned(), n);
                self.items.push(value);
                proof {
                    assert forall|i: int| 0 <= i < self@.len() implies {
                        &&& self.name_index().contains_key(#[trigger] self@[i].spec_name())
                        &&& self.name_index()[self@[i].spec_name()] == i
                    } by {
                        if i < n {
                            assert(self@[i] == old(self)@[i]);
                            assert(old(self).name_index().contains_key(old(self)@[i].spec_name()));
                        }
                    }
                }
            },
        }
    }

    /// Writes into the index the position of every element from `start` on.
    ///
    /// The elements before `start` must already be indexed by their
    /// positions, and the index must hold no name that no element bears.
    fn reindex_from(&mut self, start: usize)
        requires
            obeys_name_spec::<T>(),
            start <= old(self)@.len(),
            old(self).name_index().dom().finite(),
            model::distinct_names(old(self)@),
            forall|i: int|
                0 <= i < start ==> {
                    &&& old(self).name_index().contains_key(#[trigger] old(self)@[i].spec_name())
                    &&& old(self).name_index()[old(self)@[i].spec_name()] == i
                },
            forall|n: Seq<char>| #[trigger]
                old(self).name_index().contains_key(n) ==> model::has_name(old(self)@, n),
        ensures
            final(self).wf(),
            final(self)@ == old(self)@,
    {
        let n: usize = self.items.len();
        let mut j: usize = start;
        while j < n
            invariant
                obeys_name_spec::<T>(),
                start <= j <= n,
                n == self@.len(),
                self@ == old(self)@,
                self.name_index().dom().finite(),
                model::distinct_names(self@),
                forall|i: int|
                    0 <= i < j ==> {
                        &&& self.name_index().contains_key(#[trigger] self@[i].spec_name())
                        &&& self.name_index()[self@[i].spec_name()] == i
                    },
                forall|n: Seq<char>| #[trigger]
                    self.name_index().contains_key(n) ==> model::has_name(self@, n),
            decreases n - j,
        {
            let ghost before = self.name_index();
            self.map.insert(self.items[j].name().to_owned(), j);
            proof {
                assert forall|i: int| 0 <= i < j + 1 implies {
                    &&& self.name_index().contains_key(#[trigger] self@[i].spec_name())
                    &&& self.name_index()[self@[i].spec_name()] == i
                } by {
                    if i < j {
                        assert(before.contains_key(self@[i].spec_name()));
                        assert(self@[i].spec_name() != self@[j as int].spec_name());
                    }
                }
                assert forall|n: Seq<char>| #[trigger]
                    self.name_index().contains_key(n) implies model::has_name(self@, n) by {
                    if n == self@[j as int].spec_name() {
                    } else {
                        assert(before.contains_key(n));
                    }
                }
            }
            j = j + 1;
        }
        proof {
            assert forall|n: Seq<char>| #[trigger] self.name_index().contains_key(n) implies {
                &&& self.name_index()[n] < self@.len()
                &&& self@[self.name_index()[n] as int].spec_name() == n
            } by {
                assert(model::has_name(self@, n));
                let i = choose|i: int| 0 <= i < self@.len() && (#[trigger] self@[i]).spec_name() == n;
                assert(self.name_index()[self@[i].spec_name()] == i);
            }
        }
    }

    /// Inserts an element before position `index`, moving every element from
    /// there on one place to the right; or replaces the element of the same
    /// name where there is one, at that element's position.
    ///
    /// Where no element bears the name, `index` must not exceed the length.
    pub fn insert(&mut self, index: usize, value: T)
        requires
            old(self).wf(),
            model::has_name(old(self)@, value.spec_name()) || index <= old(self)@.len(),
        ensures
            final(self).wf(),
            final(self)@ == model::insert(old(self)@, index as int, value),
    {
        proof {
            self.lemma_index_agrees(value.spec_name());
        }
        let found: Option<usize> = match self.map.get(value.name()) {
            Some(i) => Some(*i),
            None => None,
        };
        match found {
            Some(i) => {
                self.items[i] = value;
            },
            None => {
                self.items.insert(index, value);
                proof {
                    let s0 = old(self)@;
                    let s1 = self@;
                    assert(s1 == s0.insert(index as int, value));
                    assert forall|i: int, j: int|
                        0 <= i < s1.len() && 0 <= j < s1.len() && (#[trigger] s1[i]).spec_name() == (
                        #[trigger] s1[j]).spec_name() implies i == j by {
                        let a = if i < index { i } else { i - 1 };
                        let b = if j < index { j } else { j - 1 };
                        if i != index {
                            assert(s1[i] == s0[a]);
                        }
                        if j != index {
                            assert(s1[j] == s0[b]);
                        }
                    }
                    assert forall|i: int| 0 <= i < index implies {
                        &&& self.name_index().contains_key(#[trigger] s1[i].spec_name())
                        &&& self.name_index()[s1[i].spec_name()] == i
                    } by {
                        assert(s1[i] == s0[i]);
                    }
                    assert forall|n: Seq<char>| #[trigger]
                        self.name_index().contains_key(n) implies model::has_name(s1, n) by {
                        let p = self.name_index()[n] as int;
                        assert(s0[p].spec_name() == n);
                        let q = if p < index { p } else { p + 1 };
                        assert(s1[q] == s0[p]);
                    }
                }
                self.reindex_from(index);
            },
        }
    }

    /// Removes the element that `lookup` resolves to and returns it, moving
    /// every element behind it one place to the left.
    ///
    /// The reference must resolve: a name must be borne by an element, a
    /// position must be within bounds.
    pub fn remove<'a, A: IntoLookup<'a>>(&mut self, lookup: A) -> (r: T)
        requires
            old(self).wf(),
            model::resolve(old(self)@, lookup.spec_lookup()).is_some(),
        ensures
            final(self).wf(),
            r == old(self)@[model::resolve(old(self)@, lookup.spec_lookup()).unwrap()],
            final(self)@ == old(self)@.remove(
                model::resolve(old(self)@, lookup.spec_lookup()).unwrap(),
            ),
    {
        let index: usize = self.index_from_lookup(lookup.into_lookup()).unwrap();
        proof {
            model::lemma_position_unique(self@, index as int);
            self.lemma_index_agrees(self@[index as int].spec_name());
        }
        self.map.remove(self.items[index].name());
        let removed: T = self.items.remove(index);
        proof {
            let s0 = old(self)@;
            let s1 = self@;
            assert forall|i: int, j: int|
                0 <= i < s1.len() && 0 <= j < s1.len() && (#[trigger] s1[i]).spec_name() == (
                #[trigger] s1[j]).spec_name() implies i == j by {
                let a = if i < index { i } else { i + 1 };
                let b = if j < index { j } else { j + 1 };
                assert(s1[i] == s0[a]);
                assert(s1[j] == s0[b]);
            }
            assert forall|i: int| 0 <= i < index implies {
                &&& self.name_index().contains_key(#[trigger] s1[i].spec_name())
                &&& self.name_index()[s1[i].spec_name()] == i
            } by {
                assert(s1[i] == s0[i]);
                assert(old(self).name_index().contains_key(s0[i].spec_name()));
            }
            assert forall|n: Seq<char>| #[trigger]
                self.name_index().contains_key(n) implies model::has_name(s1, n) by {
                assert(old(self).name_index().contains_key(n));
                let p = old(self).name_index()[n] as int;
                assert(s0[p].spec_name() == n);
                let q = if p < index { p } else { p - 1 };
                assert(s1[q] == s0[p]);
            }
        }
        self.reindex_from(index);
        removed
    }

    /// Returns the number of elements the sequence of elements can hold
    /// without reallocating. The figure is advisory: the index is sized on
    /// its own and does not report its capacity.
    pub fn capacity(&self) -> (c: usize)
        ensures
            c >= self@.len(),
    {
        vec_capacity(&self.items)
    }

    /// Reserves room for at least `additional` more elements.
    pub fn reserve(&mut self, additional: usize)
        ensures
            final(self)@ == old(self)@,
            final(self).name_index() == old(self).name_index(),
            old(self).wf() ==> final(self).wf(),
    {
        self.items.reserve(additional);
        self.map.reserve(additional);
        assert(self@ == old(self)@);
        assert(self.name_index() == old(self).name_index());
    }

    /// Gives back as much of the sequence's spare capacity as possible.
    pub fn shrink_to_fit(&mut self)
        ensures
            final(self)@ == old(self)@,
            final(self).name_index() == old(self).name_index(),
            old(self).wf() ==> final(self).wf(),
    {
        vec_shrink_to_fit(&mut self.items);
        assert(self@ == old(self)@);
        assert(self.name_index() == old(self).name_index());
    }

    /// Shortens the collection to its first `len` elements. Where it holds no
    /// more than `len`, nothing changes.
    pub fn truncate(&mut self, len: usize)
        requires
            old(self).wf(),
        ensures
            final(self).wf(),
            final(self)@ == model::truncate(old(self)@, len as int),
    {
        let n: usize = self.items.len();
        if len < n {
            proof {
                self.lemma_index_agrees(Seq::empty());
            }
            let mut j: usize = len;
            while j < n
                invariant
                    len <= j <= n,
                    n == self@.len(),
                    self@ == old(self)@,
                    old(self).wf(),
                    model::distinct_names(self@),
                    self.name_index().dom().finite(),
                    forall|i: int|
                        0 <= i < len ==> {
                            &&& self.name_index().contains_key(#[trigger] self@[i].spec_name())
                            &&& self.name_index()[self@[i].spec_name()] == i
                        },
                    forall|k: Seq<char>| #[trigger]
                        self.name_index().contains_key(k) ==> {
                            &&& old(self).name_index().contains_key(k)
                            &&& self.name_index()[k] == old(self).name_index()[k]
                            &&& !(len <= old(self).name_index()[k] < j)
                        },
                decreases n - j,
            {
                let ghost before = self.name_index();
                self.map.remove(self.items[j].name());
                proof {
                    assert forall|i: int| 0 <= i < len implies {
                        &&& self.name_index().contains_key(#[trigger] self@[i].spec_name())
                        &&& self.name_index()[self@[i].spec_name()] == i
                    } by {
                        assert(before.contains_key(self@[i].spec_name()));
                        assert(self@[i].spec_name() != self@[j as int].spec_name());
                    }
                    assert forall|k: Seq<char>| #[trigger]
                        self.name_index().contains_key(k) implies !(len <= old(self).name_index()[k] < j
                        + 1) by {
                        assert(before.contains_key(k));
                        assert(old(self).name_index()[self@[j as int].spec_name()] == j);
                    }
                }
                j = j + 1;
            }
            self.items.truncate(len);
        }
    }

    /// Removes every element.
    pub fn clear(&mut self)
        ensures
            final(self)@ == Seq::<T>::empty(),
            final(self).name_index() == Map::<Seq<char>, usize>::empty(),
            obeys_name_spec::<T>() ==> final(self).wf(),
    {
        self.map.clear();
        self.items.clear();
    }

    /// Exchanges the positions of two elements.
    ///
    /// Both references must resolve. Where they resolve to the same
    /// position, nothing changes.
    pub fn swap<'a, 'b, A: IntoLookup<'a>, B: IntoLookup<'b>>(&mut self, first: A, second: B)
        requires
            old(self).wf(),
            model::resolve(old(self)@, first.spec_lookup()).is_some(),
            model::resolve(old(self)@, second.spec_lookup()).is_some(),
        ensures
            final(self).wf(),
            final(self)@ == model::swap(
                old(self)@,
                model::resolve(old(self)@, first.spec_lookup()).unwrap(),
                model::resolve(old(self)@, second.spec_lookup()).unwrap(),
            ),
    {
        let old_i1: usize = self.index_from_lookup(first.into_lookup()).unwrap();
        let old_i2: usize = self.index_from_lookup(second.into_lookup()).unwrap();
        if old_i1 == old_i2 {
            assert(self@ =~= model::swap(self@, old_i1 as int, old_i2 as int));
            return ;
        }
        let old_s1: String = self.name_from_lookup(first.into_lookup()).unwrap();
        let old_s2: String = self.name_from_lookup(second.into_lookup()).unwrap();
        proof {
            model::lemma_position_of(self@, old_s1@);
            model::lemma_position_of(self@, old_s2@);
            self.lemma_index_agrees(old_s1@);
        }
        self.map.insert(old_s1, old_i2);
        self.map.insert(old_s2, old_i1);
        vec_swap(&mut self.items, old_i1, old_i2);
        proof {
            assert forall|i: int| 0 <= i < self@.len() implies {
                &&& self.name_index().contains_key(#[trigger] self@[i].spec_name())
                &&& self.name_index()[self@[i].spec_name()] == i
            } by {
                if i != old_i1 && i != old_i2 {
                    assert(self@[i] == old(self)@[i]);
                    assert(old(self).name_index().contains_key(old(self)@[i].spec_name()));
                }
            }
            assert forall|n: Seq<char>| #[trigger] self.name_index().contains_key(n) implies {
                &&& self.name_index()[n] < self@.len()
                &&& self@[self.name_index()[n] as int].spec_name() == n
            } by {
                if n != old_s1@ && n != old_s2@ {
                    assert(old(self).name_index().contains_key(n));
                }
            }
        }
    }

    /// Exchanges the elements at two positions, both of which must be within
    /// bounds.
    pub fn swap_by_index(&mut self, first: usize, second: usize)
        requires
            old(self).wf(),
            first < old(self)@.len(),
            second < old(self)@.len(),
        ensures
            final(self).wf(),
            final(self)@ == model::swap(old(self)@, first as int, second as int),
    {
        self.swap(first, second);
    }

    /// Exchanges the elements that bear two names, both of which must be
    /// borne by an element.
    pub fn swap_by_name(&mut self, first: &str, second: &str)
        requires
            old(self).wf(),
            model::has_name(old(self)@, first@),
            model::has_name(old(self)@, second@),
        ensures
            final(self).wf(),
            final(self)@ == model::swap(
                old(self)@,
                model::position_of(old(self)@, first@).unwrap(),
                model::position_of(old(self)@, second@).unwrap(),
            ),
    {
        self.swap(first, second);
    }

    /// Removes the last element and returns it, or returns `None` where the
    /// collection is empty.
    pub fn pop(&mut self) -> (r: Option<T>)
        requires
            old(self).wf(),
        ensures
            final(self).wf(),
            old(self)@.len() == 0 ==> r.is_none() && final(self)@ == old(self)@,
            old(self)@.len() > 0 ==> r == Some(old(self)@.last()) && final(self)@ == old(
                self,
            )@.drop_last(),
    {
        if self.items.len() == 0 {
            None
        } else {
            let last_item: T = self.items.pop().unwrap();
            self.map.remove(last_item.name());
            proof {
                assert forall|i: int| 0 <= i < self@.len() implies {
                    &&& self.name_index().contains_key(#[trigger] self@[i].spec_name())
                    &&& self.name_index()[self@[i].spec_name()] == i
                } by {
                    assert(self@[i] == old(self)@[i]);
                    assert(old(self).name_index().contains_key(old(self)@[i].spec_name()));
                    assert(old(self).name_index()[last_item.spec_name()] == old(self)@.len() - 1);
                }
                assert forall|n: Seq<char>| #[trigger] self.name_index().contains_key(n) implies {
                    &&& self.name_index()[n] < self@.len()
                    &&& self@[self.name_index()[n] as int].spec_name() == n
                } by {
                    assert(old(self).name_index().contains_key(n));
                }
                assert(self@ =~= old(self)@.drop_last());
            }
            Some(last_item)
        }
    }

    /// Turns the collection into a traversal of its elements, each with its
    /// name, in order of position.
    pub fn into_iter(self) -> (r: NamedVecIter<T>)
        requires
            self.wf(),
        ensures
            r.wf(),
            r.remaining() == self@,
    {
        proof {
            assert forall|n: Seq<char>|
                self.name_index().dom().contains(n) <==> model::has_name(self@, n) by {
                self.lemma_index_agrees(n);
            }
            self.lemma_index_agrees(Seq::empty());
        }
        NamedVecIter::new(self.map, self.items)
    }
}

/// A clone holds a clone of each element, in the same order. Its index is
/// built from the names of the elements it was cloned from, so it is
/// well-formed wherever cloning an element keeps the element's name.
impl<T: Named + Clone> Clone for NamedVec<T> {
    fn clone(&self) -> (r: Self)
        ensures
            r@.len() == self@.len(),
            forall|i: int|
                0 <= i < self@.len() ==> vstd::pervasive::cloned::<T>(self@[i], #[trigger] r@[i]),
            self.wf() ==> r.name_index() == self.name_index(),
            self.wf() && r@ == self@ ==> r.wf(),
    {
        let items: Vec<T> = self.items.clone();
        let n: usize = self.items.len();
        let mut map: StringHashMap<usize> = StringHashMap::with_capacity(n);
        let mut j: usize = 0;
        while j < n
            invariant
                j <= n,
                n == self@.len(),
                self.wf() ==> {
                    &&& forall|i: int|
                        0 <= i < j ==> {
                            &&& map@.contains_key(#[trigger] self@[i].spec_name())
                            &&& map@[self@[i].spec_name()] == i
                        }
                    &&& forall|k: Seq<char>| #[trigger]
                        map@.contains_key(k) ==> {
                            &&& self.name_index().contains_key(k)
                            &&& map@[k] == self.name_index()[k]
                        }
                },
            decreases n - j,
        {
            let ghost before = map@;
            map.insert(self.items[j].name().to_owned(), j);
            proof {
                if self.wf() {
                    assert forall|i: int| 0 <= i < j + 1 implies {
                        &&& map@.contains_key(#[trigger] self@[i].spec_name())
                        &&& map@[self@[i].spec_name()] == i
                    } by {
                        if i < j {
                            assert(before.contains_key(self@[i].spec_name()));
                            assert(self.name_index()[self@[i].spec_name()] == i);
                            assert(self.name_index()[self@[j as int].spec_name()] == j);
                        }
                    }
                    assert forall|k: Seq<char>| #[trigger] map@.contains_key(k) implies {
                        &&& self.name_index().contains_key(k)
                        &&& map@[k] == self.name_index()[k]
                    } by {
                        if k != self@[j as int].spec_name() {
                            assert(before.contains_key(k));
                        }
                    }
                }
            }
            j = j + 1;
        }
        proof {
            if self.wf() {
                assert forall|k: Seq<char>| self.name_index().contains_key(k) implies map@.contains_key(
                    k,
                ) by {
                    let p = self.name_index()[k] as int;
                    assert(self@[p].spec_name() == k);
                }
                assert(map@ =~= self.name_index());
            }
        }
        NamedVec { map, items }
    }
}

/// Two collections are equal when they hold equal elements in the same
/// order. The index is not compared: the elements determine it.
impl<T: Named + PartialEq> PartialEq for NamedVec<T> {
    fn eq(&self, other: &Self) -> (r: bool) {
        self.items == other.items
    }
}

impl<T: Named + PartialEq> vstd::std_specs::cmp::PartialEqSpecImpl for NamedVec<T> {
    open spec fn obeys_eq_spec() -> bool {
        T::obeys_eq_spec()
    }

    open spec fn eq_spec(&self, other: &Self) -> bool {
        &&& self@.len() == other@.len()
        &&& forall|i: int| 0 <= i < self@.len() ==> #[trigger] self@[i].eq_spec(&other@[i])
    }
}

} // verus!

//! Consuming traversal of a collection.

use vstd::prelude::*;
use vstd::hash_map::StringHashMap;
use crate::element::{obeys_name_spec, Named};
use crate::model;

verus! {

/// Hands out the elements of a collection, each with its name, from the
/// first position to the last. The collection is used up in the making.
pub struct NamedVecIter<T: Named> {
    map: StringHashMap<usize>,
    /// The elements yet to come, the next one last.
    rest: Vec<T>,
}

impl<T: Named> NamedVecIter<T> {
    /// The elements yet to come, in the order in which they will come.
    pub closed spec fn remaining(&self) -> Seq<T> {
        self.rest@.reverse()
    }

    /// The names that the index still holds.
    pub closed spec fn pending_names(&self) -> Set<Seq<char>> {
        self.map@.dom()
    }

    /// The elements yet to come bear distinct names, and the index holds
    /// exactly those names.
    pub open spec fn wf(&self) -> bool {
        &&& obeys_name_spec::<T>()
        &&& model::distinct_names(self.remaining())
        &&& self.pending_names().finite()
        &&& forall|n: Seq<char>|
            self.pending_names().contains(n) <==> model::has_name(self.remaining(), n)
    }

    /// Starts a traversal of `items`, whose names `map` indexes.
    pub(crate) fn new(map: StringHashMap<usize>, items: Vec<T>) -> (r: Self)
        requires
            obeys_name_spec::<T>(),
            model::distinct_names(items@),
            map@.dom().finite(),
            forall|n: Seq<char>| map@.dom().contains(n) <==> model::has_name(items@, n),
        ensures
            r.wf(),
            r.remaining() == items@,
    {
        let mut items = items;
        let mut rest: Vec<T> = Vec::new();
        let ghost all = items@;
        while items.len() > 0
            invariant
                all =~= items@ + rest@.reverse(),
            decreases items.len(),
        {
            let ghost before = items@;
            let ghost back = rest@;
            let item: T = items.pop().unwrap();
            rest.push(item);
            proof {
                assert(before =~= items@.push(item));
                assert(rest@.reverse() =~= seq![item] + back.reverse());
            }
        }
        proof {
            assert(all =~= rest@.reverse());
        }
        NamedVecIter { map, rest }
    }

    /// Returns the next element with its name, or `None` when all have been
    /// handed out.
    pub fn next(&mut self) -> (r: Option<(String, T)>)
        requires
            old(self).wf(),
        ensures
            final(self).wf(),
            old(self).remaining().len() == 0 ==> r.is_none() && final(self).remaining() == old(
                self,
            ).remaining(),
            old(self).remaining().len() > 0 ==> {
                &&& r.is_some()
                &&& r.unwrap().0@ == old(self).remaining().first().spec_name()
                &&& r.unwrap().1 == old(self).remaining().first()
                &&& final(self).remaining() == old(self).remaining().drop_first()
            },
    {
        if self.rest.len() == 0 {
            None
        } else {
            let item: T = self.rest.pop().unwrap();
            let name: String = item.name().to_owned();
            self.map.remove(name.as_str());
            proof {
                let s0 = old(self).remaining();
                let s1 = self.remaining();
                assert(s0.first() == item);
                assert(s1 =~= s0.drop_first());
                assert forall|i: int, j: int|
                    0 <= i < s1.len() && 0 <= j < s1.len() && (#[trigger] s1[i]).spec_name() == (
                    #[trigger] s1[j]).spec_name() implies i == j by {
                    assert(s1[i] == s0[i + 1]);
                    assert(s1[j] == s0[j + 1]);
                }
                assert forall|n: Seq<char>|
                    self.pending_names().contains(n) <==> model::has_name(s1, n) by {
                    if self.pending_names().contains(n) {
                        assert(old(self).pending_names().contains(n));
                        let p = choose|p: int| 0 <= p < s0.len() && (#[trigger] s0[p]).spec_name() == n;
                        assert(p != 0);
                        assert(s1[p - 1] == s0[p]);
                    }
                    if model::has_name(s1, n) {
                        let q = choose|q: int| 0 <= q < s1.len() && (#[trigger] s1[q]).spec_name() == n;
                        assert(s1[q] == s0[q + 1]);
                        assert(s0[0].spec_name() == item.spec_name());
                    }
                }
            }
            Some((name, item))
        }
    }
}

} // verus!

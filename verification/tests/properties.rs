use named_vec::{Lookup, Named, NamedVec};

#[derive(Debug, PartialEq, Clone)]
struct NamedNumber {
    name: String,
    num: i32,
}

impl NamedNumber {
    fn new(name: &str, num: i32) -> Self {
        NamedNumber { name: name.to_owned(), num }
    }
}

impl Named for NamedNumber {
    fn name(&self) -> &str {
        &self.name
    }
}

fn foo_bar_baz() -> NamedVec<NamedNumber> {
    let mut v = NamedVec::new();
    v.push(NamedNumber::new("foo", 0));
    v.push(NamedNumber::new("bar", 1));
    v.push(NamedNumber::new("baz", 2));
    v
}

/// Every name resolves to the position of the element that bears it, and
/// no other name resolves.
fn assert_index_agrees(v: &NamedVec<NamedNumber>) {
    for i in 0..v.len() {
        let name = v[i].name().to_owned();
        assert_eq!(v.index_from_lookup(Lookup::Name(&name)), Some(i));
        assert_eq!(v.get(name.as_str()), Some(&v[i]));
        assert_eq!(v.get(i), Some(&v[i]));
    }
    assert_eq!(v.index_from_lookup(Lookup::Name("no such name")), None);
    assert_eq!(v.get(v.len()), None);
}

#[test]
fn index_agrees_after_each_operation() {
    let mut v = foo_bar_baz();
    assert_index_agrees(&v);
    v.insert(1, NamedNumber::new("qux", 3));
    assert_index_agrees(&v);
    v.swap("foo", 3);
    assert_index_agrees(&v);
    let removed = v.remove("qux");
    assert_eq!(removed, NamedNumber::new("qux", 3));
    assert_index_agrees(&v);
    v.push(NamedNumber::new("bar", 10));
    assert_index_agrees(&v);
    assert_eq!(v.pop(), Some(NamedNumber::new("foo", 0)));
    assert_index_agrees(&v);
    v.truncate(1);
    assert_index_agrees(&v);
    assert_eq!(v.len(), 1);
    assert_eq!(v[0], NamedNumber::new("baz", 2));
    v.clear();
    assert_index_agrees(&v);
    assert!(v.is_empty());
}

#[test]
fn push_with_taken_name_replaces_in_place() {
    let mut v = foo_bar_baz();
    v.push(NamedNumber::new("bar", 7));
    assert_eq!(v.len(), 3);
    assert_eq!(v[0], NamedNumber::new("foo", 0));
    assert_eq!(v[1], NamedNumber::new("bar", 7));
    assert_eq!(v[2], NamedNumber::new("baz", 2));
    assert_eq!(v.index_from_lookup(Lookup::Name("bar")), Some(1));
}

#[test]
fn push_with_new_name_appends() {
    let mut v = foo_bar_baz();
    v.push(NamedNumber::new("qux", 7));
    assert_eq!(v.len(), 4);
    assert_eq!(v[3], NamedNumber::new("qux", 7));
    assert_eq!(v.index_from_lookup(Lookup::Name("qux")), Some(3));
    assert_eq!(v[..3], foo_bar_baz()[..]);
}

#[test]
fn equality_is_sensitive_to_order() {
    let mut first = NamedVec::new();
    first.push(NamedNumber::new("foo", 1));
    first.push(NamedNumber::new("bar", 2));

    let mut second = NamedVec::new();
    second.push(NamedNumber::new("bar", 2));
    second.push(NamedNumber::new("foo", 1));

    let mut third = NamedVec::new();
    third.push(NamedNumber::new("foo", 1));
    third.push(NamedNumber::new("bar", 2));

    assert!(first != second);
    assert!(first == third);
}

#[test]
fn equality_compares_lengths() {
    let mut shorter = foo_bar_baz();
    shorter.truncate(2);
    assert!(shorter != foo_bar_baz());
    assert!(foo_bar_baz() != shorter);
}

#[test]
fn swap_with_itself_changes_nothing() {
    let mut v = foo_bar_baz();
    v.swap("bar", "bar");
    assert!(v == foo_bar_baz());
    v.swap(2, 2);
    assert!(v == foo_bar_baz());
    v.swap("foo", 0);
    assert!(v == foo_bar_baz());
    v.swap_by_index(1, 1);
    assert!(v == foo_bar_baz());
    v.swap_by_name("baz", "baz");
    assert!(v == foo_bar_baz());
    assert_index_agrees(&v);
}

#[test]
fn swap_twice_restores() {
    let mut v = foo_bar_baz();
    v.swap(0, "baz");
    assert_eq!(v[0], NamedNumber::new("baz", 2));
    assert_eq!(v[1], NamedNumber::new("bar", 1));
    assert_eq!(v[2], NamedNumber::new("foo", 0));
    v.swap("baz", "foo");
    assert!(v == foo_bar_baz());
}

#[test]
fn insert_then_remove_restores() {
    for i in 0..=3 {
        let mut v = foo_bar_baz();
        v.insert(i, NamedNumber::new("qux", 9));
        assert_eq!(v.len(), 4);
        assert_eq!(v[i], NamedNumber::new("qux", 9));
        assert_eq!(v.index_from_lookup(Lookup::Name("qux")), Some(i));
        assert_index_agrees(&v);
        assert_eq!(v.remove(i), NamedNumber::new("qux", 9));
        assert!(v == foo_bar_baz());
        assert_index_agrees(&v);
    }
}

#[test]
fn insert_with_taken_name_replaces_without_shifting() {
    let mut v = foo_bar_baz();
    v.insert(0, NamedNumber::new("baz", 5));
    assert_eq!(v.len(), 3);
    assert_eq!(v[0], NamedNumber::new("foo", 0));
    assert_eq!(v[1], NamedNumber::new("bar", 1));
    assert_eq!(v[2], NamedNumber::new("baz", 5));
    // No element moves, so the position given does not matter.
    v.insert(99, NamedNumber::new("foo", 6));
    assert_eq!(v.len(), 3);
    assert_eq!(v[0], NamedNumber::new("foo", 6));
    assert_index_agrees(&v);
}

#[test]
fn insert_at_the_end_appends() {
    let mut v = foo_bar_baz();
    v.insert(3, NamedNumber::new("qux", 3));
    assert_eq!(v.len(), 4);
    assert_eq!(v[3], NamedNumber::new("qux", 3));
    assert_eq!(v[..3], foo_bar_baz()[..]);
}

#[test]
fn truncate_twice_is_truncate_once() {
    let mut once = foo_bar_baz();
    once.truncate(1);
    let mut twice = foo_bar_baz();
    twice.truncate(1);
    twice.truncate(1);
    assert!(once == twice);
    assert_eq!(twice.len(), 1);
    assert_eq!(twice.get("bar"), None);
    assert_eq!(twice.get("baz"), None);
    assert_index_agrees(&twice);
}

#[test]
fn truncate_to_length_or_beyond_changes_nothing() {
    let mut v = foo_bar_baz();
    v.truncate(3);
    assert!(v == foo_bar_baz());
    v.truncate(4);
    assert!(v == foo_bar_baz());
    v.truncate(usize::MAX);
    assert!(v == foo_bar_baz());
    assert_index_agrees(&v);
}

#[test]
fn truncate_to_nothing_empties() {
    let mut v = foo_bar_baz();
    v.truncate(0);
    assert!(v.is_empty());
    assert_eq!(v.get("foo"), None);
    v.push(NamedNumber::new("foo", 4));
    assert_eq!(v.index_from_lookup(Lookup::Name("foo")), Some(0));
}

#[test]
fn get_then_swap() {
    let mut v = NamedVec::new();
    v.push(NamedNumber::new("foo", 1));
    v.push(NamedNumber::new("bar", 2));
    assert_eq!(v.get("foo").unwrap().num, 1);
    assert_eq!(v.get(1).unwrap().name(), "bar");
    v.swap("foo", "bar");
    assert_eq!(v.get(0).unwrap().name(), "bar");
    assert_eq!(v.index_from_lookup(Lookup::Name("bar")), Some(0));
    assert_eq!(v.index_from_lookup(Lookup::Name("foo")), Some(1));
}

#[test]
fn remove_first_shifts_the_rest() {
    let mut v = foo_bar_baz();
    let removed = v.remove(0);
    assert_eq!(removed, NamedNumber::new("foo", 0));
    let mut expected = NamedVec::new();
    expected.push(NamedNumber::new("bar", 1));
    expected.push(NamedNumber::new("baz", 2));
    assert!(v == expected);
    assert_eq!(v.index_from_lookup(Lookup::Name("bar")), Some(0));
    assert_eq!(v.index_from_lookup(Lookup::Name("baz")), Some(1));
    assert_eq!(v.index_from_lookup(Lookup::Name("foo")), None);
}

#[test]
fn remove_last_by_name() {
    let mut v = foo_bar_baz();
    assert_eq!(v.remove("baz"), NamedNumber::new("baz", 2));
    assert_eq!(v.len(), 2);
    assert_index_agrees(&v);
}

#[test]
fn pop_returns_the_last_element() {
    let mut v = foo_bar_baz();
    assert_eq!(v.pop(), Some(NamedNumber::new("baz", 2)));
    assert_eq!(v.len(), 2);
    assert_eq!(v.get("baz"), None);
    assert_eq!(v.pop(), Some(NamedNumber::new("bar", 1)));
    assert_eq!(v.pop(), Some(NamedNumber::new("foo", 0)));
    assert_eq!(v.pop(), None);
    assert_eq!(v.pop(), None);
    assert!(v.is_empty());
}

#[test]
fn get_of_what_is_not_there_is_none() {
    let v = foo_bar_baz();
    assert_eq!(v.get("quux"), None);
    assert_eq!(v.get(3), None);
    assert_eq!(v.get(usize::MAX), None);
    let empty: NamedVec<NamedNumber> = NamedVec::new();
    assert_eq!(empty.get(0), None);
    assert_eq!(empty.get(""), None);
}

#[test]
fn get_mut_changes_the_element() {
    let mut v = foo_bar_baz();
    v.get_mut("bar").unwrap().num = 40;
    v.get_mut(2).unwrap().num = 50;
    assert_eq!(v[1], NamedNumber::new("bar", 40));
    assert_eq!(v[2], NamedNumber::new("baz", 50));
    assert!(v.get_mut("quux").is_none());
    assert!(v.get_mut(3).is_none());
    assert_index_agrees(&v);
}

#[test]
fn as_mut_slice_changes_the_elements() {
    let mut v = foo_bar_baz();
    for item in v.as_mut_slice().iter_mut() {
        item.num += 10;
    }
    assert_eq!(v[0], NamedNumber::new("foo", 10));
    assert_eq!(v[1], NamedNumber::new("bar", 11));
    assert_eq!(v[2], NamedNumber::new("baz", 12));
    assert_eq!(v.as_slice().len(), 3);
    assert_index_agrees(&v);
}

#[test]
fn lookups_resolve_to_positions_and_names() {
    let v = foo_bar_baz();
    assert_eq!(v.index_from_lookup(Lookup::Index(1)), Some(1));
    assert_eq!(v.index_from_lookup(Lookup::Index(2)), Some(2));
    assert_eq!(v.index_from_lookup(Lookup::Index(3)), None);
    assert_eq!(v.index_from_lookup(Lookup::Index(7)), None);
    assert_eq!(v.index_from_lookup(Lookup::Name("quux")), None);
    assert_eq!(v.index_from_lookup(Lookup::Name("baz")), Some(2));
    assert_eq!(v.name_from_lookup(Lookup::Index(1)), Some("bar".to_owned()));
    assert_eq!(v.name_from_lookup(Lookup::Index(3)), None);
    assert_eq!(v.name_from_lookup(Lookup::Name("quux")), Some("quux".to_owned()));
}

#[test]
fn lookups_are_accepted_as_they_are() {
    let mut v = foo_bar_baz();
    assert_eq!(v.get(Lookup::Name("bar")), Some(&NamedNumber::new("bar", 1)));
    assert_eq!(v.get(Lookup::Index(2)), Some(&NamedNumber::new("baz", 2)));
    assert_eq!(v.get(Lookup::Name("quux")), None);
    assert_eq!(v.get(Lookup::Index(3)), None);
    v.get_mut(Lookup::Index(0)).unwrap().num = 8;
    v.swap(Lookup::Name("foo"), Lookup::Index(2));
    assert_eq!(v[2], NamedNumber::new("foo", 8));
    assert_eq!(v.remove(Lookup::Name("bar")), NamedNumber::new("bar", 1));
    assert_eq!(v.remove(Lookup::Index(0)), NamedNumber::new("baz", 2));
    assert_eq!(v.len(), 1);
    assert_index_agrees(&v);
}

#[test]
fn lookup_from_name_and_position() {
    assert!(matches!(Lookup::from("foo"), Lookup::Name("foo")));
    assert!(matches!(Lookup::from(4), Lookup::Index(4)));
}

#[test]
fn from_vec_pushes_in_order() {
    let v = NamedVec::from_vec(vec![
        NamedNumber::new("foo", 0),
        NamedNumber::new("bar", 1),
        NamedNumber::new("foo", 2),
        NamedNumber::new("baz", 3),
    ]);
    assert_eq!(v.len(), 3);
    assert_eq!(v[0], NamedNumber::new("foo", 2));
    assert_eq!(v[1], NamedNumber::new("bar", 1));
    assert_eq!(v[2], NamedNumber::new("baz", 3));
    assert_index_agrees(&v);
    let empty: NamedVec<NamedNumber> = NamedVec::from_vec(Vec::new());
    assert!(empty.is_empty());
}

#[test]
fn subscripts_give_elements_and_slices() {
    let v = foo_bar_baz();
    assert_eq!(v["bar"], NamedNumber::new("bar", 1));
    assert_eq!(v[2], NamedNumber::new("baz", 2));
    assert_eq!(v[0..1], [NamedNumber::new("foo", 0)]);
    assert_eq!(v[1..3], [NamedNumber::new("bar", 1), NamedNumber::new("baz", 2)]);
    assert_eq!(v[..2], [NamedNumber::new("foo", 0), NamedNumber::new("bar", 1)]);
    assert_eq!(v[1..], [NamedNumber::new("bar", 1), NamedNumber::new("baz", 2)]);
    assert_eq!(v[3..], []);
    assert_eq!(v[..0], []);
    assert_eq!(v[..].len(), 3);
    assert_eq!(v[..], *v.as_slice());
}

#[test]
fn traversal_gives_names_and_elements_in_order() {
    let mut it = foo_bar_baz().into_iter();
    assert_eq!(it.next(), Some(("foo".to_owned(), NamedNumber::new("foo", 0))));
    assert_eq!(it.next(), Some(("bar".to_owned(), NamedNumber::new("bar", 1))));
    assert_eq!(it.next(), Some(("baz".to_owned(), NamedNumber::new("baz", 2))));
    assert_eq!(it.next(), None);
    assert_eq!(it.next(), None);
    let empty: NamedVec<NamedNumber> = NamedVec::new();
    assert_eq!(empty.into_iter().next(), None);
}

#[test]
fn clone_is_equal_and_independent() {
    let first = foo_bar_baz();
    let mut copy = first.clone();
    assert!(copy == first);
    assert_index_agrees(&copy);
    copy.remove("foo");
    assert_eq!(copy.len(), 2);
    assert_eq!(first.len(), 3);
    assert_index_agrees(&first);
    assert_index_agrees(&copy);
}

#[test]
fn capacity_is_at_least_the_length() {
    let mut v: NamedVec<NamedNumber> = NamedVec::with_capacity(10);
    assert!(v.is_empty());
    assert!(v.capacity() >= 10);
    v.push(NamedNumber::new("foo", 0));
    assert!(v.capacity() >= v.len());
    v.reserve(100);
    assert!(v.capacity() >= 101);
    assert_eq!(v.len(), 1);
    assert_eq!(v[0], NamedNumber::new("foo", 0));
}

#[test]
fn shrink_to_fit_keeps_the_elements() {
    let mut v = foo_bar_baz();
    v.reserve(1000);
    let roomy = v.capacity();
    assert!(roomy >= 1003);
    v.shrink_to_fit();
    assert!(v.capacity() < roomy);
    assert!(v.capacity() >= 3);
    assert!(v == foo_bar_baz());
    assert_index_agrees(&v);
}

#[test]
fn names_may_be_empty_or_long() {
    let mut v = NamedVec::new();
    v.push(NamedNumber::new("", 0));
    v.push(NamedNumber::new("näme with spaces ✓", 1));
    assert_eq!(v.get("").unwrap().num, 0);
    assert_eq!(v.get("näme with spaces ✓").unwrap().num, 1);
    v.push(NamedNumber::new("", 2));
    assert_eq!(v.len(), 2);
    assert_eq!(v[0].num, 2);
    assert_index_agrees(&v);
}

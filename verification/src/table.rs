//! Lists of records that are found by a name.

use crate::text::str_eq;
use vstd::prelude::*;

verus! {

/// A record that has a name.
pub trait Keyed {
    spec fn key_view(&self) -> Seq<char>;

    fn key(&self) -> (r: &str)
        ensures
            r@ == self.key_view(),
    ;
}

impl Keyed for String {
    open spec fn key_view(&self) -> Seq<char> {
        self@
    }

    fn key(&self) -> (r: &str) {
        self.as_str()
    }
}

/// Whether a list of names holds a name.
pub open spec fn has_name(names: Seq<String>, name: Seq<char>) -> bool {
    position_of(names, name) is Some
}

/// The first position at or after `from` of a record with a name.
pub open spec fn position_from<T: Keyed>(items: Seq<T>, key: Seq<char>, from: int) -> Option<int>
    decreases items.len() - from,
{
    if from < 0 || from >= items.len() {
        None
    } else if items[from].key_view() == key {
        Some(from)
    } else {
        position_from(items, key, from + 1)
    }
}

/// The position of the first record with a name.
pub open spec fn position_of<T: Keyed>(items: Seq<T>, key: Seq<char>) -> Option<int> {
    position_from(items, key, 0)
}

/// The first record with a name.
pub open spec fn find_in<T: Keyed>(items: Seq<T>, key: Seq<char>) -> Option<T> {
    match position_of(items, key) {
        Some(i) => Some(items[i]),
        None => None,
    }
}

/// Whether no name occurs twice.
pub open spec fn unique<T: Keyed>(items: Seq<T>) -> bool {
    forall|i: int, j: int|
        0 <= i < j < items.len() ==> (#[trigger] items[i]).key_view() != (#[trigger] items[j]).key_view()
}

/// The list with a record put in the place of the first of its name, or behind the others.
pub open spec fn upserted<T: Keyed>(items: Seq<T>, item: T) -> Seq<T> {
    match position_of(items, item.key_view()) {
        Some(i) => items.update(i, item),
        None => items.push(item),
    }
}

/// The list without the records of a name.
pub open spec fn without<T: Keyed>(items: Seq<T>, key: Seq<char>) -> Seq<T>
    decreases items.len(),
{
    if items.len() == 0 {
        items
    } else if items.last().key_view() == key {
        without(items.drop_last(), key)
    } else {
        without(items.drop_last(), key).push(items.last())
    }
}

/// A position found holds a record of the name, no earlier one does, and where none is found no
/// record has the name.
pub proof fn lemma_position_from<T: Keyed>(items: Seq<T>, key: Seq<char>, from: int)
    requires
        0 <= from,
    ensures
        match position_from(items, key, from) {
            Some(i) => from <= i < items.len() && items[i].key_view() == key && (forall|j: int|
                from <= j < i ==> (#[trigger] items[j]).key_view() != key),
            None => forall|j: int| from <= j < items.len() ==> (#[trigger] items[j]).key_view() != key,
        },
    decreases items.len() - from,
{
    if from < items.len() && items[from].key_view() != key {
        lemma_position_from(items, key, from + 1);
    }
}

/// The position of a record of a list without repeated names is where it stands.
pub proof fn lemma_position_unique<T: Keyed>(items: Seq<T>, i: int)
    requires
        unique(items),
        0 <= i < items.len(),
    ensures
        position_of(items, items[i].key_view()) == Some(i),
{
    lemma_position_from(items, items[i].key_view(), 0);
}

/// Putting a record into a list keeps its names apart.
pub proof fn upsert_keeps_names_apart<T: Keyed>(items: Seq<T>, item: T)
    requires
        unique(items),
    ensures
        unique(upserted(items, item)),
{
    lemma_position_from(items, item.key_view(), 0);
}

/// A record that was put into a list is found there, and every other name finds what it found
/// before.
pub proof fn upserted_record_is_found<T: Keyed>(items: Seq<T>, item: T, other: Seq<char>)
    ensures
        find_in(upserted(items, item), item.key_view()) == Some(item),
        other != item.key_view() ==> find_in(upserted(items, item), other) == find_in(items, other),
{
    let r = upserted(items, item);
    lemma_position_from(items, item.key_view(), 0);
    lemma_position_from(r, item.key_view(), 0);
    match position_of(items, item.key_view()) {
        Some(i) => {
            assert(r[i] == item);
        },
        None => {
            assert(r[items.len() as int] == item);
        },
    }
    if other != item.key_view() {
        lemma_position_from(items, other, 0);
        lemma_position_from(r, other, 0);
        match position_of(items, other) {
            Some(j) => {
                assert(r[j] == items[j]);
            },
            None => {},
        }
        match position_of(r, other) {
            Some(j) => {
                assert(j < items.len() ==> r[j] == items[j]);
            },
            None => {},
        }
    }
}

/// The records of a name are gone from the list without it, the others are there as before, in
/// their order.
pub proof fn lemma_without<T: Keyed>(items: Seq<T>, key: Seq<char>)
    ensures
        without(items, key).len() <= items.len(),
        forall|j: int| 0 <= j < without(items, key).len() ==> (#[trigger] without(items, key)[j]).key_view() != key,
        forall|j: int|
            0 <= j < without(items, key).len() ==> items.contains(#[trigger] without(items, key)[j]),
        unique(items) ==> unique(without(items, key)),
        (without(items, key).len() == items.len()) == (position_of(items, key) is None),
        position_of(items, key) is None ==> without(items, key) == items,
    decreases items.len(),
{
    lemma_position_from(items, key, 0);
    if items.len() > 0 {
        let head = items.drop_last();
        lemma_without(head, key);
        lemma_position_from(head, key, 0);
        let rest = without(head, key);
        assert forall|j: int| 0 <= j < without(items, key).len() implies items.contains(
            #[trigger] without(items, key)[j],
        ) by {
            if j < rest.len() {
                assert(head.contains(rest[j]));
                let k = choose|k: int| 0 <= k < head.len() && head[k] == rest[j];
                assert(items[k] == rest[j]);
            } else {
                assert(items[items.len() - 1] == items.last());
            }
        }
        match position_of(items, key) {
            Some(i) => {
                if i < head.len() {
                    assert(head[i].key_view() == key);
                }
            },
            None => {
                assert forall|j: int| 0 <= j < head.len() implies (#[trigger] head[j]).key_view() != key by {
                    assert(items[j].key_view() != key);
                }
                assert(items[items.len() - 1].key_view() != key);
                assert(without(items, key) =~= items);
            },
        }
        if unique(items) {
            let w = without(items, key);
            assert forall|i: int, j: int| 0 <= i < j < w.len() implies (#[trigger] w[i]).key_view() != (
            #[trigger] w[j]).key_view() by {
                assert(unique(head)) by {
                    assert forall|a: int, b: int| 0 <= a < b < head.len() implies (
                    #[trigger] head[a]).key_view() != (#[trigger] head[b]).key_view() by {
                        assert(items[a].key_view() != items[b].key_view());
                    }
                }
                if j == rest.len() {
                    assert(head.contains(rest[i]));
                    let k = choose|k: int| 0 <= k < head.len() && head[k] == rest[i];
                    assert(items[k].key_view() != items[items.len() - 1].key_view());
                }
            }
        }
    }
}

/// A name finds nothing in the list without it, and every other name finds there what it found in
/// the list.
pub proof fn removed_record_is_gone<T: Keyed>(items: Seq<T>, key: Seq<char>, other: Seq<char>)
    ensures
        find_in(without(items, key), key) is None,
        other != key ==> find_in(without(items, key), other) == find_in(items, other),
    decreases items.len(),
{
    let w = without(items, key);
    lemma_without(items, key);
    lemma_position_from(w, key, 0);
    if other != key {
        lemma_position_from(items, other, 0);
        lemma_position_from(w, other, 0);
        if items.len() > 0 {
            let head = items.drop_last();
            removed_record_is_gone(head, key, other);
            lemma_position_from(head, other, 0);
            let wh = without(head, key);
            lemma_position_from(wh, other, 0);
            match position_of(head, other) {
                Some(i) => {
                    assert(items[i] == head[i]);
                    match position_of(items, other) {
                        Some(k) => {
                            assert(k < head.len() ==> items[k] == head[k]);
                        },
                        None => {},
                    }
                    match position_of(wh, other) {
                        Some(k) => {
                            assert(w[k] == wh[k]);
                        },
                        None => {},
                    }
                    match position_of(w, other) {
                        Some(k) => {
                            assert(k < wh.len() ==> w[k] == wh[k]);
                        },
                        None => {},
                    }
                },
                None => {
                    match position_of(items, other) {
                        Some(k) => {
                            assert(k < head.len() ==> items[k] == head[k]);
                            assert(k == items.len() - 1);
                            assert(w[wh.len() as int] == items.last());
                        },
                        None => {
                            assert(items[items.len() - 1].key_view() != other);
                        },
                    }
                    match position_of(w, other) {
                        Some(k) => {
                            assert(k < wh.len() ==> w[k] == wh[k]);
                        },
                        None => {},
                    }
                },
            }
        }
    }
}

/// A position depends on the names alone.
pub proof fn lemma_position_by_names<T: Keyed>(a: Seq<T>, b: Seq<T>, key: Seq<char>, from: int)
    requires
        a.len() == b.len(),
        forall|i: int| 0 <= i < a.len() ==> (#[trigger] a[i]).key_view() == b[i].key_view(),
    ensures
        position_from(a, key, from) == position_from(b, key, from),
    decreases a.len() - from,
{
    if 0 <= from < a.len() {
        assert(a[from].key_view() == b[from].key_view());
        if a[from].key_view() != key {
            lemma_position_by_names(a, b, key, from + 1);
        }
    }
}

/// The position of the first record named `key`.
pub fn position<T: Keyed>(items: &Vec<T>, key: &str) -> (r: Option<usize>)
    ensures
        match r {
            Some(i) => position_of(items@, key@) == Some(i as int) && i < items@.len() && items@[i as int].key_view()
                == key@,
            None => position_of(items@, key@) is None,
        },
{
    let mut i: usize = 0;
    while i < items.len()
        invariant
            i <= items.len(),
            position_of(items@, key@) == position_from(items@, key@, i as int),
        decreases items.len() - i,
    {
        if str_eq(items[i].key(), key) {
            return Some(i);
        }
        i += 1;
    }
    None
}

/// The first record named `key`.
pub fn lookup<'a, T: Keyed>(items: &'a Vec<T>, key: &str) -> (r: Option<&'a T>)
    ensures
        match r {
            Some(x) => find_in(items@, key@) == Some(*x),
            None => find_in(items@, key@) is None,
        },
{
    match position(items, key) {
        Some(i) => Some(&items[i]),
        None => None,
    }
}

/// Puts a record in the place of the first of its name, or behind the others.
pub fn upsert_by<T: Keyed>(items: &mut Vec<T>, item: T)
    ensures
        final(items)@ == upserted(old(items)@, item),
{
    let found = position(items, item.key());
    match found {
        Some(i) => {
            items[i] = item;
        },
        None => {
            items.push(item);
        },
    }
}

/// Removes the records named `key`, and says whether there were any.
pub fn remove_by<T: Keyed>(items: &mut Vec<T>, key: &str) -> (r: bool)
    ensures
        final(items)@ == without(old(items)@, key@),
        r == (position_of(old(items)@, key@) is Some),
{
    let ghost all = items@;
    let n = items.len();
    let mut i: usize = 0;
    let mut done: usize = 0;
    let mut removed = false;
    proof {
        lemma_without(all, key@);
        assert(all.take(0) =~= Seq::empty());
        assert(items@ =~= without(all.take(0), key@) + all.skip(0));
    }
    while done < n
        invariant
            n == all.len(),
            done <= n,
            i <= done,
            i == without(all.take(done as int), key@).len(),
            items@ == without(all.take(done as int), key@) + all.skip(done as int),
            removed == (i < done),
        decreases n - done,
    {
        let ghost kept = without(all.take(done as int), key@);
        let ghost next = all.take(done + 1);
        proof {
            assert(next.drop_last() =~= all.take(done as int));
            assert(next.last() == all[done as int]);
            assert(items@[i as int] == all[done as int]);
            lemma_without(all.take(done as int), key@);
        }
        if str_eq(items[i].key(), key) {
            items.remove(i);
            removed = true;
            proof {
                assert(items@ =~= without(next, key@) + all.skip(done + 1));
            }
        } else {
            proof {
                assert(items@ =~= without(next, key@) + all.skip(done + 1));
            }
            i += 1;
        }
        done += 1;
    }
    proof {
        assert(all.take(n as int) =~= all);
        assert(all.skip(n as int) =~= Seq::empty());
        assert(items@ =~= without(all, key@));
    }
    removed
}

/// Adding a name to a list of names adds that name and no other.
pub proof fn lemma_name_added(names: Seq<String>, name: String, other: Seq<char>)
    ensures
        has_name(upserted(names, name), other) == (has_name(names, other) || other == name@),
{
    upserted_record_is_found(names, name, other);
}

/// Removing a name from a list of names removes that name and no other.
pub proof fn lemma_name_removed(names: Seq<String>, name: Seq<char>, other: Seq<char>)
    ensures
        has_name(without(names, name), other) == (has_name(names, other) && other != name),
{
    removed_record_is_gone(names, name, other);
}

} // verus!

//! Lists of entries that are found by name.
//!
//! The ledger keeps its wallets, its validators, its pending requests and
//! its branches in lists in which no name occurs twice. This module holds
//! what they share: the search by name, the map and the set that such a
//! list stands for, and how pushing, replacing and removing an entry changes
//! them.

use crate::text::str_eq;
use vstd::prelude::*;
use vstd::string::*;

verus! {

/// An entry that is found by its name.
pub trait Keyed {
    /// The name of the entry.
    spec fn key_view(&self) -> Seq<char>;

    /// The name of the entry.
    fn key(&self) -> (k: &str)
        ensures
            k@ == self.key_view(),
    ;
}

impl Keyed for String {
    open spec fn key_view(&self) -> Seq<char> {
        self@
    }

    fn key(&self) -> (k: &str) {
        self.as_str()
    }
}

/// The names of `items`, in order.
pub open spec fn keys_of<T: Keyed>(items: Seq<T>) -> Seq<Seq<char>> {
    items.map_values(|item: T| item.key_view())
}

/// Whether no name occurs twice in `items`.
pub open spec fn distinct<T: Keyed>(items: Seq<T>) -> bool {
    keys_of(items).no_duplicates()
}

/// The set of the names of `items`.
pub open spec fn key_set<T: Keyed>(items: Seq<T>) -> Set<Seq<char>> {
    keys_of(items).to_set()
}

/// The map that `items` stands for: from each name in it to what `value`
/// makes of the entry with that name.
pub open spec fn table<T: Keyed, V>(items: Seq<T>, value: spec_fn(T) -> V) -> Map<Seq<char>, V> {
    Map::new(
        |k: Seq<char>| keys_of(items).contains(k),
        |k: Seq<char>| value(items[keys_of(items).index_of(k)]),
    )
}

/// Looks for the entry named `key`.
///
/// Returns the position of the first such entry, or `None` where `items`
/// holds none.
pub fn position<T: Keyed>(items: &Vec<T>, key: &str) -> (found: Option<usize>)
    ensures
        found is Some <==> keys_of(items@).contains(key@),
        found matches Some(i) ==> {
            &&& i < items.len()
            &&& items[i as int].key_view() == key@
            &&& forall|j: int| 0 <= j < i ==> items[j].key_view() != key@
        },
{
    let mut i: usize = 0;
    while i < items.len()
        invariant
            i <= items.len(),
            forall|j: int| 0 <= j < i ==> items[j].key_view() != key@,
        decreases items.len() - i,
    {
        if str_eq(items[i].key(), key) {
            assert(keys_of(items@)[i as int] == key@);
            return Some(i);
        }
        i = i + 1;
    }
    assert forall|j: int| 0 <= j < keys_of(items@).len() implies keys_of(items@)[j] != key@ by {
        assert(keys_of(items@)[j] == items[j].key_view());
    }
    None
}

/// In a list without repeated names, an entry is the one that its name
/// leads to.
pub proof fn lemma_table_entry<T: Keyed, V>(items: Seq<T>, value: spec_fn(T) -> V, i: int)
    requires
        distinct(items),
        0 <= i < items.len(),
    ensures
        keys_of(items).contains(items[i].key_view()),
        keys_of(items).index_of(items[i].key_view()) == i,
        table(items, value).dom().contains(items[i].key_view()),
        table(items, value)[items[i].key_view()] == value(items[i]),
{
    let keys = keys_of(items);
    assert(keys[i] == items[i].key_view());
    let j = keys.index_of(items[i].key_view());
    assert(0 <= j < keys.len() && keys[j] == keys[i]);
}

/// A name in the list is the name of the entry that it leads to.
pub proof fn lemma_table_lookup<T: Keyed, V>(items: Seq<T>, value: spec_fn(T) -> V, k: Seq<char>)
    requires
        keys_of(items).contains(k),
    ensures
        0 <= keys_of(items).index_of(k) < items.len(),
        items[keys_of(items).index_of(k)].key_view() == k,
        table(items, value)[k] == value(items[keys_of(items).index_of(k)]),
{
    let i = keys_of(items).index_of(k);
    assert(keys_of(items)[i] == k);
}

/// A list without repeated names has as many names as entries.
pub proof fn lemma_keys_size<T: Keyed>(items: Seq<T>)
    requires
        distinct(items),
    ensures
        key_set(items).finite(),
        key_set(items).len() == items.len(),
{
    vstd::seq_lib::seq_to_set_is_finite(keys_of(items));
    keys_of(items).unique_seq_to_set();
}

/// Pushing an entry under a new name adds the name to the set of names, and
/// repeats no name.
pub proof fn lemma_keys_push<T: Keyed>(items: Seq<T>, entry: T)
    requires
        distinct(items),
        !keys_of(items).contains(entry.key_view()),
    ensures
        keys_of(items.push(entry)) == keys_of(items).push(entry.key_view()),
        distinct(items.push(entry)),
        key_set(items.push(entry)) == key_set(items).insert(entry.key_view()),
{
    let after = items.push(entry);
    assert(keys_of(after) =~= keys_of(items).push(entry.key_view()));
    assert forall|i: int, j: int|
        0 <= i < after.len() && 0 <= j < after.len() && i != j implies keys_of(after)[i]
        != keys_of(after)[j] by {
        if i < items.len() {
            assert(keys_of(items)[i] == keys_of(after)[i]);
        }
        if j < items.len() {
            assert(keys_of(items)[j] == keys_of(after)[j]);
        }
    }
    assert forall|k: Seq<char>| keys_of(after).contains(k) <==> (keys_of(items).contains(k) || k
        == entry.key_view()) by {
        if keys_of(after).contains(k) {
            let i = keys_of(after).index_of(k);
            if i < items.len() {
                assert(keys_of(items)[i] == k);
            }
        }
        if keys_of(items).contains(k) {
            let i = keys_of(items).index_of(k);
            assert(keys_of(after)[i] == k);
        }
        if k == entry.key_view() {
            assert(keys_of(after)[items.len() as int] == k);
        }
    }
    assert(key_set(after) =~= key_set(items).insert(entry.key_view()));
}

/// Removing an entry removes its name from the set of names, and repeats no
/// name.
pub proof fn lemma_keys_remove<T: Keyed>(items: Seq<T>, i: int)
    requires
        distinct(items),
        0 <= i < items.len(),
    ensures
        forall|j: int|
            0 <= j < items.len() - 1 ==> #[trigger] keys_of(items.remove(i))[j] == keys_of(items)[if j
                < i {
                j
            } else {
                j + 1
            }],
        distinct(items.remove(i)),
        key_set(items.remove(i)) == key_set(items).remove(items[i].key_view()),
{
    let after = items.remove(i);
    let gone = items[i].key_view();
    assert forall|j: int| 0 <= j < after.len() implies #[trigger] keys_of(after)[j] == keys_of(
        items,
    )[if j < i {
        j
    } else {
        j + 1
    }] by {}
    assert forall|a: int, b: int|
        0 <= a < after.len() && 0 <= b < after.len() && a != b implies keys_of(after)[a]
        != keys_of(after)[b] by {
        assert(keys_of(after)[a] == keys_of(items)[if a < i { a } else { a + 1 }]);
        assert(keys_of(after)[b] == keys_of(items)[if b < i { b } else { b + 1 }]);
    }
    assert forall|k: Seq<char>| keys_of(after).contains(k) <==> (keys_of(items).contains(k) && k
        != gone) by {
        if keys_of(after).contains(k) {
            let j = keys_of(after).index_of(k);
            let source = if j < i { j } else { j + 1 };
            assert(keys_of(after)[j] == keys_of(items)[source]);
            assert(keys_of(items)[i] == gone);
        }
        if keys_of(items).contains(k) && k != gone {
            let j = keys_of(items).index_of(k);
            assert(keys_of(items)[i] == gone);
            let target = if j < i { j } else { j - 1 };
            assert(keys_of(after)[target] == keys_of(items)[j]);
        }
    }
    assert(key_set(after) =~= key_set(items).remove(gone));
}

/// The map of a list has the names of the list for its domain.
pub proof fn lemma_table_size<T: Keyed, V>(items: Seq<T>, value: spec_fn(T) -> V)
    requires
        distinct(items),
    ensures
        table(items, value).dom() == key_set(items),
        key_set(items).finite(),
        key_set(items).len() == items.len(),
{
    assert(table(items, value).dom() =~= key_set(items));
    lemma_keys_size(items);
}

/// Pushing an entry under a new name inserts it into the map.
pub proof fn lemma_table_push<T: Keyed, V>(items: Seq<T>, value: spec_fn(T) -> V, entry: T)
    requires
        distinct(items),
        !keys_of(items).contains(entry.key_view()),
    ensures
        distinct(items.push(entry)),
        table(items.push(entry), value) == table(items, value).insert(
            entry.key_view(),
            value(entry),
        ),
{
    let after = items.push(entry);
    let expected = table(items, value).insert(entry.key_view(), value(entry));
    lemma_keys_push(items, entry);
    assert(table(after, value).dom() =~= expected.dom()) by {
        assert(table(after, value).dom() =~= key_set(after));
        assert(table(items, value).dom() =~= key_set(items));
    }
    assert forall|k: Seq<char>| table(after, value).dom().contains(k) implies table(after, value)[k]
        == expected[k] by {
        let i = keys_of(after).index_of(k);
        lemma_table_entry(after, value, i);
        if i < items.len() {
            assert(keys_of(items)[i] == k);
            lemma_table_entry(items, value, i);
        }
    }
    assert(table(after, value) =~= expected);
}

/// Replacing an entry by one of the same name replaces its value in the
/// map, and changes no name.
pub proof fn lemma_table_update<T: Keyed, V>(
    items: Seq<T>,
    value: spec_fn(T) -> V,
    i: int,
    entry: T,
)
    requires
        distinct(items),
        0 <= i < items.len(),
        entry.key_view() == items[i].key_view(),
    ensures
        keys_of(items.update(i, entry)) == keys_of(items),
        distinct(items.update(i, entry)),
        table(items.update(i, entry), value) == table(items, value).insert(
            entry.key_view(),
            value(entry),
        ),
{
    let after = items.update(i, entry);
    let expected = table(items, value).insert(entry.key_view(), value(entry));
    assert(keys_of(after) =~= keys_of(items));
    lemma_table_entry(items, value, i);
    assert forall|k: Seq<char>| table(after, value).dom().contains(k) implies table(after, value)[k]
        == expected[k] by {
        let j = keys_of(after).index_of(k);
        lemma_table_entry(after, value, j);
        lemma_table_entry(items, value, j);
    }
    assert(table(after, value) =~= expected);
}

/// Removing an entry removes its name from the map.
pub proof fn lemma_table_remove<T: Keyed, V>(items: Seq<T>, value: spec_fn(T) -> V, i: int)
    requires
        distinct(items),
        0 <= i < items.len(),
    ensures
        distinct(items.remove(i)),
        table(items.remove(i), value) == table(items, value).remove(items[i].key_view()),
{
    let after = items.remove(i);
    let gone = items[i].key_view();
    let expected = table(items, value).remove(gone);
    lemma_keys_remove(items, i);
    assert(table(after, value).dom() =~= expected.dom()) by {
        assert(table(after, value).dom() =~= key_set(after));
        assert(table(items, value).dom() =~= key_set(items));
    }
    assert forall|k: Seq<char>| table(after, value).dom().contains(k) implies table(after, value)[k]
        == expected[k] by {
        let j = keys_of(after).index_of(k);
        lemma_table_entry(after, value, j);
        let source = if j < i { j } else { j + 1 };
        assert(keys_of(after)[j] == keys_of(items)[source]);
        lemma_table_entry(items, value, source);
    }
    assert(table(after, value) =~= expected);
}

/// Two lists that agree, entry by entry, in name and in value stand for the
/// same map.
pub proof fn lemma_table_copy<T: Keyed, V>(items: Seq<T>, copy: Seq<T>, value: spec_fn(T) -> V)
    requires
        copy.len() == items.len(),
        forall|i: int|
            0 <= i < items.len() ==> (#[trigger] copy[i]).key_view() == items[i].key_view()
                && value(copy[i]) == value(items[i]),
    ensures
        keys_of(copy) == keys_of(items),
        table(copy, value) == table(items, value),
{
    assert(keys_of(copy) =~= keys_of(items)) by {
        assert forall|i: int| 0 <= i < items.len() implies keys_of(copy)[i] == keys_of(items)[i] by {
            assert(copy[i].key_view() == items[i].key_view());
        }
    }
    assert forall|k: Seq<char>| table(copy, value).dom().contains(k) implies table(copy, value)[k]
        == table(items, value)[k] by {
        let i = keys_of(copy).index_of(k);
        assert(keys_of(copy)[i] == k);
        assert(value(copy[i]) == value(items[i]));
    }
    assert(table(copy, value) =~= table(items, value));
}

} // verus!

//! In which order the locks of a table are taken, and which tree stands where.

use std::io::Error;
use std::sync::Arc;

use b_tree::{BTree, BTreeLock, Collator};
use vstd::prelude::*;
use vstd::utf8::encode_utf8;

use crate::error::TableError;
use crate::index_map::{
    bytes_before, is_entry, is_sorted, lemma_entry, lemma_irreflexive, lemma_transitive,
    name_before, order_of, IndexMap, NameOrder,
};
use crate::schema::TableSchema;
use crate::storage::{ReadGuard, WriteGuard};
use crate::table::acquire::{Acquisition, Progress};
use crate::table::table_lock::{
    entry_refs, gave_error, gave_some_tree, read_outcome, write_outcome, TableLock,
};
use crate::table::Table;

verus! {

/// The byte strings `a` and `b` are equal up to the place `i`,
/// where `a` ends or has the lesser byte.
pub open spec fn is_less_at(a: Seq<u8>, b: Seq<u8>, i: int) -> bool {
    &&& 0 <= i <= a.len()
    &&& i < b.len()
    &&& forall|j: int| 0 <= j < i ==> #[trigger] a[j] == b[j]
    &&& i < a.len() ==> a[i] < b[i]
}

/// One byte string comes before another just if, where they first differ, it ends
/// or has the lesser byte.
proof fn lemma_bytes_before(a: Seq<u8>, b: Seq<u8>)
    ensures
        bytes_before(a, b) <==> exists|i: int| is_less_at(a, b, i),
    decreases a.len(),
{
    if b.len() > 0 && a.len() == 0 {
        assert(is_less_at(a, b, 0));
    } else if b.len() > 0 && a[0] == b[0] {
        let x = a.drop_first();
        let y = b.drop_first();
        lemma_bytes_before(x, y);
        if bytes_before(x, y) {
            let i = choose|i: int| is_less_at(x, y, i);
            assert forall|j: int| 0 <= j < i + 1 implies #[trigger] a[j] == b[j] by {
                if j > 0 {
                    assert(x[j - 1] == y[j - 1]);
                }
            }
            assert(is_less_at(a, b, i + 1));
        }
        if exists|i: int| is_less_at(a, b, i) {
            let i = choose|i: int| is_less_at(a, b, i);
            assert forall|j: int| 0 <= j < i - 1 implies #[trigger] x[j] == y[j] by {
                assert(a[j + 1] == b[j + 1]);
            }
            assert(is_less_at(x, y, i - 1));
        }
    } else if b.len() > 0 {
        if a[0] < b[0] {
            assert(is_less_at(a, b, 0));
        }
        if exists|i: int| is_less_at(a, b, i) {
            let i = choose|i: int| is_less_at(a, b, i);
            if i > 0 {
                assert(a[0] == b[0]);
            }
        }
    }
}

/// Names are ordered by their bytes: of two names, that one comes first which ends
/// or has the lesser byte where they first differ.
pub proof fn law_order_of_names(a: &str, b: &str, order: NameOrder)
    requires
        call_ensures(order_of, (a, b), order),
    ensures
        order is Before <==> exists|i: int| is_less_at(encode_utf8(a@), encode_utf8(b@), i),
        order is After <==> exists|i: int| is_less_at(encode_utf8(b@), encode_utf8(a@), i),
        order is Same <==> a@ == b@,
{
    let x = encode_utf8(a@);
    let y = encode_utf8(b@);
    lemma_bytes_before(x, y);
    lemma_bytes_before(y, x);
    lemma_irreflexive(x);
    if bytes_before(x, y) && bytes_before(y, x) {
        lemma_transitive(x, y, x);
    }
}

/// The entries of a map come in order of their names, each name once.
pub proof fn law_order_of_entries<T>(map: IndexMap<T>, entries: Vec<(String, T)>, i: int, j: int)
    requires
        call_ensures(IndexMap::<T>::into_entries, (map,), entries),
        0 <= i < j < entries@.len(),
    ensures
        exists|d: int|
            is_less_at(encode_utf8(entries@[i].0@), encode_utf8(entries@[j].0@), d),
        entries@[i].0@ != entries@[j].0@,
{
    assert(name_before(entries@[i].0@, entries@[j].0@));
    lemma_bytes_before(encode_utf8(entries@[i].0@), encode_utf8(entries@[j].0@));
    lemma_irreflexive(encode_utf8(entries@[i].0@));
}

/// A map finds the value of each of its entries by the name, and nothing by any other name.
pub proof fn law_found_entry<T>(
    map: IndexMap<T>,
    entries: Vec<(String, T)>,
    name: &str,
    value: Option<&T>,
)
    requires
        call_ensures(IndexMap::<T>::into_entries, (map,), entries),
        call_ensures(IndexMap::<T>::get, (&map, name), value),
    ensures
        forall|i: int|
            0 <= i < entries@.len() && #[trigger] entries@[i].0@ == name@ ==> value == Some(
                &entries@[i].1,
            ),
        value is Some ==> exists|i: int|
            0 <= i < entries@.len() && #[trigger] entries@[i].0@ == name@,
{
    assert forall|i: int| 0 <= i < entries@.len() && #[trigger] entries@[i].0@ == name@ implies value
        == Some(&entries@[i].1) by {
        lemma_entry(entries@, name@, i);
    }
    if value is Some {
        let i = choose|i: int| is_entry(entries@, name@, i);
        assert(entries@[i].0@ == name@);
    }
}

/// A new map has no entries, the entries of a map are counted and can be asked for one by one,
/// and mapping or cloning a map does it to the value of each name.
pub proof fn law_entries<T: Clone, U, F: Fn(T) -> U>(
    empty: IndexMap<T>,
    map: IndexMap<T>,
    entries: Vec<(String, T)>,
    len: usize,
    i: usize,
    entry: (&String, &T),
    f: F,
    mapped: IndexMap<U>,
    copy: IndexMap<T>,
    name: Seq<char>,
)
    requires
        call_ensures(IndexMap::<T>::new, (), empty),
        call_ensures(IndexMap::<T>::into_entries, (map,), entries),
        call_ensures(IndexMap::<T>::len, (&map,), len),
        call_ensures(IndexMap::<T>::at, (&map, i), entry),
        call_ensures(IndexMap::<T>::map::<U, F>, (map, f), mapped),
        cloned(map, copy),
    ensures
        !empty@.contains_key(name),
        len == entries@.len(),
        *entry.0 == entries@[i as int].0,
        *entry.1 == entries@[i as int].1,
        mapped@.contains_key(name) <==> map@.contains_key(name),
        map@.contains_key(name) ==> call_ensures(f, (map@[name],), mapped@[name]),
        copy@.contains_key(name) <==> map@.contains_key(name),
        map@.contains_key(name) ==> cloned(map@[name], copy@[name]),
{
    assert(mapped@.dom().contains(name) == map@.dom().contains(name));
    assert(copy@.dom().contains(name) == map@.dom().contains(name));
}

/// Setting the value of a name in a map sets that one and leaves all others.
pub proof fn law_set_entry<T>(map: &mut IndexMap<T>, name: String, value: T, other: Seq<char>)
    requires
        call_ensures(IndexMap::<T>::insert, (map, name, value), ()),
    ensures
        final(map)@.contains_key(name@),
        final(map)@[name@] == value,
        other != name@ ==> {
            &&& final(map)@.contains_key(other) <==> old(map)@.contains_key(other)
            &&& old(map)@.contains_key(other) ==> final(map)@[other] == old(map)@[other]
        },
{
}

/// Where the locking stands after `k` locks gave trees.
spec fn is_after<S, L, IS, C, G>(
    schema: Arc<TableSchema<S>>,
    auxiliary: Seq<(String, L)>,
    trees: Seq<BTree<IS, C, G>>,
    state: Acquisition<S, L, IS, C, G>,
    k: int,
) -> bool {
    let held = state.held_auxiliary();
    &&& 0 <= k <= auxiliary.len()
    &&& state.spec_schema() == schema
    &&& state.spec_pending() == auxiliary.skip(k)
    &&& state.turn_name() == if k == 0 {
        None
    } else {
        Some(auxiliary[k - 1].0@)
    }
    &&& k > 0 ==> {
        &&& state.held_primary() == Some(trees[0])
        &&& forall|i: int|
            0 <= i < k - 1 ==> {
                &&& held.contains_key(#[trigger] auxiliary[i].0@)
                &&& held[auxiliary[i].0@] == trees[i + 1]
            }
        &&& forall|name: Seq<char>| #[trigger]
            held.contains_key(name) ==> exists|i: int| i < k - 1 && is_entry(auxiliary, name, i)
    }
}

/// The trees that are held once the `k`th lock gave its tree.
proof fn lemma_held<S, L, IS, C, G>(
    schema: Arc<TableSchema<S>>,
    auxiliary: Seq<(String, L)>,
    trees: Seq<BTree<IS, C, G>>,
    state: Acquisition<S, L, IS, C, G>,
    k: int,
)
    requires
        is_sorted(auxiliary),
        is_after(schema, auxiliary, trees, state, k),
        k < trees.len(),
    ensures
        state.primary_with(trees[k]) == trees[0],
        forall|i: int|
            0 <= i < k ==> {
                &&& state.auxiliary_with(trees[k]).contains_key(#[trigger] auxiliary[i].0@)
                &&& state.auxiliary_with(trees[k])[auxiliary[i].0@] == trees[i + 1]
            },
        forall|name: Seq<char>| #[trigger]
            state.auxiliary_with(trees[k]).contains_key(name) ==> exists|i: int|
                i < k && is_entry(auxiliary, name, i),
{
    let held = state.auxiliary_with(trees[k]);
    assert forall|i: int| 0 <= i < k implies {
        &&& held.contains_key(#[trigger] auxiliary[i].0@)
        &&& held[auxiliary[i].0@] == trees[i + 1]
    } by {
        if i < k - 1 {
            lemma_entry(auxiliary, auxiliary[i].0@, i);
            assert(!is_entry(auxiliary, auxiliary[i].0@, k - 1));
        }
    }
    assert forall|name: Seq<char>| #[trigger] held.contains_key(name) implies exists|i: int|
        i < k && is_entry(auxiliary, name, i) by {
        if name == auxiliary[k - 1].0@ {
            assert(is_entry(auxiliary, name, k - 1));
        } else {
            assert(state.held_auxiliary().contains_key(name));
            let i = choose|i: int| i < k - 1 && is_entry(auxiliary, name, i);
            assert(i < k && is_entry(auxiliary, name, i));
        }
    }
}

/// The locks of a table were taken one by one: `states` are the states of the locking,
/// `trees` are the trees that the locks gave, and `locks` are the locks after the first one.
/// The last tree completed the `table`.
pub open spec fn is_locking_run<S, L, IS, C, G>(
    states: Seq<Acquisition<S, L, IS, C, G>>,
    trees: Seq<BTree<IS, C, G>>,
    locks: Seq<L>,
    table: Table<S, IS, C, G>,
) -> bool {
    &&& states.len() == locks.len() + 1
    &&& trees.len() == locks.len() + 1
    &&& forall|k: int|
        0 <= k < locks.len() ==> call_ensures(
            Acquisition::<S, L, IS, C, G>::acquired,
            (states[k], trees[k]),
            Progress::Next(#[trigger] locks[k], states[k + 1]),
        )
    &&& call_ensures(
        Acquisition::<S, L, IS, C, G>::acquired,
        (states[locks.len() as int], trees[locks.len() as int]),
        Progress::Done(table),
    )
}

/// Where the locking stands at each step of a run.
proof fn lemma_run<S, L, IS, C, G>(
    schema: Arc<TableSchema<S>>,
    auxiliary: Seq<(String, L)>,
    states: Seq<Acquisition<S, L, IS, C, G>>,
    trees: Seq<BTree<IS, C, G>>,
    locks: Seq<L>,
    table: Table<S, IS, C, G>,
    k: int,
)
    requires
        is_sorted(auxiliary),
        is_locking_run(states, trees, locks, table),
        states[0].is_begun(schema, auxiliary),
        0 <= k <= locks.len(),
    ensures
        is_after(schema, auxiliary, trees, states[k], k),
        forall|j: int|
            0 <= j < k ==> j < auxiliary.len() && #[trigger] locks[j] == auxiliary[j].1,
    decreases k,
{
    if k == 0 {
        assert(auxiliary.skip(0) =~= auxiliary);
    } else {
        lemma_run(schema, auxiliary, states, trees, locks, table, k - 1);
        lemma_held(schema, auxiliary, trees, states[k - 1], k - 1);
        assert(call_ensures(
            Acquisition::<S, L, IS, C, G>::acquired,
            (states[k - 1], trees[k - 1]),
            Progress::Next(locks[k - 1], states[(k - 1) + 1]),
        ));
        assert(states[k - 1].is_progress(trees[k - 1], Progress::Next(locks[k - 1], states[k])));
        assert(auxiliary.skip(k - 1)[0] == auxiliary[k - 1]);
        assert(auxiliary.skip(k - 1).drop_first() =~= auxiliary.skip(k));
    }
}

/// What a run of the locking gives: a table whose primary index is the first tree,
/// and whose other indices are the other trees, each under the name of its lock.
proof fn lemma_whole_run<S, L, IS, C, G>(
    schema: Arc<TableSchema<S>>,
    auxiliary: Seq<(String, L)>,
    states: Seq<Acquisition<S, L, IS, C, G>>,
    trees: Seq<BTree<IS, C, G>>,
    locks: Seq<L>,
    table: Table<S, IS, C, G>,
)
    requires
        is_sorted(auxiliary),
        is_locking_run(states, trees, locks, table),
        states[0].is_begun(schema, auxiliary),
    ensures
        locks.len() == auxiliary.len(),
        forall|i: int| 0 <= i < locks.len() ==> #[trigger] locks[i] == auxiliary[i].1,
        table.schema == schema,
        table.state.primary == trees[0],
        forall|i: int|
            0 <= i < auxiliary.len() ==> {
                &&& table.state.auxiliary@.contains_key(#[trigger] auxiliary[i].0@)
                &&& table.state.auxiliary@[auxiliary[i].0@] == trees[i + 1]
            },
        forall|name: Seq<char>| #[trigger]
            table.state.auxiliary@.contains_key(name) ==> exists|i: int|
                is_entry(auxiliary, name, i),
{
    let n = locks.len() as int;
    lemma_run(schema, auxiliary, states, trees, locks, table, n);
    lemma_held(schema, auxiliary, trees, states[n], n);
    assert(states[n].is_progress(trees[n], Progress::Done(table)));
    assert(auxiliary.skip(n).len() == 0);
    assert forall|name: Seq<char>| #[trigger] table.state.auxiliary@.contains_key(name) implies exists|
        i: int,
    | is_entry(auxiliary, name, i) by {
        let i = choose|i: int| i < n && is_entry(auxiliary, name, i);
        assert(is_entry(auxiliary, name, i));
    }
}

/// A table that is locked for reading lock by lock takes the lock of the primary index first,
/// then those of the auxiliary indices in order of their names. It has the tree that the first lock
/// gave as its primary index, and the tree that the lock of each name gave under that name.
pub proof fn law_read_run<'a, S, IS, C, FE>(
    lock: &'a TableLock<S, IS, C, FE>,
    first: &'a BTreeLock<IS, C, FE>,
    states: Seq<Acquisition<S, &'a BTreeLock<IS, C, FE>, IS, C, ReadGuard<FE>>>,
    trees: Seq<BTree<IS, C, ReadGuard<FE>>>,
    locks: Seq<&'a BTreeLock<IS, C, FE>>,
    table: Table<S, IS, C, ReadGuard<FE>>,
    name: Seq<char>,
)
    requires
        call_ensures(TableLock::<S, IS, C, FE>::read, (lock,), (first, states[0])),
        is_locking_run(states, trees, locks, table),
    ensures
        first == &lock.primary,
        locks.len() == lock.auxiliary.spec_entries().len(),
        forall|i: int|
            0 <= i < locks.len() ==> #[trigger] locks[i]
                == &lock.auxiliary.spec_entries()[i].1,
        forall|i: int, j: int|
            0 <= i < j < locks.len() ==> name_before(
                #[trigger] lock.auxiliary.spec_entries()[i].0@,
                #[trigger] lock.auxiliary.spec_entries()[j].0@,
            ),
        table.schema == lock.schema,
        table.state.primary == trees[0],
        forall|i: int|
            0 <= i < locks.len() ==> table.state.auxiliary@.contains_key(
                #[trigger] lock.auxiliary.spec_entries()[i].0@,
            ),
        forall|i: int|
            0 <= i < locks.len() ==> table.state.auxiliary@[
                #[trigger] lock.auxiliary.spec_entries()[i].0@
            ] == trees[i + 1],
        table.state.auxiliary@.contains_key(name) <==> lock.auxiliary@.contains_key(name),
{
    let entries = lock.auxiliary.spec_entries();
    let auxiliary = entry_refs(lock.auxiliary.spec_entries());
    assert(is_sorted(auxiliary)) by {
        assert forall|i: int, j: int| 0 <= i < j < auxiliary.len() implies name_before(
            #[trigger] auxiliary[i].0@,
            #[trigger] auxiliary[j].0@,
        ) by {
            assert(name_before(entries[i].0@, entries[j].0@));
        }
    }
    lemma_whole_run(lock.schema, auxiliary, states, trees, locks, table);
    assert forall|i: int| 0 <= i < entries.len() implies {
        &&& table.state.auxiliary@.contains_key(#[trigger] entries[i].0@)
        &&& table.state.auxiliary@[entries[i].0@] == trees[i + 1]
    } by {
        assert(auxiliary[i].0@ == entries[i].0@);
    }
    if table.state.auxiliary@.contains_key(name) {
        let i = choose|i: int| is_entry(auxiliary, name, i);
        assert(is_entry(entries, name, i));
    }
    if lock.auxiliary@.contains_key(name) {
        let i = choose|i: int| is_entry(entries, name, i);
        assert(table.state.auxiliary@.contains_key(entries[i].0@));
    }
}

/// A table that is locked for reading, without borrowing, lock by lock
/// takes the lock of the primary index first,
/// then those of the auxiliary indices in order of their names. It has the tree that the first lock
/// gave as its primary index, and the tree that the lock of each name gave under that name.
pub proof fn law_into_read_run<S, IS, C, FE>(
    lock: TableLock<S, IS, C, FE>,
    first: BTreeLock<IS, C, FE>,
    states: Seq<Acquisition<S, BTreeLock<IS, C, FE>, IS, C, ReadGuard<FE>>>,
    trees: Seq<BTree<IS, C, ReadGuard<FE>>>,
    locks: Seq<BTreeLock<IS, C, FE>>,
    table: Table<S, IS, C, ReadGuard<FE>>,
    name: Seq<char>,
)
    requires
        call_ensures(TableLock::<S, IS, C, FE>::into_read, (lock,), (first, states[0])),
        is_locking_run(states, trees, locks, table),
    ensures
        first == lock.primary,
        locks.len() == lock.auxiliary.spec_entries().len(),
        forall|i: int|
            0 <= i < locks.len() ==> #[trigger] locks[i]
                == lock.auxiliary.spec_entries()[i].1,
        forall|i: int, j: int|
            0 <= i < j < locks.len() ==> name_before(
                #[trigger] lock.auxiliary.spec_entries()[i].0@,
                #[trigger] lock.auxiliary.spec_entries()[j].0@,
            ),
        table.schema == lock.schema,
        table.state.primary == trees[0],
        forall|i: int|
            0 <= i < locks.len() ==> table.state.auxiliary@.contains_key(
                #[trigger] lock.auxiliary.spec_entries()[i].0@,
            ),
        forall|i: int|
            0 <= i < locks.len() ==> table.state.auxiliary@[
                #[trigger] lock.auxiliary.spec_entries()[i].0@
            ] == trees[i + 1],
        table.state.auxiliary@.contains_key(name) <==> lock.auxiliary@.contains_key(name),
{
    let entries = lock.auxiliary.spec_entries();
    let auxiliary = lock.auxiliary.spec_entries();
    assert(is_sorted(auxiliary)) by {
        assert forall|i: int, j: int| 0 <= i < j < auxiliary.len() implies name_before(
            #[trigger] auxiliary[i].0@,
            #[trigger] auxiliary[j].0@,
        ) by {
            assert(name_before(entries[i].0@, entries[j].0@));
        }
    }
    lemma_whole_run(lock.schema, auxiliary, states, trees, locks, table);
    assert forall|i: int| 0 <= i < entries.len() implies {
        &&& table.state.auxiliary@.contains_key(#[trigger] entries[i].0@)
        &&& table.state.auxiliary@[entries[i].0@] == trees[i + 1]
    } by {
        assert(auxiliary[i].0@ == entries[i].0@);
    }
    if table.state.auxiliary@.contains_key(name) {
        let i = choose|i: int| is_entry(auxiliary, name, i);
        assert(is_entry(entries, name, i));
    }
    if lock.auxiliary@.contains_key(name) {
        let i = choose|i: int| is_entry(entries, name, i);
        assert(table.state.auxiliary@.contains_key(entries[i].0@));
    }
}

/// A table that is locked for writing lock by lock takes the lock of the primary index first,
/// then those of the auxiliary indices in order of their names. It has the tree that the first lock
/// gave as its primary index, and the tree that the lock of each name gave under that name.
pub proof fn law_write_run<'a, S, IS, C, FE>(
    lock: &'a TableLock<S, IS, C, FE>,
    first: &'a BTreeLock<IS, C, FE>,
    states: Seq<Acquisition<S, &'a BTreeLock<IS, C, FE>, IS, C, WriteGuard<FE>>>,
    trees: Seq<BTree<IS, C, WriteGuard<FE>>>,
    locks: Seq<&'a BTreeLock<IS, C, FE>>,
    table: Table<S, IS, C, WriteGuard<FE>>,
    name: Seq<char>,
)
    requires
        call_ensures(TableLock::<S, IS, C, FE>::write, (lock,), (first, states[0])),
        is_locking_run(states, trees, locks, table),
    ensures
        first == &lock.primary,
        locks.len() == lock.auxiliary.spec_entries().len(),
        forall|i: int|
            0 <= i < locks.len() ==> #[trigger] locks[i]
                == &lock.auxiliary.spec_entries()[i].1,
        forall|i: int, j: int|
            0 <= i < j < locks.len() ==> name_before(
                #[trigger] lock.auxiliary.spec_entries()[i].0@,
                #[trigger] lock.auxiliary.spec_entries()[j].0@,
            ),
        table.schema == lock.schema,
        table.state.primary == trees[0],
        forall|i: int|
            0 <= i < locks.len() ==> table.state.auxiliary@.contains_key(
                #[trigger] lock.auxiliary.spec_entries()[i].0@,
            ),
        forall|i: int|
            0 <= i < locks.len() ==> table.state.auxiliary@[
                #[trigger] lock.auxiliary.spec_entries()[i].0@
            ] == trees[i + 1],
        table.state.auxiliary@.contains_key(name) <==> lock.auxiliary@.contains_key(name),
{
    let entries = lock.auxiliary.spec_entries();
    let auxiliary = entry_refs(lock.auxiliary.spec_entries());
    assert(is_sorted(auxiliary)) by {
        assert forall|i: int, j: int| 0 <= i < j < auxiliary.len() implies name_before(
            #[trigger] auxiliary[i].0@,
            #[trigger] auxiliary[j].0@,
        ) by {
            assert(name_before(entries[i].0@, entries[j].0@));
        }
    }
    lemma_whole_run(lock.schema, auxiliary, states, trees, locks, table);
    assert forall|i: int| 0 <= i < entries.len() implies {
        &&& table.state.auxiliary@.contains_key(#[trigger] entries[i].0@)
        &&& table.state.auxiliary@[entries[i].0@] == trees[i + 1]
    } by {
        assert(auxiliary[i].0@ == entries[i].0@);
    }
    if table.state.auxiliary@.contains_key(name) {
        let i = choose|i: int| is_entry(auxiliary, name, i);
        assert(is_entry(entries, name, i));
    }
    if lock.auxiliary@.contains_key(name) {
        let i = choose|i: int| is_entry(entries, name, i);
        assert(table.state.auxiliary@.contains_key(entries[i].0@));
    }
}

/// A table that is locked for writing, without borrowing, lock by lock
/// takes the lock of the primary index first,
/// then those of the auxiliary indices in order of their names. It has the tree that the first lock
/// gave as its primary index, and the tree that the lock of each name gave under that name.
pub proof fn law_into_write_run<S, IS, C, FE>(
    lock: TableLock<S, IS, C, FE>,
    first: BTreeLock<IS, C, FE>,
    states: Seq<Acquisition<S, BTreeLock<IS, C, FE>, IS, C, WriteGuard<FE>>>,
    trees: Seq<BTree<IS, C, WriteGuard<FE>>>,
    locks: Seq<BTreeLock<IS, C, FE>>,
    table: Table<S, IS, C, WriteGuard<FE>>,
    name: Seq<char>,
)
    requires
        call_ensures(TableLock::<S, IS, C, FE>::into_write, (lock,), (first, states[0])),
        is_locking_run(states, trees, locks, table),
    ensures
        first == lock.primary,
        locks.len() == lock.auxiliary.spec_entries().len(),
        forall|i: int|
            0 <= i < locks.len() ==> #[trigger] locks[i]
                == lock.auxiliary.spec_entries()[i].1,
        forall|i: int, j: int|
            0 <= i < j < locks.len() ==> name_before(
                #[trigger] lock.auxiliary.spec_entries()[i].0@,
                #[trigger] lock.auxiliary.spec_entries()[j].0@,
            ),
        table.schema == lock.schema,
        table.state.primary == trees[0],
        forall|i: int|
            0 <= i < locks.len() ==> table.state.auxiliary@.contains_key(
                #[trigger] lock.auxiliary.spec_entries()[i].0@,
            ),
        forall|i: int|
            0 <= i < locks.len() ==> table.state.auxiliary@[
                #[trigger] lock.auxiliary.spec_entries()[i].0@
            ] == trees[i + 1],
        table.state.auxiliary@.contains_key(name) <==> lock.auxiliary@.contains_key(name),
{
    let entries = lock.auxiliary.spec_entries();
    let auxiliary = lock.auxiliary.spec_entries();
    assert(is_sorted(auxiliary)) by {
        assert forall|i: int, j: int| 0 <= i < j < auxiliary.len() implies name_before(
            #[trigger] auxiliary[i].0@,
            #[trigger] auxiliary[j].0@,
        ) by {
            assert(name_before(entries[i].0@, entries[j].0@));
        }
    }
    lemma_whole_run(lock.schema, auxiliary, states, trees, locks, table);
    assert forall|i: int| 0 <= i < entries.len() implies {
        &&& table.state.auxiliary@.contains_key(#[trigger] entries[i].0@)
        &&& table.state.auxiliary@[entries[i].0@] == trees[i + 1]
    } by {
        assert(auxiliary[i].0@ == entries[i].0@);
    }
    if table.state.auxiliary@.contains_key(name) {
        let i = choose|i: int| is_entry(auxiliary, name, i);
        assert(is_entry(entries, name, i));
    }
    if lock.auxiliary@.contains_key(name) {
        let i = choose|i: int| is_entry(entries, name, i);
        assert(table.state.auxiliary@.contains_key(entries[i].0@));
    }
}

/// The lock can give a tree for reading.
pub open spec fn can_read<IS, C: Clone, FE: Send + Sync>(lock: BTreeLock<IS, C, FE>) -> bool {
    exists|tree: BTree<IS, C, ReadGuard<FE>>| #[trigger]
        call_ensures(BTreeLock::<IS, C, FE>::try_read, (&lock,), Ok(tree))
}

/// The lock can be refused for reading because of `cause`.
pub open spec fn can_refuse_to_read<IS, C: Clone, FE: Send + Sync>(
    lock: BTreeLock<IS, C, FE>,
    cause: Error,
) -> bool {
    call_ensures(BTreeLock::<IS, C, FE>::try_read, (&lock,), Err(cause))
}

/// The table that is locked for reading without waiting has, as its primary index,
/// a tree that the lock of the primary index gave, and for each name a tree that the lock
/// of that very name gave.
pub proof fn law_tried_to_read<S, IS, C: Clone, FE: Send + Sync>(
    lock: &TableLock<S, IS, C, FE>,
    table: Table<S, IS, C, ReadGuard<FE>>,
    name: Seq<char>,
)
    requires
        call_ensures(TableLock::<S, IS, C, FE>::try_read, (lock,), Ok(table)),
    ensures
        table.schema == lock.schema,
        call_ensures(
            BTreeLock::<IS, C, FE>::try_read,
            (&lock.primary,),
            Ok(table.state.primary),
        ),
        table.state.auxiliary@.contains_key(name) <==> lock.auxiliary@.contains_key(name),
        lock.auxiliary@.contains_key(name) ==> call_ensures(
            BTreeLock::<IS, C, FE>::try_read,
            (&lock.auxiliary@[name],),
            Ok(table.state.auxiliary@[name]),
        ),
{
    assert(table.state.auxiliary@.dom().contains(name) == lock.auxiliary@.dom().contains(name));
}

/// Locking a table for reading without waiting fails because of its first lock in order that is refused:
/// that of the primary index, or else that of an auxiliary index after those before it by name.
pub proof fn law_refused_to_read<S, IS, C: Clone, FE: Send + Sync>(
    lock: &TableLock<S, IS, C, FE>,
    error: TableError,
)
    requires
        call_ensures(TableLock::<S, IS, C, FE>::try_read, (lock,), Err(error)),
    ensures
        error matches TableError::Io(cause) && {
            ||| can_refuse_to_read(lock.primary, cause)
            ||| {
                &&& can_read(lock.primary)
                &&& exists|k: int|
                    {
                        &&& 0 <= k < lock.auxiliary.spec_entries().len()
                        &&& #[trigger] can_refuse_to_read(
                            lock.auxiliary.spec_entries()[k].1,
                            cause,
                        )
                        &&& forall|j: int|
                            0 <= j < k ==> #[trigger] can_read(
                                lock.auxiliary.spec_entries()[j].1,
                            )
                    }
            }
        },
{
    let cause = error->Io_0;
    let order = lock.lock_order();
    let entries = lock.auxiliary.spec_entries();
    let outcome = read_outcome::<IS, C, FE>();
    let k = choose|k: int|
        {
            &&& 0 <= k < order.len()
            &&& #[trigger] gave_error(outcome, order[k], cause)
            &&& forall|j: int| 0 <= j < k ==> gave_some_tree(outcome, #[trigger] order[j])
        };
    assert(gave_error(outcome, order[k], cause));
    if k > 0 {
        assert(gave_some_tree(outcome, order[0]));
        let tree = choose|tree: BTree<IS, C, ReadGuard<FE>>| #[trigger] outcome(order[0], Ok(tree));
        assert(call_ensures(BTreeLock::<IS, C, FE>::try_read, (&lock.primary,), Ok(tree)));
        assert(can_refuse_to_read(entries[k - 1].1, cause));
        assert forall|j: int| 0 <= j < k - 1 implies #[trigger] can_read(entries[j].1) by {
            assert(gave_some_tree(outcome, order[j + 1]));
            let tree = choose|tree: BTree<IS, C, ReadGuard<FE>>| #[trigger]
                outcome(order[j + 1], Ok(tree));
            assert(call_ensures(BTreeLock::<IS, C, FE>::try_read, (&entries[j].1,), Ok(tree)));
        }
    }
}

/// The lock can give a tree for writing.
pub open spec fn can_write<IS, C: Clone, FE: Send + Sync>(lock: BTreeLock<IS, C, FE>) -> bool {
    exists|tree: BTree<IS, C, WriteGuard<FE>>| #[trigger]
        call_ensures(BTreeLock::<IS, C, FE>::try_write, (&lock,), Ok(tree))
}

/// The lock can be refused for writing because of `cause`.
pub open spec fn can_refuse_to_write<IS, C: Clone, FE: Send + Sync>(
    lock: BTreeLock<IS, C, FE>,
    cause: Error,
) -> bool {
    call_ensures(BTreeLock::<IS, C, FE>::try_write, (&lock,), Err(cause))
}

/// The table that is locked for writing without waiting has, as its primary index,
/// a tree that the lock of the primary index gave, and for each name a tree that the lock
/// of that very name gave.
pub proof fn law_tried_to_write<S, IS, C: Clone, FE: Send + Sync>(
    lock: &TableLock<S, IS, C, FE>,
    table: Table<S, IS, C, WriteGuard<FE>>,
    name: Seq<char>,
)
    requires
        call_ensures(TableLock::<S, IS, C, FE>::try_write, (lock,), Ok(table)),
    ensures
        table.schema == lock.schema,
        call_ensures(
            BTreeLock::<IS, C, FE>::try_write,
            (&lock.primary,),
            Ok(table.state.primary),
        ),
        table.state.auxiliary@.contains_key(name) <==> lock.auxiliary@.contains_key(name),
        lock.auxiliary@.contains_key(name) ==> call_ensures(
            BTreeLock::<IS, C, FE>::try_write,
            (&lock.auxiliary@[name],),
            Ok(table.state.auxiliary@[name]),
        ),
{
    assert(table.state.auxiliary@.dom().contains(name) == lock.auxiliary@.dom().contains(name));
}

/// Locking a table for writing without waiting fails because of its first lock in order that is refused:
/// that of the primary index, or else that of an auxiliary index after those before it by name.
pub proof fn law_refused_to_write<S, IS, C: Clone, FE: Send + Sync>(
    lock: &TableLock<S, IS, C, FE>,
    error: TableError,
)
    requires
        call_ensures(TableLock::<S, IS, C, FE>::try_write, (lock,), Err(error)),
    ensures
        error matches TableError::Io(cause) && {
            ||| can_refuse_to_write(lock.primary, cause)
            ||| {
                &&& can_write(lock.primary)
                &&& exists|k: int|
                    {
                        &&& 0 <= k < lock.auxiliary.spec_entries().len()
                        &&& #[trigger] can_refuse_to_write(
                            lock.auxiliary.spec_entries()[k].1,
                            cause,
                        )
                        &&& forall|j: int|
                            0 <= j < k ==> #[trigger] can_write(
                                lock.auxiliary.spec_entries()[j].1,
                            )
                    }
            }
        },
{
    let cause = error->Io_0;
    let order = lock.lock_order();
    let entries = lock.auxiliary.spec_entries();
    let outcome = write_outcome::<IS, C, FE>();
    let k = choose|k: int|
        {
            &&& 0 <= k < order.len()
            &&& #[trigger] gave_error(outcome, order[k], cause)
            &&& forall|j: int| 0 <= j < k ==> gave_some_tree(outcome, #[trigger] order[j])
        };
    assert(gave_error(outcome, order[k], cause));
    if k > 0 {
        assert(gave_some_tree(outcome, order[0]));
        let tree = choose|tree: BTree<IS, C, WriteGuard<FE>>| #[trigger] outcome(order[0], Ok(tree));
        assert(call_ensures(BTreeLock::<IS, C, FE>::try_write, (&lock.primary,), Ok(tree)));
        assert(can_refuse_to_write(entries[k - 1].1, cause));
        assert forall|j: int| 0 <= j < k - 1 implies #[trigger] can_write(entries[j].1) by {
            assert(gave_some_tree(outcome, order[j + 1]));
            let tree = choose|tree: BTree<IS, C, WriteGuard<FE>>| #[trigger]
                outcome(order[j + 1], Ok(tree));
            assert(call_ensures(BTreeLock::<IS, C, FE>::try_write, (&entries[j].1,), Ok(tree)));
        }
    }
}

/// A table whose lock is downgraded has the same schema and the same names of indices,
/// and each of its indices is the one of that very name, downgraded.
pub proof fn law_downgraded_table<S, IS, C, FE>(
    table: Table<S, IS, C, WriteGuard<FE>>,
    downgraded: Table<S, IS, C, ReadGuard<FE>>,
    name: Seq<char>,
)
    requires
        call_ensures(Table::<S, IS, C, WriteGuard<FE>>::downgrade, (table,), downgraded),
    ensures
        downgraded.schema == table.schema,
        call_ensures(
            BTree::<IS, C, WriteGuard<FE>>::downgrade,
            (table.state.primary,),
            downgraded.state.primary,
        ),
        downgraded.state.auxiliary@.contains_key(name) <==> table.state.auxiliary@.contains_key(
            name,
        ),
        table.state.auxiliary@.contains_key(name) ==> call_ensures(
            BTree::<IS, C, WriteGuard<FE>>::downgrade,
            (table.state.auxiliary@[name],),
            downgraded.state.auxiliary@[name],
        ),
{
    assert(downgraded.state.auxiliary@.dom().contains(name)
        == table.state.auxiliary@.dom().contains(name));
}

/// The lock on a table tells the schema of the table and the collator of its primary index.
pub proof fn law_told_by_lock<S, IS, C, FE>(
    lock: &TableLock<S, IS, C, FE>,
    schema: &S,
    collator: &Collator<C>,
)
    requires
        call_ensures(TableLock::<S, IS, C, FE>::schema, (lock,), schema),
        call_ensures(TableLock::<S, IS, C, FE>::collator, (lock,), collator),
    ensures
        *schema == lock.schema.spec_inner(),
        call_ensures(BTreeLock::<IS, C, FE>::collator, (&lock.primary,), collator),
{
}

} // verus!

//! Which keys of an index a range over the columns of a table selects.

use std::collections::HashMap;
use std::hash::Hash;
use std::ops::Bound;

use b_tree::Range as TreeRange;
use vstd::prelude::*;
use vstd::std_specs::hash::obeys_key_model;

use super::{in_column_range, in_key_range};
use crate::plan::IndexQuery;
use crate::schema::ColumnRange;
use crate::table::ranges::{
    borrow_index_range, clone_index_range, distinct_prefix, index_bounds, index_prefix,
    index_range_borrow, index_range_for, inner_range_for, is_answerable, is_range_clone,
    lemma_fixed_len, lemma_taken, reads_as, take_index_range, used_len, IndexRange,
};

verus! {

/// The bound to whose value a bound refers.
pub open spec fn referred<'a, V>(bound: Bound<&'a V>) -> Bound<V> {
    match bound {
        Bound::Included(value) => Bound::Included(*value),
        Bound::Excluded(value) => Bound::Excluded(*value),
        Bound::Unbounded => Bound::Unbounded,
    }
}

/// The range of keys that is borrowed for an index has the values of the leading columns
/// that are restricted to one value each, and the bounds of the column after them;
/// where that column is free, or where there is none, it has no bounds.
pub proof fn law_borrowed_keys<'a, K: Eq + Hash, V>(
    columns: &[K],
    range: &'a HashMap<K, ColumnRange<V>>,
    n: int,
    keys: IndexRange<&'a V>,
)
    requires
        obeys_key_model::<K>(),
        call_ensures(borrow_index_range::<K, V>, (columns, range), keys),
        0 <= n <= columns@.len(),
        forall|i: int|
            0 <= i < n ==> range@.contains_key(#[trigger] columns@[i]) && range@[columns@[i]] is Eq,
        n < columns@.len() ==> !(range@.contains_key(columns@[n]) && range@[columns@[n]] is Eq),
    ensures
        keys.prefix@.len() == n,
        forall|i: int|
            0 <= i < n ==> range@[columns@[i]] == ColumnRange::Eq(*#[trigger] keys.prefix@[i]),
        n < columns@.len() && range@.contains_key(columns@[n]) ==> range@[columns@[n]]
            == ColumnRange::In((referred(keys.start), referred(keys.end))),
        !(n < columns@.len() && range@.contains_key(columns@[n])) ==> keys.start is Unbounded
            && keys.end is Unbounded,
{
    lemma_fixed_len(columns@, range@, n as nat);
    assert(keys.prefix@.unref().len() == keys.prefix@.len());
    assert forall|i: int| 0 <= i < n implies range@[columns@[i]] == ColumnRange::Eq(
        *#[trigger] keys.prefix@[i],
    ) by {
        assert(range@.contains_key(columns@[i]));
        assert(keys.prefix@.unref()[i] == *keys.prefix@[i]);
    }
}

/// The range of a B+ tree that is borrowed for an index has just those parts.
pub proof fn law_borrowed_tree_range<'a, K: Eq + Hash, V>(
    columns: &[K],
    range: &'a HashMap<K, ColumnRange<V>>,
    keys: IndexRange<&'a V>,
    tree_range: TreeRange<&'a V>,
)
    requires
        obeys_key_model::<K>(),
        call_ensures(borrow_index_range::<K, V>, (columns, range), keys),
        call_ensures(index_range_borrow::<K, V>, (columns, range), tree_range),
    ensures
        reads_as(tree_range, keys.prefix@, keys.start, keys.end),
{
    let prefix = index_prefix(columns@, range@).map_values(|value: V| &value);
    assert(keys.prefix@.unref().len() == keys.prefix@.len());
    assert forall|i: int| 0 <= i < keys.prefix@.len() implies keys.prefix@[i] == prefix[i] by {
        assert(keys.prefix@.unref()[i] == *keys.prefix@[i]);
    }
    assert(keys.prefix@ =~= prefix);
}

/// A range of a B+ tree comes apart into the parts that it was made of.
pub proof fn law_tree_range_parts<V>(made: IndexRange<V>, range: TreeRange<V>, parts: IndexRange<V>)
    requires
        call_ensures(IndexRange::<V>::into_tree_range, (made,), range),
        call_ensures(IndexRange::<V>::from_tree_range, (range,), parts),
    ensures
        parts.prefix@ == made.prefix@,
        parts.start == made.start,
        parts.end == made.end,
{
    assert(parts.are_parts_of(range));
    assert(reads_as(range, made.prefix@, made.start, made.end));
}

/// What taking the range of keys of an index takes and leaves.
proof fn lemma_taken_keys<K, V>(
    columns: Seq<K>,
    range: Map<K, ColumnRange<V>>,
    n: int,
    name: K,
)
    requires
        0 <= n <= columns.len(),
        forall|i: int, j: int|
            0 <= i < j < n ==> #[trigger] columns[i] != #[trigger] columns[j],
        forall|i: int|
            0 <= i < n ==> range.contains_key(#[trigger] columns[i]) && range[columns[i]] is Eq,
        n < columns.len() ==> {
            ||| !range.contains_key(columns[n])
            ||| range[columns[n]] is In
            ||| exists|i: int| 0 <= i < n && #[trigger] columns[i] == columns[n]
        },
    ensures
        ({
            let distinct = distinct_prefix(columns);
            let prefix = index_prefix(distinct, range);
            let left = range.remove_keys(
                distinct.take(used_len(distinct, range) as int).to_set(),
            );
            let bounded = n < columns.len() && range.contains_key(columns[n])
                && range[columns[n]] is In;
            &&& prefix.len() == n
            &&& forall|i: int|
                0 <= i < n ==> range[columns[i]] == ColumnRange::Eq(#[trigger] prefix[i])
            &&& bounded ==> range[columns[n]] == ColumnRange::In(index_bounds(distinct, range))
            &&& !bounded ==> index_bounds(distinct, range) == (
                Bound::<V>::Unbounded,
                Bound::<V>::Unbounded,
            )
            &&& left.contains_key(name) <==> {
                &&& range.contains_key(name)
                &&& forall|i: int| 0 <= i < n ==> #[trigger] columns[i] != name
                &&& bounded ==> columns[n] != name
            }
            &&& left.contains_key(name) ==> left[name] == range[name]
        }),
{
    let bounded = n < columns.len() && range.contains_key(columns[n]) && range[columns[n]] is In;
    let taken = columns.take(n);
    assert(taken.no_duplicates()) by {
        assert forall|i: int, j: int|
            0 <= i < taken.len() && 0 <= j < taken.len() && i != j implies taken[i] != taken[j] by {
            if i < j {
                assert(columns[i] != columns[j]);
            } else {
                assert(columns[j] != columns[i]);
            }
        }
    }
    if bounded && taken.contains(columns[n]) {
        let i = choose|i: int| 0 <= i < n && taken[i] == columns[n];
        assert(range[columns[i]] is Eq);
    }
    if !bounded && n < columns.len() && range.contains_key(columns[n]) {
        let i = choose|i: int| 0 <= i < n && #[trigger] columns[i] == columns[n];
        assert(taken[i] == columns[n]);
    }
    lemma_taken(columns, range, n as nat, bounded);
    let distinct = distinct_prefix(columns);
    let used = distinct.take(used_len(distinct, range) as int);
    if used.contains(name) {
        let i = choose|i: int| 0 <= i < used.len() && used[i] == name;
        assert(columns.take(used.len() as int)[i] == columns[i]);
    }
    if exists|i: int| 0 <= i < n && #[trigger] columns[i] == name {
        let i = choose|i: int| 0 <= i < n && #[trigger] columns[i] == name;
        assert(used[i] == name);
    }
    if bounded && columns[n] == name {
        assert(used[n] == name);
    }
    assert forall|i: int| 0 <= i < n implies range[columns[i]] == ColumnRange::Eq(
        #[trigger] index_prefix(distinct, range)[i],
    ) by {
        assert(range[columns[i]] is Eq);
    }
}

/// Taking the range of keys of an index goes on through distinct leading columns that are
/// restricted to one value each, `n` of them. It takes the bounds of the column after them,
/// if that one has bounds. It leaves the ranges of all other columns as they are.
pub proof fn law_taken_keys<K: Eq + Hash, V>(
    columns: &[K],
    range: &mut HashMap<K, ColumnRange<V>>,
    n: int,
    name: K,
    keys: IndexRange<V>,
)
    requires
        obeys_key_model::<K>(),
        call_ensures(take_index_range::<K, V>, (columns, range), keys),
        0 <= n <= columns@.len(),
        forall|i: int, j: int|
            0 <= i < j < n ==> #[trigger] columns@[i] != #[trigger] columns@[j],
        forall|i: int|
            0 <= i < n ==> old(range)@.contains_key(#[trigger] columns@[i]) && old(
                range,
            )@[columns@[i]] is Eq,
        n < columns@.len() ==> {
            ||| !old(range)@.contains_key(columns@[n])
            ||| old(range)@[columns@[n]] is In
            ||| exists|i: int| 0 <= i < n && #[trigger] columns@[i] == columns@[n]
        },
    ensures
        keys.prefix@.len() == n,
        forall|i: int|
            0 <= i < n ==> old(range)@[columns@[i]] == ColumnRange::Eq(#[trigger] keys.prefix@[i]),
        n < columns@.len() && old(range)@.contains_key(columns@[n]) && old(
            range,
        )@[columns@[n]] is In ==> old(range)@[columns@[n]] == ColumnRange::In(
            (keys.start, keys.end),
        ),
        !(n < columns@.len() && old(range)@.contains_key(columns@[n]) && old(
            range,
        )@[columns@[n]] is In) ==> keys.start is Unbounded && keys.end is Unbounded,
        final(range)@.contains_key(name) <==> {
            &&& old(range)@.contains_key(name)
            &&& forall|i: int| 0 <= i < n ==> #[trigger] columns@[i] != name
            &&& n < columns@.len() && old(range)@.contains_key(columns@[n]) && old(
                range,
            )@[columns@[n]] is In ==> columns@[n] != name
        },
        final(range)@.contains_key(name) ==> final(range)@[name] == old(range)@[name],
{
    lemma_taken_keys(columns@, old(range)@, n, name);
}

/// The range of a B+ tree that is taken for an index has just those parts:
/// the values of `n` distinct leading columns that are restricted to one value each,
/// and the bounds of the column after them, if it has bounds.
/// The ranges of all other columns are left as they are.
pub proof fn law_taken_tree_range<K: Eq + Hash, V>(
    columns: &[K],
    range: &mut HashMap<K, ColumnRange<V>>,
    n: int,
    name: K,
    tree_range: TreeRange<V>,
    parts: IndexRange<V>,
)
    requires
        obeys_key_model::<K>(),
        call_ensures(index_range_for::<K, V>, (columns, range), tree_range),
        call_ensures(IndexRange::<V>::from_tree_range, (tree_range,), parts),
        0 <= n <= columns@.len(),
        forall|i: int, j: int|
            0 <= i < j < n ==> #[trigger] columns@[i] != #[trigger] columns@[j],
        forall|i: int|
            0 <= i < n ==> old(range)@.contains_key(#[trigger] columns@[i]) && old(
                range,
            )@[columns@[i]] is Eq,
        n < columns@.len() ==> {
            ||| !old(range)@.contains_key(columns@[n])
            ||| old(range)@[columns@[n]] is In
            ||| exists|i: int| 0 <= i < n && #[trigger] columns@[i] == columns@[n]
        },
    ensures
        parts.prefix@.len() == n,
        forall|i: int|
            0 <= i < n ==> old(range)@[columns@[i]] == ColumnRange::Eq(#[trigger] parts.prefix@[i]),
        n < columns@.len() && old(range)@.contains_key(columns@[n]) && old(
            range,
        )@[columns@[n]] is In ==> old(range)@[columns@[n]] == ColumnRange::In(
            (parts.start, parts.end),
        ),
        !(n < columns@.len() && old(range)@.contains_key(columns@[n]) && old(
            range,
        )@[columns@[n]] is In) ==> parts.start is Unbounded && parts.end is Unbounded,
        final(range)@.contains_key(name) <==> {
            &&& old(range)@.contains_key(name)
            &&& forall|i: int| 0 <= i < n ==> #[trigger] columns@[i] != name
            &&& n < columns@.len() && old(range)@.contains_key(columns@[n]) && old(
                range,
            )@[columns@[n]] is In ==> columns@[n] != name
        },
        final(range)@.contains_key(name) ==> final(range)@[name] == old(range)@[name],
{
    lemma_taken_keys(columns@, old(range)@, n, name);
    let distinct = distinct_prefix(columns@);
    let prefix = index_prefix(distinct, old(range)@);
    let bounds = index_bounds(distinct, old(range)@);
    assert(parts.are_parts_of(tree_range));
    assert(reads_as(tree_range, prefix, bounds.0, bounds.1));
}

/// `copy` is the same bound, of a clone of the value.
pub open spec fn is_copied<V: Clone>(bound: Bound<V>, copy: Bound<V>) -> bool {
    &&& bound matches Bound::Included(value) ==> copy matches Bound::Included(other) && cloned(
        value,
        other,
    )
    &&& bound matches Bound::Excluded(value) ==> copy matches Bound::Excluded(other) && cloned(
        value,
        other,
    )
    &&& bound is Unbounded ==> copy is Unbounded
}

/// A query on an index has a range of keys just if each of its columns is restricted,
/// and all but the last one to one value.
pub proof fn law_answerable<'a, K: Eq + Hash, V: Clone>(
    query: &IndexQuery<'a, K>,
    range: &HashMap<K, ColumnRange<V>>,
    columns: &'a [K],
    keys: Option<IndexRange<V>>,
)
    requires
        obeys_key_model::<K>(),
        call_ensures(IndexQuery::<'a, K>::range, (query,), columns),
        call_ensures(clone_index_range::<K, V>, (query, range), keys),
    ensures
        keys is Some <==> {
            &&& forall|i: int|
                0 <= i < columns@.len() ==> range@.contains_key(#[trigger] columns@[i])
            &&& forall|i: int|
                0 <= i < columns@.len() - 1 ==> range@[#[trigger] columns@[i]] is Eq
        },
        is_answerable(columns@, range@) <==> {
            &&& forall|i: int|
                0 <= i < columns@.len() ==> range@.contains_key(#[trigger] columns@[i])
            &&& forall|i: int|
                0 <= i < columns@.len() - 1 ==> range@[#[trigger] columns@[i]] is Eq
        },
{
}

/// The range of keys that answers a query has clones of the values of the columns of the query
/// that are restricted to one value, and clones of the bounds of its last column,
/// if that one has bounds.
pub proof fn law_answer<'a, K: Eq + Hash, V: Clone>(
    query: &IndexQuery<'a, K>,
    range: &HashMap<K, ColumnRange<V>>,
    columns: &'a [K],
    keys: IndexRange<V>,
)
    requires
        obeys_key_model::<K>(),
        call_ensures(IndexQuery::<'a, K>::range, (query,), columns),
        call_ensures(clone_index_range::<K, V>, (query, range), Some(keys)),
    ensures
        ({
            let len = columns@.len() as int;
            let bounded = len > 0 && range@[columns@[len - 1]] is In;
            &&& keys.prefix@.len() == if bounded {
                len - 1
            } else {
                len
            }
            &&& forall|i: int|
                0 <= i < keys.prefix@.len() ==> {
                    &&& range@[columns@[i]] is Eq
                    &&& cloned(range@[columns@[i]]->Eq_0, #[trigger] keys.prefix@[i])
                }
            &&& bounded ==> {
                &&& is_copied(range@[columns@[len - 1]]->In_0.0, keys.start)
                &&& is_copied(range@[columns@[len - 1]]->In_0.1, keys.end)
            }
            &&& !bounded ==> keys.start is Unbounded && keys.end is Unbounded
        }),
{
    lemma_answer(columns@, range@, keys.prefix@, keys.start, keys.end);
}

/// What the clone of the range of a query has.
proof fn lemma_answer<K, V: Clone>(
    columns: Seq<K>,
    range: Map<K, ColumnRange<V>>,
    prefix: Seq<V>,
    start: Bound<V>,
    end: Bound<V>,
)
    requires
        is_answerable(columns, range),
        is_range_clone(columns, range, prefix, start, end),
    ensures
        ({
            let len = columns.len() as int;
            let bounded = len > 0 && range[columns[len - 1]] is In;
            &&& prefix.len() == if bounded {
                len - 1
            } else {
                len
            }
            &&& forall|i: int|
                0 <= i < prefix.len() ==> {
                    &&& range[columns[i]] is Eq
                    &&& cloned(range[columns[i]]->Eq_0, #[trigger] prefix[i])
                }
            &&& bounded ==> {
                &&& is_copied(range[columns[len - 1]]->In_0.0, start)
                &&& is_copied(range[columns[len - 1]]->In_0.1, end)
            }
            &&& !bounded ==> start is Unbounded && end is Unbounded
        }),
{
    let len = columns.len() as int;
    let bounded = len > 0 && range[columns[len - 1]] is In;
    let n = if bounded {
        len - 1
    } else {
        len
    };
    assert forall|i: int| 0 <= i < n implies range.contains_key(#[trigger] columns[i])
        && range[columns[i]] is Eq by {
        assert(range.contains_key(columns[i]));
    }
    lemma_fixed_len(columns, range, n as nat);
    if bounded {
        assert(range.contains_key(columns[len - 1]));
    }
    assert forall|i: int| 0 <= i < prefix.len() implies {
        &&& range[columns[i]] is Eq
        &&& cloned(range[columns[i]]->Eq_0, #[trigger] prefix[i])
    } by {
        assert(cloned(index_prefix(columns, range)[i], prefix[i]));
    }
}

/// The range of a B+ tree that answers a query has just those parts.
pub proof fn law_answer_tree_range<'a, K: Eq + Hash, V: Clone>(
    query: &IndexQuery<'a, K>,
    range: &HashMap<K, ColumnRange<V>>,
    columns: &'a [K],
    tree_range: TreeRange<V>,
    parts: IndexRange<V>,
)
    requires
        obeys_key_model::<K>(),
        call_ensures(IndexQuery::<'a, K>::range, (query,), columns),
        is_answerable(columns@, range@),
        call_ensures(inner_range_for::<K, V>, (query, range), tree_range),
        call_ensures(IndexRange::<V>::from_tree_range, (tree_range,), parts),
    ensures
        ({
            let len = columns@.len() as int;
            let bounded = len > 0 && range@[columns@[len - 1]] is In;
            &&& parts.prefix@.len() == if bounded {
                len - 1
            } else {
                len
            }
            &&& forall|i: int|
                0 <= i < parts.prefix@.len() ==> {
                    &&& range@[columns@[i]] is Eq
                    &&& cloned(range@[columns@[i]]->Eq_0, #[trigger] parts.prefix@[i])
                }
            &&& bounded ==> {
                &&& is_copied(range@[columns@[len - 1]]->In_0.0, parts.start)
                &&& is_copied(range@[columns@[len - 1]]->In_0.1, parts.end)
            }
            &&& !bounded ==> parts.start is Unbounded && parts.end is Unbounded
        }),
{
    let (prefix, start, end) = choose|prefix: Seq<V>, start: Bound<V>, end: Bound<V>|
        {
            &&& #[trigger] is_range_clone(query.spec_range(), range@, prefix, start, end)
            &&& reads_as(tree_range, prefix, start, end)
        };
    assert(parts.are_parts_of(tree_range));
    assert(reads_as(tree_range, prefix, start, end));
    lemma_answer(columns@, range@, prefix, start, end);
}

/// The range of keys that answers a query on an index selects just the rows that lie in the range
/// of each column of the query, if values clone to themselves: `row` gives the value of each column,
/// and `same` and `before` say how values compare.
pub proof fn law_answer_selects<'a, K: Eq + Hash, V: Clone>(
    same: spec_fn(V, V) -> bool,
    before: spec_fn(V, V) -> bool,
    row: spec_fn(K) -> V,
    query: &IndexQuery<'a, K>,
    range: &HashMap<K, ColumnRange<V>>,
    columns: &'a [K],
    tree_range: TreeRange<V>,
)
    requires
        obeys_key_model::<K>(),
        forall|value: V, copy: V| #[trigger] cloned(value, copy) ==> copy == value,
        call_ensures(IndexQuery::<'a, K>::range, (query,), columns),
        is_answerable(columns@, range@),
        call_ensures(inner_range_for::<K, V>, (query, range), tree_range),
    ensures
        exists|prefix: Seq<V>, start: Bound<V>, end: Bound<V>|
            {
                &&& #[trigger] reads_as(tree_range, prefix, start, end)
                &&& in_key_range(same, before, prefix, (start, end), columns@.map_values(row)) <==> (
                forall|i: int|
                    0 <= i < columns@.len() ==> in_column_range(
                        same,
                        before,
                        range@[#[trigger] columns@[i]],
                        row(columns@[i]),
                    ))
            },
{
    let (prefix, start, end) = choose|prefix: Seq<V>, start: Bound<V>, end: Bound<V>|
        {
            &&& #[trigger] is_range_clone(query.spec_range(), range@, prefix, start, end)
            &&& reads_as(tree_range, prefix, start, end)
        };
    assert(reads_as(tree_range, prefix, start, end));
    lemma_answer(columns@, range@, prefix, start, end);
    let key = columns@.map_values(row);
    let len = columns@.len() as int;
    let bounded = len > 0 && range@[columns@[len - 1]] is In;
    if bounded {
        assert(start == range@[columns@[len - 1]]->In_0.0);
        assert(end == range@[columns@[len - 1]]->In_0.1);
    }
    assert forall|i: int| 0 <= i < prefix.len() implies range@[columns@[i]] == ColumnRange::Eq(
        #[trigger] prefix[i],
    ) by {
        assert(cloned(range@[columns@[i]]->Eq_0, prefix[i]));
    }
    if in_key_range(same, before, prefix, (start, end), key) {
        assert forall|i: int| 0 <= i < columns@.len() implies in_column_range(
            same,
            before,
            range@[#[trigger] columns@[i]],
            row(columns@[i]),
        ) by {
            if i < prefix.len() {
                assert(same(prefix[i], key[i]));
            } else {
                assert(i == prefix.len());
            }
        }
    }
    if forall|i: int|
        0 <= i < columns@.len() ==> in_column_range(
            same,
            before,
            range@[#[trigger] columns@[i]],
            row(columns@[i]),
        ) {
        assert forall|i: int| 0 <= i < prefix.len() implies same(#[trigger] prefix[i], key[i]) by {
            assert(in_column_range(same, before, range@[columns@[i]], row(columns@[i])));
        }
        if bounded {
            assert(in_column_range(same, before, range@[columns@[len - 1]], row(columns@[len - 1])));
        }
    }
}

} // verus!

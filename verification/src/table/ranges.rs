//! Turning a range over the columns of a table into a range of the keys of one index.

use b_tree::Range as TreeRange;
use std::collections::HashMap;
use std::hash::Hash;
use std::ops::Bound;
use vstd::prelude::*;
use vstd::std_specs::hash::obeys_key_model;

use crate::plan::IndexQuery;
use crate::schema::ColumnRange;

verus! {

broadcast use vstd::std_specs::hash::group_hash_axioms;

/// A range of keys of a B+ tree.
#[verifier::external_type_specification]
#[verifier::external_body]
#[verifier::reject_recursive_types(V)]
pub struct ExTreeRange<V>(TreeRange<V>);

/// A range of keys of one index: the keys that begin with the values `prefix`
/// and whose next value lies between `start` and `end`.
pub struct IndexRange<V> {
    /// The values with which the keys begin.
    pub prefix: Vec<V>,
    /// The least next value.
    pub start: Bound<V>,
    /// The greatest next value.
    pub end: Bound<V>,
}

/// Take apart a range of a B+ tree.
///
/// This calls `b_tree::Range::into_inner`. What it gives for a range that `with_bounds` or
/// `from_prefix` made is claimed where those are called.
#[verifier::external_body]
fn tree_range_parts<V>(range: TreeRange<V>) -> (parts: IndexRange<V>) {
    let (prefix, (start, end)) = range.into_inner();
    IndexRange { prefix: prefix.into_vec(), start, end }
}

/// `range` stands for the keys that begin with `prefix` and go on between `start` and `end`:
/// these are the parts it comes apart into.
pub closed spec fn reads_as<V>(
    range: TreeRange<V>,
    prefix: Seq<V>,
    start: Bound<V>,
    end: Bound<V>,
) -> bool {
    forall|parts: IndexRange<V>| #[trigger]
        call_ensures(tree_range_parts::<V>, (range,), parts) ==> {
            &&& parts.prefix@ == prefix
            &&& parts.start == start
            &&& parts.end == end
        }
}

/// Make a range of a B+ tree out of a prefix and bounds.
///
/// This calls `b_tree::Range::with_bounds`, which keeps the prefix and the bounds as they are:
/// `b_tree::Range::into_inner` gives them back.
#[verifier::external_body]
fn tree_range_with_bounds<V>(prefix: Vec<V>, bounds: (Bound<V>, Bound<V>)) -> (range:
    TreeRange<V>)
    ensures
        reads_as(range, prefix@, bounds.0, bounds.1),
{
    TreeRange::with_bounds(prefix, bounds)
}

/// Make a range of a B+ tree out of a prefix.
///
/// This calls `b_tree::Range::from_prefix`, which keeps the prefix as it is and sets no bounds:
/// `b_tree::Range::into_inner` gives the prefix back, and two free bounds.
#[verifier::external_body]
fn tree_range_from_prefix<V>(prefix: Vec<V>) -> (range: TreeRange<V>)
    ensures
        reads_as(range, prefix@, Bound::Unbounded, Bound::Unbounded),
{
    TreeRange::from_prefix(prefix)
}

impl<V> IndexRange<V> {
    /// These are the parts of `range`: whatever it reads as, they are that.
    pub open spec fn are_parts_of(self, range: TreeRange<V>) -> bool {
        forall|prefix: Seq<V>, start: Bound<V>, end: Bound<V>| #[trigger]
            reads_as(range, prefix, start, end) ==> {
                &&& self.prefix@ == prefix
                &&& self.start == start
                &&& self.end == end
            }
    }

    /// The range of a B+ tree that has these parts.
    pub fn into_tree_range(self) -> (range: TreeRange<V>)
        ensures
            reads_as(range, self.prefix@, self.start, self.end),
    {
        match (self.start, self.end) {
            (Bound::Unbounded, Bound::Unbounded) => tree_range_from_prefix(self.prefix),
            bounds => tree_range_with_bounds(self.prefix, bounds),
        }
    }

    /// The parts of a range of a B+ tree.
    pub fn from_tree_range(range: TreeRange<V>) -> (parts: Self)
        ensures
            parts.are_parts_of(range),
    {
        tree_range_parts(range)
    }
}

/// The number of leading `columns` that `range` restricts to one value each.
pub open spec fn fixed_len<K, V>(columns: Seq<K>, range: Map<K, ColumnRange<V>>) -> nat
    decreases columns.len(),
{
    if columns.len() > 0 && range.contains_key(columns[0]) && range[columns[0]] is Eq {
        1 + fixed_len(columns.drop_first(), range)
    } else {
        0
    }
}

/// The one value to which `range` restricts the column `name`.
pub open spec fn fixed_value<K, V>(range: Map<K, ColumnRange<V>>, name: K) -> V {
    range[name]->Eq_0
}

/// The prefix of the keys of an index with the given `columns` that lie in `range`:
/// the values of its leading columns, as far as they are restricted to one value each.
pub open spec fn index_prefix<K, V>(columns: Seq<K>, range: Map<K, ColumnRange<V>>) -> Seq<V> {
    Seq::new(fixed_len(columns, range), |i: int| fixed_value(range, columns[i]))
}

/// The bounds of the value that follows the prefix.
pub open spec fn index_bounds<K, V>(columns: Seq<K>, range: Map<K, ColumnRange<V>>) -> (
    Bound<V>,
    Bound<V>,
) {
    let n = fixed_len(columns, range);
    if n < columns.len() && range.contains_key(columns[n as int]) {
        range[columns[n as int]]->In_0
    } else {
        (Bound::Unbounded, Bound::Unbounded)
    }
}

/// The number of leading `columns` that are used up by the prefix and the bounds.
pub open spec fn used_len<K, V>(columns: Seq<K>, range: Map<K, ColumnRange<V>>) -> nat {
    let n = fixed_len(columns, range);
    if n < columns.len() && range.contains_key(columns[n as int]) {
        n + 1
    } else {
        n
    }
}

/// Borrow the value inside a bound.
fn borrow_bound<'a, V>(bound: &'a Bound<V>) -> (borrowed: Bound<&'a V>)
    ensures
        borrowed == bound_ref(bound),
{
    match bound {
        Bound::Included(value) => Bound::Included(value),
        Bound::Excluded(value) => Bound::Excluded(value),
        Bound::Unbounded => Bound::Unbounded,
    }
}

/// The same bound, of a reference to the value.
pub open spec fn bound_ref<'a, V>(bound: &'a Bound<V>) -> Bound<&'a V> {
    match bound {
        Bound::Included(value) => Bound::Included(value),
        Bound::Excluded(value) => Bound::Excluded(value),
        Bound::Unbounded => Bound::Unbounded,
    }
}

/// `copy` is a clone of `bound`.
pub open spec fn is_bound_clone<V: Clone>(bound: Bound<V>, copy: Bound<V>) -> bool {
    match (bound, copy) {
        (Bound::Included(value), Bound::Included(other)) => cloned(value, other),
        (Bound::Excluded(value), Bound::Excluded(other)) => cloned(value, other),
        (Bound::Unbounded, Bound::Unbounded) => true,
        _ => false,
    }
}

/// Clone a bound.
fn clone_bound<V: Clone>(bound: &Bound<V>) -> (copy: Bound<V>)
    ensures
        is_bound_clone(*bound, copy),
{
    match bound {
        Bound::Included(value) => Bound::Included(value.clone()),
        Bound::Excluded(value) => Bound::Excluded(value.clone()),
        Bound::Unbounded => Bound::Unbounded,
    }
}

/// The longest prefix of `columns` in which no column comes twice.
pub open spec fn distinct_prefix<K>(columns: Seq<K>) -> Seq<K>
    decreases columns.len(),
{
    if columns.len() == 0 {
        columns
    } else {
        let before = distinct_prefix(columns.drop_last());
        if before.len() == columns.len() - 1 && !before.contains(columns.last()) {
            columns
        } else {
            before
        }
    }
}

/// Leading columns that are fixed, up to one that is not, are all that are counted.
pub proof fn lemma_fixed_len<K, V>(columns: Seq<K>, range: Map<K, ColumnRange<V>>, n: nat)
    requires
        n <= columns.len(),
        forall|i: int|
            0 <= i < n ==> range.contains_key(#[trigger] columns[i]) && range[columns[i]] is Eq,
        n < columns.len() ==> !(range.contains_key(columns[n as int])
            && range[columns[n as int]] is Eq),
    ensures
        fixed_len(columns, range) == n,
    decreases n,
{
    if n > 0 {
        assert(range.contains_key(columns[0]));
        let rest = columns.drop_first();
        assert forall|i: int| 0 <= i < n - 1 implies range.contains_key(#[trigger] rest[i])
            && range[rest[i]] is Eq by {
            assert(rest[i] == columns[i + 1]);
        }
        lemma_fixed_len(rest, range, (n - 1) as nat);
    }
}

/// The columns that are counted are fixed, and the next one is not.
pub proof fn lemma_fixed_columns<K, V>(columns: Seq<K>, range: Map<K, ColumnRange<V>>)
    ensures
        fixed_len(columns, range) <= columns.len(),
        forall|i: int|
            0 <= i < fixed_len(columns, range) ==> range.contains_key(#[trigger] columns[i])
                && range[columns[i]] is Eq,
        fixed_len(columns, range) < columns.len() ==> !(range.contains_key(
            columns[fixed_len(columns, range) as int],
        ) && range[columns[fixed_len(columns, range) as int]] is Eq),
    decreases columns.len(),
{
    if columns.len() > 0 && range.contains_key(columns[0]) && range[columns[0]] is Eq {
        let rest = columns.drop_first();
        lemma_fixed_columns(rest, range);
        let n = fixed_len(columns, range);
        assert(n == 1 + fixed_len(rest, range));
        assert forall|i: int| 0 <= i < n implies range.contains_key(#[trigger] columns[i])
            && range[columns[i]] is Eq by {
            if i > 0 {
                assert(columns[i] == rest[i - 1]);
            }
        }
        if n < columns.len() {
            assert(columns[n as int] == rest[n - 1]);
        }
    }
}

/// The longest prefix without a column that comes twice is a prefix, no column comes twice in it,
/// and the next column came before.
pub proof fn lemma_distinct_prefix<K>(columns: Seq<K>)
    ensures
        distinct_prefix(columns).len() <= columns.len(),
        distinct_prefix(columns) == columns.take(distinct_prefix(columns).len() as int),
        distinct_prefix(columns).no_duplicates(),
        distinct_prefix(columns).len() < columns.len() ==> distinct_prefix(columns).contains(
            columns[distinct_prefix(columns).len() as int],
        ),
    decreases columns.len(),
{
    let n = distinct_prefix(columns).len();
    if columns.len() == 0 {
        assert(columns.take(0) == columns);
    } else {
        let rest = columns.drop_last();
        lemma_distinct_prefix(rest);
        let before = distinct_prefix(rest);
        if before.len() == rest.len() && !before.contains(columns.last()) {
            assert(columns.take(columns.len() as int) == columns);
            assert(before == rest);
            assert forall|i: int, j: int|
                0 <= i < columns.len() && 0 <= j < columns.len() && i != j implies columns[i]
                != columns[j] by {
                if i < rest.len() && j < rest.len() {
                    assert(rest[i] == columns[i] && rest[j] == columns[j]);
                } else if i < rest.len() {
                    assert(rest[i] == columns[i]);
                } else {
                    assert(rest[j] == columns[j]);
                }
            }
        } else {
            assert(before == columns.take(n as int));
            if before.len() < rest.len() {
                assert(rest[n as int] == columns[n as int]);
            } else {
                assert(columns[n as int] == columns.last());
            }
        }
    }
}

/// Where taking a range stops: after `n` distinct columns that are fixed, at one that has
/// bounds if `bounded`, else at one that is free or was taken before, or at the end.
pub proof fn lemma_taken<K, V>(
    columns: Seq<K>,
    range: Map<K, ColumnRange<V>>,
    n: nat,
    bounded: bool,
)
    requires
        n <= columns.len(),
        columns.take(n as int).no_duplicates(),
        forall|i: int|
            0 <= i < n ==> range.contains_key(#[trigger] columns[i]) && range[columns[i]] is Eq,
        bounded ==> {
            &&& n < columns.len()
            &&& range.contains_key(columns[n as int])
            &&& range[columns[n as int]] is In
            &&& !columns.take(n as int).contains(columns[n as int])
        },
        !bounded && n < columns.len() ==> {
            ||| !range.contains_key(columns[n as int])
            ||| columns.take(n as int).contains(columns[n as int])
        },
    ensures
        ({
            let distinct = distinct_prefix(columns);
            let used = used_len(distinct, range) as int;
            &&& used == (if bounded { n + 1 } else { n })
            &&& distinct.take(used) == columns.take(used)
            &&& index_prefix(distinct, range) == Seq::new(
                n,
                |i: int| fixed_value(range, columns[i]),
            )
            &&& index_bounds(distinct, range) == if bounded {
                range[columns[n as int]]->In_0
            } else {
                (Bound::Unbounded, Bound::Unbounded)
            }
        }),
{
    lemma_distinct_prefix(columns);
    let distinct = distinct_prefix(columns);
    let d = distinct.len();
    if d < n {
        let j = choose|j: int| 0 <= j < d && distinct[j] == columns[d as int];
        assert(columns.take(n as int)[j] == columns.take(n as int)[d as int]);
        assert(false);
    }
    assert forall|i: int| 0 <= i < n implies range.contains_key(#[trigger] distinct[i])
        && range[distinct[i]] is Eq by {
        assert(distinct[i] == columns[i]);
    }
    assert(distinct.take(n as int) == columns.take(n as int));
    if bounded {
        if d == n {
            assert(distinct == columns.take(n as int));
        }
        assert(distinct[n as int] == columns[n as int]);
        assert(distinct.take((n + 1) as int) == columns.take((n + 1) as int));
    } else if n < d && columns.take(n as int).contains(columns[n as int]) {
        let j = choose|j: int|
            0 <= j < n && columns.take(n as int)[j] == columns[n as int];
        assert(distinct[j] == distinct[n as int]);
        assert(false);
    } else if n < d {
        assert(distinct[n as int] == columns[n as int]);
    }
    lemma_fixed_len(distinct, range, n);
}

/// The range of the keys of an index with the given `columns`, borrowed from a `range`
/// over the columns of the table.
pub fn borrow_index_range<'a, K: Eq + Hash, V>(
    columns: &[K],
    range: &'a HashMap<K, ColumnRange<V>>,
) -> (keys: IndexRange<&'a V>)
    ensures
        obeys_key_model::<K>() ==> {
            &&& keys.prefix@.unref() == index_prefix(columns@, range@)
            &&& keys.start == bound_ref(&index_bounds(columns@, range@).0)
            &&& keys.end == bound_ref(&index_bounds(columns@, range@).1)
        },
{
    let mut prefix: Vec<&'a V> = Vec::new();
    let mut i: usize = 0;
    while i < columns.len()
        invariant
            i <= columns@.len(),
            obeys_key_model::<K>() ==> {
                &&& prefix@.len() == i
                &&& forall|j: int|
                    0 <= j < i ==> {
                        &&& range@.contains_key(#[trigger] columns@[j])
                        &&& range@[columns@[j]] is Eq
                        &&& *prefix@[j] == fixed_value(range@, columns@[j])
                    }
            },
        decreases columns@.len() - i,
    {
        match range.get(&columns[i]) {
            Some(ColumnRange::Eq(value)) => {
                prefix.push(value);
            },
            Some(ColumnRange::In(bounds)) => {
                proof {
                    if obeys_key_model::<K>() {
                        lemma_fixed_len(columns@, range@, i as nat);
                        assert(prefix@.unref() == index_prefix(columns@, range@));
                    }
                }
                return IndexRange {
                    prefix,
                    start: borrow_bound(&bounds.0),
                    end: borrow_bound(&bounds.1),
                };
            },
            None => {
                proof {
                    if obeys_key_model::<K>() {
                        lemma_fixed_len(columns@, range@, i as nat);
                        assert(prefix@.unref() == index_prefix(columns@, range@));
                    }
                }
                return IndexRange { prefix, start: Bound::Unbounded, end: Bound::Unbounded };
            },
        }
        i += 1;
    }
    proof {
        if obeys_key_model::<K>() {
            lemma_fixed_len(columns@, range@, i as nat);
            assert(prefix@.unref() == index_prefix(columns@, range@));
        }
    }
    IndexRange { prefix, start: Bound::Unbounded, end: Bound::Unbounded }
}

/// Construct the range of the keys of an index with the given `columns`
/// by borrowing from a `range` over the columns of the table.
pub fn index_range_borrow<'a, K: Eq + Hash, V>(
    columns: &[K],
    range: &'a HashMap<K, ColumnRange<V>>,
) -> (keys: TreeRange<&'a V>)
    ensures
        obeys_key_model::<K>() ==> reads_as(
            keys,
            index_prefix(columns@, range@).map_values(|value: V| &value),
            bound_ref(&index_bounds(columns@, range@).0),
            bound_ref(&index_bounds(columns@, range@).1),
        ),
{
    let keys = borrow_index_range(columns, range);
    proof {
        if obeys_key_model::<K>() {
            assert(keys.prefix@ == index_prefix(columns@, range@).map_values(|value: V| &value)) by {
                assert forall|i: int| 0 <= i < keys.prefix@.len() implies #[trigger] keys.prefix@[i]
                    == index_prefix(columns@, range@).map_values(|value: V| &value)[i] by {
                    assert(keys.prefix@.unref()[i] == index_prefix(columns@, range@)[i]);
                }
            }
        }
    }
    keys.into_tree_range()
}

/// Take the range of the keys of an index with the given `columns`
/// out of a `range` over the columns of the table.
pub fn take_index_range<K: Eq + Hash, V>(
    columns: &[K],
    range: &mut HashMap<K, ColumnRange<V>>,
) -> (keys: IndexRange<V>)
    ensures
        obeys_key_model::<K>() ==> {
            let distinct = distinct_prefix(columns@);
            &&& keys.prefix@ == index_prefix(distinct, old(range)@)
            &&& (keys.start, keys.end) == index_bounds(distinct, old(range)@)
            &&& final(range)@ == old(range)@.remove_keys(
                distinct.take(used_len(distinct, old(range)@) as int).to_set(),
            )
        },
{
    let ghost given = range@;
    let mut prefix: Vec<V> = Vec::new();
    let mut i: usize = 0;
    proof {
        assert(columns@.take(0) =~= Seq::<K>::empty());
        assert(given.remove_keys(columns@.take(0).to_set()) =~= given);
    }
    while i < columns.len()
        invariant
            i <= columns@.len(),
            given == old(range)@,
            obeys_key_model::<K>() ==> {
                &&& prefix@.len() == i
                &&& columns@.take(i as int).no_duplicates()
                &&& range@ == given.remove_keys(columns@.take(i as int).to_set())
                &&& forall|j: int|
                    0 <= j < i ==> {
                        &&& given.contains_key(#[trigger] columns@[j])
                        &&& given[columns@[j]] is Eq
                        &&& prefix@[j] == fixed_value(given, columns@[j])
                    }
            },
        decreases columns@.len() - i,
    {
        let ghost taken = columns@.take(i as int);
        let ghost left = range@;
        match range.remove(&columns[i]) {
            Some(column_range) => {
                proof {
                    if obeys_key_model::<K>() {
                        assert(left.contains_key(columns@[i as int]));
                        assert(!taken.contains(columns@[i as int]));
                        assert(columns@.take(i + 1) =~= taken.push(columns@[i as int]));
                        assert(columns@.take(i + 1).to_set() =~= taken.to_set().insert(
                            columns@[i as int],
                        )) by {
                            taken.lemma_push_to_set_commute(columns@[i as int]);
                        }
                        assert(range@ =~= given.remove_keys(columns@.take(i + 1).to_set()));
                        assert(columns@.take(i + 1).no_duplicates());
                    }
                }
                match column_range {
                    ColumnRange::Eq(value) => {
                        prefix.push(value);
                    },
                    ColumnRange::In((start, end)) => {
                        proof {
                            if obeys_key_model::<K>() {
                                lemma_taken(columns@, given, i as nat, true);
                            }
                        }
                        return IndexRange { prefix, start, end };
                    },
                }
            },
            None => {
                proof {
                    if obeys_key_model::<K>() {
                        assert(range@ =~= left);
                        lemma_taken(columns@, given, i as nat, false);
                    }
                }
                return IndexRange { prefix, start: Bound::Unbounded, end: Bound::Unbounded };
            },
        }
        i += 1;
    }
    proof {
        if obeys_key_model::<K>() {
            lemma_taken(columns@, given, i as nat, false);
        }
    }
    IndexRange { prefix, start: Bound::Unbounded, end: Bound::Unbounded }
}

/// Construct the range of the keys of an index with the given `columns`
/// by taking what it needs out of a `range` over the columns of the table.
pub fn index_range_for<K: Eq + Hash, V>(
    columns: &[K],
    range: &mut HashMap<K, ColumnRange<V>>,
) -> (keys: TreeRange<V>)
    ensures
        obeys_key_model::<K>() ==> {
            let distinct = distinct_prefix(columns@);
            let bounds = index_bounds(distinct, old(range)@);
            &&& reads_as(keys, index_prefix(distinct, old(range)@), bounds.0, bounds.1)
            &&& final(range)@ == old(range)@.remove_keys(
                distinct.take(used_len(distinct, old(range)@) as int).to_set(),
            )
        },
{
    take_index_range(columns, range).into_tree_range()
}

/// A query by the values of the given `columns` can be answered from `range`:
/// every column is restricted, all but the last one to one value.
pub open spec fn is_answerable<K, V>(columns: Seq<K>, range: Map<K, ColumnRange<V>>) -> bool {
    &&& forall|i: int| 0 <= i < columns.len() ==> range.contains_key(#[trigger] columns[i])
    &&& forall|i: int| 0 <= i < columns.len() - 1 ==> range[#[trigger] columns[i]] is Eq
}

/// The range that has `prefix`, `start` and `end` is a clone of the part of `range`
/// that restricts the given `columns`.
pub open spec fn is_range_clone<K, V: Clone>(
    columns: Seq<K>,
    range: Map<K, ColumnRange<V>>,
    prefix: Seq<V>,
    start: Bound<V>,
    end: Bound<V>,
) -> bool {
    let values = index_prefix(columns, range);
    let bounds = index_bounds(columns, range);
    &&& prefix.len() == values.len()
    &&& forall|i: int| 0 <= i < prefix.len() ==> cloned(values[i], #[trigger] prefix[i])
    &&& is_bound_clone(bounds.0, start)
    &&& is_bound_clone(bounds.1, end)
}

/// Clone the range of keys that answers a `query` on an index
/// out of a `range` over the columns of the table, if it can be answered.
pub fn clone_index_range<'a, K: Eq + Hash, V: Clone>(
    query: &IndexQuery<'a, K>,
    range: &HashMap<K, ColumnRange<V>>,
) -> (keys: Option<IndexRange<V>>)
    ensures
        obeys_key_model::<K>() ==> match keys {
            Some(keys) => {
                &&& is_answerable(query.spec_range(), range@)
                &&& is_range_clone(query.spec_range(), range@, keys.prefix@, keys.start, keys.end)
            },
            None => !is_answerable(query.spec_range(), range@),
        },
{
    let columns = query.range();
    let mut prefix: Vec<V> = Vec::new();
    let mut i: usize = 0;
    while i < columns.len()
        invariant
            i <= columns@.len(),
            columns@ == query.spec_range(),
            obeys_key_model::<K>() ==> {
                &&& prefix@.len() == i
                &&& forall|j: int|
                    0 <= j < i ==> {
                        &&& range@.contains_key(#[trigger] columns@[j])
                        &&& range@[columns@[j]] is Eq
                        &&& cloned(fixed_value(range@, columns@[j]), prefix@[j])
                    }
            },
        decreases columns@.len() - i,
    {
        match range.get(&columns[i]) {
            Some(ColumnRange::Eq(value)) => {
                prefix.push(value.clone());
            },
            Some(ColumnRange::In(bounds)) => {
                proof {
                    if obeys_key_model::<K>() {
                        assert(range@[columns@[i as int]] is In);
                        lemma_fixed_len(columns@, range@, i as nat);
                    }
                }
                if i + 1 < columns.len() {
                    return None;
                }
                return Some(
                    IndexRange {
                        prefix,
                        start: clone_bound(&bounds.0),
                        end: clone_bound(&bounds.1),
                    },
                );
            },
            None => {
                assert(obeys_key_model::<K>() ==> !range@.contains_key(columns@[i as int]));
                return None;
            },
        }
        i += 1;
    }
    proof {
        if obeys_key_model::<K>() {
            lemma_fixed_len(columns@, range@, i as nat);
        }
    }
    Some(IndexRange { prefix, start: Bound::Unbounded, end: Bound::Unbounded })
}

/// Construct the range of keys that answers a `query` on an index
/// by cloning from a `range` over the columns of the table.
pub fn inner_range_for<'a, K: Eq + Hash, V: Clone>(
    query: &IndexQuery<'a, K>,
    range: &HashMap<K, ColumnRange<V>>,
) -> (keys: TreeRange<V>)
    requires
        obeys_key_model::<K>(),
        is_answerable(query.spec_range(), range@),
    ensures
        exists|prefix: Seq<V>, start: Bound<V>, end: Bound<V>|
            {
                &&& #[trigger] is_range_clone(query.spec_range(), range@, prefix, start, end)
                &&& reads_as(keys, prefix, start, end)
            },
{
    let keys = clone_index_range(query, range).unwrap();
    assert(is_range_clone(query.spec_range(), range@, keys.prefix@, keys.start, keys.end));
    keys.into_tree_range()
}

} // verus!

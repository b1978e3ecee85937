//! What holds of the operations on a table together.

use std::fmt::{Debug, Display};
use std::io::Error;
use std::ops::Bound;

use b_tree::{BTree, BTreeLock};
use freqfs::DirLock;
use vstd::prelude::*;
use vstd::utf8::encode_utf8;

use crate::equality::{decides, is_equivalence};
use crate::error::TableError;
use crate::index_map::{
    as_map, is_entry, is_sorted, lemma_irreflexive, lemma_transitive, name_before, names,
};
use crate::schema::{ColumnRange, IndexSchema, Schema};
use crate::storage::{clones_to_itself, Opening};
use crate::table::columns::{
    has_column, has_columns, is_first_use, lemma_has_position, lemma_position_of,
    moved_out, position_of, positions, select,
};
use crate::table::opening::{indices, is_last_entry, is_nth};
use crate::table::ranges::{
    distinct_prefix, fixed_len, index_bounds, index_prefix, is_answerable, lemma_distinct_prefix,
    lemma_fixed_columns, used_len,
};
use crate::table::table_lock::{is_locked, is_opened_table, TableLock};
use crate::table::table_state::TableState;
use crate::table::validity::{
    is_first_missing, is_index_fault, is_schema_fault, is_valid_auxiliary, is_valid_index,
    is_valid_schema, lemma_fault, IndexFault, SchemaFault,
};
use crate::table::{value_columns, Table};

pub mod keys;
pub mod locks;
pub mod queries;
pub mod schemata;
pub mod selection;
pub mod tables;
pub mod texts;

verus! {

/// No two of the `columns` are equal.
pub open spec fn are_distinct<K>(same: spec_fn(K, K) -> bool, columns: Seq<K>) -> bool {
    forall|i: int, j: int|
        #![trigger columns[i], columns[j]]
        0 <= i < j < columns.len() ==> !same(columns[i], columns[j])
}

/// Equal names have the same place.
proof fn lemma_equal_names<K>(same: spec_fn(K, K) -> bool, columns: Seq<K>, a: K, b: K)
    requires
        is_equivalence(same),
        same(a, b),
    ensures
        position_of(same, columns, a) == position_of(same, columns, b),
{
    assert forall|c: K| #[trigger] same(c, a) == same(c, b) by {
        assert(same(a, b) == same(b, a));
    }
    if has_column(same, columns, a) {
        lemma_has_position(same, columns, a);
        let i = position_of(same, columns, a)->0;
        assert(same(columns[i], a));
        assert forall|j: int| 0 <= j < i implies !same(#[trigger] columns[j], b) by {
            assert(!same(columns[j], a));
        }
        lemma_position_of(same, columns, b, i);
    } else if has_column(same, columns, b) {
        let i = choose|i: int| 0 <= i < columns.len() && same(#[trigger] columns[i], b);
        assert(same(columns[i], a));
    }
}

/// Where the row has all of the columns, their values are selected one by one.
proof fn lemma_select<K, V>(
    same: spec_fn(K, K) -> bool,
    row: Seq<V>,
    columns_in: Seq<K>,
    columns_out: Seq<K>,
)
    requires
        has_columns(same, columns_in, columns_out),
    ensures
        select(same, row, columns_in, columns_out).len() == columns_out.len(),
        forall|i: int|
            0 <= i < columns_out.len() ==> {
                &&& #[trigger] select(same, row, columns_in, columns_out)[i] == row[position_of(
                    same,
                    columns_in,
                    columns_out[i],
                )->0]
                &&& 0 <= position_of(same, columns_in, columns_out[i])->0 < columns_in.len()
            },
    decreases columns_out.len(),
{
    if columns_out.len() > 0 {
        let rest = columns_out.drop_last();
        assert forall|i: int| 0 <= i < rest.len() implies has_column(
            same,
            columns_in,
            #[trigger] rest[i],
        ) by {
            assert(rest[i] == columns_out[i]);
        }
        lemma_select(same, row, columns_in, rest);
        assert(has_column(same, columns_in, columns_out[columns_out.len() - 1]));
        lemma_has_position(same, columns_in, columns_out.last());
        assert forall|i: int| 0 <= i < columns_out.len() implies {
            &&& #[trigger] select(same, row, columns_in, columns_out)[i] == row[position_of(
                same,
                columns_in,
                columns_out[i],
            )->0]
            &&& 0 <= position_of(same, columns_in, columns_out[i])->0 < columns_in.len()
        } by {
            if i < rest.len() {
                assert(rest[i] == columns_out[i]);
                assert(select(same, row, columns_in, rest)[i] == row[position_of(
                    same,
                    columns_in,
                    rest[i],
                )->0]);
            }
        }
    }
}

/// Selecting all columns of a row gives the row, if no column comes twice.
pub proof fn law_select_all<K, V>(same: spec_fn(K, K) -> bool, row: Seq<V>, columns: Seq<K>)
    requires
        is_equivalence(same),
        row.len() == columns.len(),
        are_distinct(same, columns),
    ensures
        select(same, row, columns, columns) == row,
{
    assert forall|i: int| 0 <= i < columns.len() implies has_column(same, columns, #[trigger] columns[i])
        && position_of(same, columns, columns[i]) == Some(i) by {
        assert(same(columns[i], columns[i]));
        lemma_position_of(same, columns, columns[i], i);
    }
    lemma_select(same, row, columns, columns);
    assert(select(same, row, columns, columns) =~= row);
}

/// A selection can be made through another one that has all of its columns:
/// the values of the columns `key`, taken from the part of a row that an index with the columns
/// `columns` keeps, are those that the row itself has.
pub proof fn law_select_through<K, V>(
    same: spec_fn(K, K) -> bool,
    row: Seq<V>,
    primary: Seq<K>,
    columns: Seq<K>,
    key: Seq<K>,
)
    requires
        is_equivalence(same),
        has_columns(same, primary, columns),
        has_columns(same, columns, key),
    ensures
        has_columns(same, primary, key),
        select(same, row, primary, columns).len() == columns.len(),
        select(same, select(same, row, primary, columns), columns, key) == select(same, row, primary, key),
{
    assert forall|i: int| 0 <= i < key.len() implies {
        let p = position_of(same, columns, #[trigger] key[i])->0;
        &&& 0 <= p < columns.len()
        &&& position_of(same, primary, columns[p]) == position_of(same, primary, key[i])
        &&& has_column(same, primary, key[i])
    } by {
        assert(has_column(same, columns, key[i]));
        lemma_has_position(same, columns, key[i]);
        let p = position_of(same, columns, key[i])->0;
        assert(same(columns[p], key[i]));
        lemma_equal_names(same, primary, columns[p], key[i]);
        assert(has_column(same, primary, columns[p]));
    }
    let part = select(same, row, primary, columns);
    lemma_select(same, row, primary, columns);
    lemma_select(same, part, columns, key);
    lemma_select(same, row, primary, key);
    assert forall|i: int| 0 <= i < key.len() implies select(same, part, columns, key)[i] == select(
        same,
        row,
        primary,
        key,
    )[i] by {
        let p = position_of(same, columns, key[i])->0;
        assert(part[p] == row[position_of(same, primary, columns[p])->0]);
    }
    assert(select(same, part, columns, key) =~= select(same, row, primary, key));
}

/// In a table with a valid schema, every auxiliary index keeps a value for each of its columns,
/// and what it keeps of a row has the primary key of that row.
pub proof fn law_index_has_key<S: Schema>(
    same: spec_fn(S::Id, S::Id) -> bool,
    schema: S,
    i: int,
    row: Seq<S::Value>,
)
    requires
        is_equivalence(same),
        is_valid_schema(same, schema),
        0 <= i < schema.spec_auxiliary().len(),
    ensures
        ({
            let primary = schema.spec_primary().spec_columns();
            let columns = schema.spec_auxiliary()[i].1.spec_columns();
            let part = select(same, row, primary, columns);
            &&& part.len() == columns.len()
            &&& select(same, part, columns, schema.spec_key()) == select(same, row, primary, schema.spec_key())
            &&& select(same, part, columns, schema.spec_key()).len() == schema.spec_key().len()
        }),
{
    assert(is_valid_auxiliary(same, schema, i));
    let primary = schema.spec_primary().spec_columns();
    let columns = schema.spec_auxiliary()[i].1.spec_columns();
    law_select_through(same, row, primary, columns, schema.spec_key());
    lemma_select(same, row, primary, schema.spec_key());
}

/// Moving the values of columns out of a row gives the same values as borrowing or cloning them,
/// if no column is asked for twice.
pub proof fn law_extract_is_select<K, V: Default + Clone>(
    same: spec_fn(K, K) -> bool,
    row: Seq<V>,
    columns_in: Seq<K>,
    columns_out: Seq<K>,
    selection: Seq<V>,
)
    requires
        is_equivalence(same),
        has_columns(same, columns_in, columns_out),
        are_distinct(same, columns_out),
        moved_out(row, positions(same, columns_in, columns_out), selection),
    ensures
        selection == select(same, row, columns_in, columns_out),
{
    let places = positions(same, columns_in, columns_out);
    lemma_select(same, row, columns_in, columns_out);
    assert forall|j: int| 0 <= j < selection.len() implies selection[j] == select(
        same,
        row,
        columns_in,
        columns_out,
    )[j] by {
        assert forall|h: int| 0 <= h < j implies #[trigger] places[h] != places[j] by {
            assert(has_column(same, columns_in, columns_out[h]));
            assert(has_column(same, columns_in, columns_out[j]));
            lemma_has_position(same, columns_in, columns_out[h]);
            lemma_has_position(same, columns_in, columns_out[j]);
            if places[h] == places[j] {
                let column = columns_in[places[h]];
                assert(same(column, columns_out[h]));
                assert(same(column, columns_out[j]));
                assert(same(columns_out[h], column));
                assert(same(columns_out[h], columns_out[j]));
            }
        }
        assert(is_first_use(places, j));
    }
    assert(selection =~= select(same, row, columns_in, columns_out));
}

/// An extracted prefix does not depend on what follows the columns from which it is extracted.
pub proof fn law_prefix_extraction<K, V: Default + Clone>(
    same: spec_fn(K, K) -> bool,
    key: Seq<V>,
    columns_in: Seq<K>,
    columns_out: Seq<K>,
    prefix: Seq<V>,
)
    requires
        has_columns(same, columns_in, columns_out),
        columns_in.len() <= key.len(),
    ensures
        moved_out(key, positions(same, columns_in, columns_out), prefix) == moved_out(
            key.take(columns_in.len() as int),
            positions(same, columns_in, columns_out),
            prefix,
        ),
{
    let places = positions(same, columns_in, columns_out);
    assert forall|j: int| 0 <= j < places.len() implies key[#[trigger] places[j]] == key.take(
        columns_in.len() as int,
    )[places[j]] by {
        assert(has_column(same, columns_in, columns_out[j]));
        lemma_has_position(same, columns_in, columns_out[j]);
    }
    let short = key.take(columns_in.len() as int);
    if moved_out(key, places, prefix) {
        assert forall|j: int| 0 <= j < prefix.len() && is_first_use(places, j) implies
            #[trigger] prefix[j] == short[places[j]] by {
            assert(prefix[j] == key[places[j]]);
        }
    }
    if moved_out(short, places, prefix) {
        assert forall|j: int| 0 <= j < prefix.len() && is_first_use(places, j) implies
            #[trigger] prefix[j] == key[places[j]] by {
            assert(prefix[j] == short[places[j]]);
        }
    }
}

/// The value of a row that was put together from a key and values is those values,
/// and its key is that key.
pub proof fn law_value_of_row<V>(key: Seq<V>, values: Seq<V>)
    ensures
        value_columns(key + values, key.len()) == values,
        (key + values).take(key.len() as int) == key,
{
    assert(value_columns(key + values, key.len()) =~= values);
    assert((key + values).take(key.len() as int) =~= key);
}

/// The value `value` does not come before the bound `start`.
/// `same` and `before` say how values compare.
pub open spec fn is_after<V>(
    same: spec_fn(V, V) -> bool,
    before: spec_fn(V, V) -> bool,
    start: Bound<V>,
    value: V,
) -> bool {
    match start {
        Bound::Included(least) => same(least, value) || before(least, value),
        Bound::Excluded(least) => before(least, value),
        Bound::Unbounded => true,
    }
}

/// The value `value` does not come after the bound `end`.
pub open spec fn is_until<V>(
    same: spec_fn(V, V) -> bool,
    before: spec_fn(V, V) -> bool,
    end: Bound<V>,
    value: V,
) -> bool {
    match end {
        Bound::Included(greatest) => same(greatest, value) || before(value, greatest),
        Bound::Excluded(greatest) => before(value, greatest),
        Bound::Unbounded => true,
    }
}

/// The value of a column lies in the range of the column.
pub open spec fn in_column_range<V>(
    same: spec_fn(V, V) -> bool,
    before: spec_fn(V, V) -> bool,
    range: ColumnRange<V>,
    value: V,
) -> bool {
    match range {
        ColumnRange::Eq(only) => same(only, value),
        ColumnRange::In((start, end)) => {
            &&& is_after(same, before, start, value)
            &&& is_until(same, before, end, value)
        },
    }
}

/// A row lies in `range`: each of its columns that is restricted lies in the range of the column.
pub open spec fn in_range<K, V>(
    same: spec_fn(V, V) -> bool,
    before: spec_fn(V, V) -> bool,
    range: Map<K, ColumnRange<V>>,
    row: spec_fn(K) -> V,
) -> bool {
    forall|name: K| #[trigger]
        range.contains_key(name) ==> in_column_range(same, before, range[name], row(name))
}

/// A key lies in the range of keys that begin with `prefix` and go on between the `bounds`.
pub open spec fn in_key_range<V>(
    same: spec_fn(V, V) -> bool,
    before: spec_fn(V, V) -> bool,
    prefix: Seq<V>,
    bounds: (Bound<V>, Bound<V>),
    key: Seq<V>,
) -> bool {
    &&& prefix.len() <= key.len()
    &&& forall|i: int| 0 <= i < prefix.len() ==> same(#[trigger] prefix[i], key[i])
    &&& prefix.len() < key.len() ==> {
        &&& is_after(same, before, bounds.0, key[prefix.len() as int])
        &&& is_until(same, before, bounds.1, key[prefix.len() as int])
    }
}

/// Taking the range of the keys of an index out of a range loses nothing and adds nothing:
/// a row lies in the range just if its key in the index lies in the range of keys that was taken,
/// and it lies in what is left of the range.
pub proof fn law_range_split<K, V>(
    same: spec_fn(V, V) -> bool,
    before: spec_fn(V, V) -> bool,
    columns: Seq<K>,
    range: Map<K, ColumnRange<V>>,
    row: spec_fn(K) -> V,
)
    ensures
        ({
            let distinct = distinct_prefix(columns);
            let left = range.remove_keys(
                distinct.take(used_len(distinct, range) as int).to_set(),
            );
            in_range(same, before, range, row) <==> {
                &&& in_key_range(
                    same,
                    before,
                    index_prefix(distinct, range),
                    index_bounds(distinct, range),
                    columns.map_values(row),
                )
                &&& in_range(same, before, left, row)
            }
        }),
{
    lemma_distinct_prefix(columns);
    let distinct = distinct_prefix(columns);
    lemma_fixed_columns(distinct, range);
    let n = fixed_len(distinct, range);
    let used = distinct.take(used_len(distinct, range) as int);
    let left = range.remove_keys(used.to_set());
    let prefix = index_prefix(distinct, range);
    let bounds = index_bounds(distinct, range);
    let key = columns.map_values(row);
    assert forall|i: int| 0 <= i < distinct.len() implies distinct[i] == columns[i] by {
        assert(distinct[i] == columns.take(distinct.len() as int)[i]);
    }
    if in_range(same, before, range, row) {
        assert forall|i: int| 0 <= i < prefix.len() implies same(#[trigger] prefix[i], key[i]) by {
            assert(range.contains_key(distinct[i]));
        }
        if n < columns.len() && n < distinct.len() && range.contains_key(distinct[n as int]) {
            assert(in_column_range(same, before, range[distinct[n as int]], key[n as int]));
        }
        assert(in_key_range(same, before, prefix, bounds, key));
        assert forall|name: K| #[trigger] left.contains_key(name) implies in_column_range(
            same,
            before,
            left[name],
            row(name),
        ) by {
            assert(range.contains_key(name));
        }
    }
    if in_key_range(same, before, prefix, bounds, key) && in_range(same, before, left, row) {
        assert forall|name: K| #[trigger] range.contains_key(name) implies in_column_range(
            same,
            before,
            range[name],
            row(name),
        ) by {
            if used.contains(name) {
                let i = choose|i: int| 0 <= i < used.len() && used[i] == name;
                assert(distinct[i] == name);
                assert(key[i] == row(name));
                if i < n {
                    assert(same(prefix[i], key[i]));
                } else {
                    assert(i == n);
                }
            } else {
                assert(left.contains_key(name));
            }
        }
    }
}

/// Borrowing the range of the keys of an index gives the same range of keys as taking it,
/// if no column comes twice in the index.
pub proof fn law_ranges_agree<K, V>(columns: Seq<K>, range: Map<K, ColumnRange<V>>)
    requires
        columns.no_duplicates(),
    ensures
        index_prefix(distinct_prefix(columns), range) == index_prefix(columns, range),
        index_bounds(distinct_prefix(columns), range) == index_bounds(columns, range),
        used_len(distinct_prefix(columns), range) == used_len(columns, range),
{
    lemma_distinct_prefix(columns);
    let n = distinct_prefix(columns).len();
    if n < columns.len() {
        let j = choose|j: int| 0 <= j < n && distinct_prefix(columns)[j] == columns[n as int];
        assert(columns[j] == columns[n as int]);
    }
    assert(columns.take(columns.len() as int) =~= columns);
}

/// A query by columns that can all be answered uses every one of them.
pub proof fn law_answer_uses_all<K, V>(columns: Seq<K>, range: Map<K, ColumnRange<V>>)
    requires
        is_answerable(columns, range),
    ensures
        used_len(columns, range) == columns.len(),
{
    lemma_fixed_columns(columns, range);
    let n = fixed_len(columns, range);
    if n < columns.len() {
        assert(range.contains_key(columns[n as int]));
        if n < columns.len() - 1 {
            assert(range[columns[n as int]] is Eq);
        }
    }
}

/// Two tables whose auxiliary indices have the same names lock them in the same order.
pub proof fn law_same_order<T, U>(entries: Seq<(String, T)>, others: Seq<(String, U)>)
    requires
        is_sorted(entries),
        is_sorted(others),
        as_map(entries).dom() == as_map(others).dom(),
    ensures
        names(entries) == names(others),
{
    lemma_same_beginning(entries, others, entries.len());
    lemma_same_beginning(others, entries, others.len());
    assert(names(entries) =~= names(others));
}

/// The first `n` entries have the same names.
proof fn lemma_same_beginning<T, U>(entries: Seq<(String, T)>, others: Seq<(String, U)>, n: nat)
    requires
        is_sorted(entries),
        is_sorted(others),
        as_map(entries).dom() == as_map(others).dom(),
        n <= entries.len(),
    ensures
        n <= others.len(),
        forall|i: int| 0 <= i < n ==> #[trigger] others[i].0@ == entries[i].0@,
    decreases n,
{
    if n > 0 {
        lemma_same_beginning(entries, others, (n - 1) as nat);
        let i = n - 1;
        let name = entries[i].0@;
        assert(is_entry(entries, name, i));
        assert(as_map(entries).dom().contains(name));
        assert(as_map(others).dom().contains(name));
        let k = choose|k: int| is_entry(others, name, k);
        lemma_name_irreflexive(name);
        if k < i {
            assert(others[k].0@ == entries[k].0@);
            assert(name_before(entries[k].0@, entries[i].0@));
        }
        if i < k {
            let other = others[i].0@;
            assert(name_before(others[i].0@, others[k].0@));
            assert(is_entry(others, other, i));
            assert(as_map(others).dom().contains(other));
            let m = choose|m: int| is_entry(entries, other, m);
            lemma_name_irreflexive(other);
            if m < i {
                assert(others[m].0@ == entries[m].0@);
                assert(name_before(others[m].0@, others[i].0@));
            } else if i < m {
                assert(name_before(entries[i].0@, entries[m].0@));
                lemma_transitive(encode_utf8(name), encode_utf8(other), encode_utf8(name));
            }
        }
    }
}

/// No name comes before itself.
proof fn lemma_name_irreflexive(name: Seq<char>)
    ensures
        !name_before(name, name),
{
    lemma_irreflexive(encode_utf8(name));
}

/// Two lists have the same columns, in whatever order.
pub open spec fn have_same_columns<K>(columns: Seq<K>, others: Seq<K>) -> bool {
    forall|name: K| #[trigger] columns.contains(name) <==> others.contains(name)
}

/// For each of the auxiliary indices of one schema, another one has an index with the same columns.
pub open spec fn has_same_indices<S: Schema>(schema: S, other: S) -> bool {
    forall|i: int|
        0 <= i < schema.spec_auxiliary().len() ==> #[trigger] has_same_index(schema, other, i)
}

/// For the auxiliary index of one schema at place `i`, another one has one with the same columns.
pub open spec fn has_same_index<S: Schema>(schema: S, other: S, i: int) -> bool {
    exists|j: int| is_same_index(schema, other, i, j)
}

/// The auxiliary index of one schema at place `i` and that of another one at place `j`
/// have the same columns.
pub open spec fn is_same_index<S: Schema>(schema: S, other: S, i: int, j: int) -> bool {
    &&& 0 <= j < other.spec_auxiliary().len()
    &&& have_same_columns(
        schema.spec_auxiliary()[i].1.spec_columns(),
        other.spec_auxiliary()[j].1.spec_columns(),
    )
}

/// Whether a schema is valid does not depend on the order of its columns, of the columns of its key
/// or of its indices, nor on that of the columns of an index.
pub proof fn law_order_is_free<S: Schema>(
    same: spec_fn(S::Id, S::Id) -> bool,
    schema: S,
    other: S,
)
    requires
        have_same_columns(
            schema.spec_primary().spec_columns(),
            other.spec_primary().spec_columns(),
        ),
        have_same_columns(schema.spec_key(), other.spec_key()),
        has_same_indices(schema, other),
        has_same_indices(other, schema),
    ensures
        is_valid_schema(same, schema) <==> is_valid_schema(same, other),
{
    if is_valid_schema(same, schema) {
        lemma_order_is_free(same, schema, other);
    }
    if is_valid_schema(same, other) {
        lemma_order_is_free(same, other, schema);
    }
}

/// A schema is valid if another one with the same columns and indices is.
proof fn lemma_order_is_free<S: Schema>(
    same: spec_fn(S::Id, S::Id) -> bool,
    schema: S,
    other: S,
)
    requires
        have_same_columns(
            schema.spec_primary().spec_columns(),
            other.spec_primary().spec_columns(),
        ),
        have_same_columns(schema.spec_key(), other.spec_key()),
        has_same_indices(other, schema),
        is_valid_schema(same, schema),
    ensures
        is_valid_schema(same, other),
{
    let primary = schema.spec_primary().spec_columns();
    let other_primary = other.spec_primary().spec_columns();
    assert(primary.contains(primary[0]));
    assert(other_primary.len() > 0);
    assert forall|i: int| 0 <= i < other.spec_auxiliary().len() implies #[trigger]
        is_valid_auxiliary(same, other, i) by {
        assert(has_same_index(other, schema, i));
        let j = choose|j: int| is_same_index(other, schema, i, j);
        assert(is_same_index(other, schema, i, j));
        assert(is_valid_auxiliary(same, schema, j));
        let columns = schema.spec_auxiliary()[j].1.spec_columns();
        let other_columns = other.spec_auxiliary()[i].1.spec_columns();
        assert(columns.contains(columns[0]));
        assert(other_columns.contains(columns[0]));
        lemma_same_columns(same, primary, columns, other_primary, other_columns);
        lemma_same_columns(
            same,
            columns,
            schema.spec_key(),
            other_columns,
            other.spec_key(),
        );
    }
}

/// Whether names are among columns does not depend on the order of either.
proof fn lemma_same_columns<K>(
    same: spec_fn(K, K) -> bool,
    columns: Seq<K>,
    names: Seq<K>,
    other_columns: Seq<K>,
    other_names: Seq<K>,
)
    requires
        have_same_columns(columns, other_columns),
        have_same_columns(names, other_names),
        has_columns(same, columns, names),
    ensures
        has_columns(same, other_columns, other_names),
{
    assert forall|i: int| 0 <= i < other_names.len() implies has_column(
        same,
        other_columns,
        #[trigger] other_names[i],
    ) by {
        let name = other_names[i];
        assert(other_names.contains(name));
        assert(names.contains(name));
        let j = choose|j: int| 0 <= j < names.len() && names[j] == name;
        assert(has_column(same, columns, names[j]));
        let k = choose|k: int| 0 <= k < columns.len() && same(#[trigger] columns[k], name);
        assert(columns.contains(columns[k]));
        assert(other_columns.contains(columns[k]));
        let m = choose|m: int| 0 <= m < other_columns.len() && other_columns[m] == columns[k];
        assert(same(other_columns[m], name));
    }
}

/// A schema has at most one first fault, and none if it is valid.
pub proof fn law_one_fault<S: Schema>(
    same: spec_fn(S::Id, S::Id) -> bool,
    schema: S,
    fault: SchemaFault,
    other: SchemaFault,
)
    requires
        is_schema_fault(same, schema, fault),
        is_schema_fault(same, schema, other),
    ensures
        fault == other,
        !is_valid_schema(same, schema),
{
    lemma_fault(same, schema, fault);
    if let (SchemaFault::Index(i, a), SchemaFault::Index(j, b)) = (fault, other) {
        let primary = schema.spec_primary().spec_columns();
        let key = schema.spec_key();
        let columns = schema.spec_auxiliary()[i as int].1.spec_columns();
        let other_columns = schema.spec_auxiliary()[j as int].1.spec_columns();
        lemma_index_fault(same, primary, key, columns, a);
        lemma_index_fault(same, primary, key, other_columns, b);
        if i < j {
            assert(is_valid_auxiliary(same, schema, i as int));
        } else if j < i {
            assert(is_valid_auxiliary(same, schema, j as int));
        } else {
            lemma_one_index_fault(same, primary, key, columns, a, b);
        }
    }
}

/// An index with a fault is not valid.
proof fn lemma_index_fault<K>(
    same: spec_fn(K, K) -> bool,
    primary: Seq<K>,
    key: Seq<K>,
    columns: Seq<K>,
    fault: IndexFault,
)
    requires
        is_index_fault(same, primary, key, columns, fault),
    ensures
        !is_valid_index(same, primary, key, columns),
{
    match fault {
        IndexFault::Empty => {},
        IndexFault::UnknownColumn(i) => {
            if has_columns(same, primary, columns) {
                assert(has_column(same, primary, columns[i as int]));
            }
        },
        IndexFault::MissingKeyColumn(i) => {
            if has_columns(same, columns, key) {
                assert(has_column(same, columns, key[i as int]));
            }
        },
    }
}

/// An index has at most one first fault.
proof fn lemma_one_index_fault<K>(
    same: spec_fn(K, K) -> bool,
    primary: Seq<K>,
    key: Seq<K>,
    columns: Seq<K>,
    fault: IndexFault,
    other: IndexFault,
)
    requires
        is_index_fault(same, primary, key, columns, fault),
        is_index_fault(same, primary, key, columns, other),
    ensures
        fault == other,
{
    match (fault, other) {
        (IndexFault::UnknownColumn(i), IndexFault::UnknownColumn(j)) => {
            lemma_first_missing(same, primary, columns, i as int, j as int);
        },
        (IndexFault::MissingKeyColumn(i), IndexFault::MissingKeyColumn(j)) => {
            lemma_first_missing(same, columns, key, i as int, j as int);
        },
        (IndexFault::UnknownColumn(i), IndexFault::MissingKeyColumn(_)) => {
            assert(has_column(same, primary, columns[i as int]));
        },
        (IndexFault::MissingKeyColumn(_), IndexFault::UnknownColumn(j)) => {
            assert(has_column(same, primary, columns[j as int]));
        },
        _ => {},
    }
}

/// There is only one first column that is missing.
proof fn lemma_first_missing<K>(
    same: spec_fn(K, K) -> bool,
    columns: Seq<K>,
    names: Seq<K>,
    i: int,
    j: int,
)
    requires
        is_first_missing(same, columns, names, i),
        is_first_missing(same, columns, names, j),
    ensures
        i == j,
{
    if i < j {
        assert(has_column(same, columns, names.take(j)[i]));
    } else if j < i {
        assert(has_column(same, columns, names.take(i)[j]));
    }
}

/// All operations on one row of a table accept the same keys.
pub proof fn law_same_keys<'a, S: Schema, C, G>(
    table: Table<S, S::Index, C, G>,
    key: &'a [S::Value],
    one: Result<&'a [S::Value], TableError>,
    other: Result<&'a [S::Value], TableError>,
) where S::Value: Debug
    requires
        table.is_key_check(key, one),
        table.is_key_check(key, other),
    ensures
        one is Ok <==> key@.len() == table.spec_key().len(),
        one is Ok <==> other is Ok,
{
}

/// A table accepts just the tables to merge whose rows it would delete:
/// those that have the same schema.
pub proof fn law_same_tables<S: Schema + PartialEq + Debug, C, G, G2>(
    same: spec_fn(S, S) -> bool,
    table: Table<S, S::Index, C, G>,
    other: Table<S, S::Index, C, G2>,
    merged: Result<TableState<S::Index, C, G2>, TableError>,
    deleted: Result<TableState<S::Index, C, G2>, TableError>,
)
    requires
        decides(same),
        table.is_schema_check(
            other,
            "cannot merge a table with schema "@,
            " into one with schema "@,
            merged,
        ),
        table.is_schema_check(
            other,
            "cannot delete the contents of a table with schema "@,
            " from one with schema "@,
            deleted,
        ),
    ensures
        merged is Ok <==> same(table.schema.spec_inner(), other.schema.spec_inner()),
        merged is Ok <==> deleted is Ok,
{
}

/// A table that was opened and then locked has just the indices that its schema names.
pub proof fn law_named_indices<
    S: Schema + Debug,
    C: Clone,
    FE: Send + Sync,
    G,
    F: Fn(S::Index, C, DirLock<FE>) -> Result<BTreeLock<S::Index, C, FE>, Error>,
>(
    opening: Opening,
    open: F,
    schema: S,
    collator: C,
    dir: DirLock<FE>,
    lock: TableLock<S, S::Index, C, FE>,
    outcome: spec_fn(BTreeLock<S::Index, C, FE>, Result<BTree<S::Index, C, G>, Error>) -> bool,
    table: Table<S, S::Index, C, G>,
    name: Seq<char>,
) where S::Id: PartialEq + Display, S::Index: Clone
    requires
        is_opened_table(opening, open, schema, collator, dir, Ok(lock)),
        is_locked(outcome, lock, table),
    ensures
        table.schema.spec_inner() == schema,
        table.state.auxiliary@.contains_key(name) <==> exists|i: int|
            is_entry(schema.spec_auxiliary(), name, i),
{
    let entries = schema.spec_auxiliary();
    if exists|i: int| is_entry(entries, name, i) {
        let i = choose|i: int| is_entry(entries, name, i);
        assert(lock.auxiliary@.contains_key(entries[i].0@));
        assert(table.state.auxiliary@.dom().contains(name));
    }
    if table.state.auxiliary@.dom().contains(name) {
        assert(lock.auxiliary@.contains_key(name));
        let i = choose|i: int| #[trigger] is_last_entry(entries, name, i) && is_nth(
            opening,
            open,
            dir,
            indices(schema),
            collator,
            (i + 1) as nat,
            Ok(lock.auxiliary@[name]),
        );
        assert(is_entry(entries, name, i));
    }
}

/// A clone of a table that is locked has clones of its indices, each under the same name.
pub proof fn law_cloned_indices<S, IS, C: Clone, G: Clone>(
    table: Table<S, IS, C, G>,
    copy: Table<S, IS, C, G>,
    name: Seq<char>,
)
    requires
        cloned(table, copy),
    ensures
        copy.schema == table.schema,
        cloned(table.state.primary, copy.state.primary),
        copy.state.auxiliary@.contains_key(name) <==> table.state.auxiliary@.contains_key(name),
        table.state.auxiliary@.contains_key(name) ==> cloned(
            table.state.auxiliary@[name],
            copy.state.auxiliary@[name],
        ),
{
    assert(cloned(table.state, copy.state));
    assert(copy.state.auxiliary@.dom().contains(name) == table.state.auxiliary@.dom().contains(
        name,
    ));
}

/// A clone of the lock on a table has the same schema and directory,
/// and clones of its locks, each under the same name.
pub proof fn law_cloned_locks<S, IS, C: Clone, FE>(
    lock: TableLock<S, IS, C, FE>,
    copy: TableLock<S, IS, C, FE>,
    name: Seq<char>,
)
    requires
        cloned(lock, copy),
    ensures
        copy.schema == lock.schema,
        copy.dir == lock.dir,
        cloned(lock.primary, copy.primary),
        copy.auxiliary@.contains_key(name) <==> lock.auxiliary@.contains_key(name),
        lock.auxiliary@.contains_key(name) ==> cloned(
            lock.auxiliary@[name],
            copy.auxiliary@[name],
        ),
{
    assert(copy.auxiliary@.dom().contains(name) == lock.auxiliary@.dom().contains(name));
}

/// A clone of a table that is locked is the same table,
/// if its collator and its guard clone to themselves.
pub proof fn law_cloned_table<S, IS, C: Clone, G: Clone>(
    table: Table<S, IS, C, G>,
    copy: Table<S, IS, C, G>,
)
    requires
        cloned(table, copy),
        clones_to_itself::<C>(),
        clones_to_itself::<G>(),
    ensures
        copy.schema == table.schema,
        copy.state.primary == table.state.primary,
        copy.state.auxiliary@ == table.state.auxiliary@,
{
    assert(cloned(table.state, copy.state));
    assert(copy.state.auxiliary@ =~= table.state.auxiliary@);
}

/// A clone of the lock on a table is a lock on the same table,
/// if its collator clones to itself.
pub proof fn law_cloned_lock<S, IS, C: Clone, FE>(
    lock: TableLock<S, IS, C, FE>,
    copy: TableLock<S, IS, C, FE>,
)
    requires
        cloned(lock, copy),
        clones_to_itself::<C>(),
    ensures
        copy.schema == lock.schema,
        copy.dir == lock.dir,
        copy.primary == lock.primary,
        copy.auxiliary@ == lock.auxiliary@,
{
    assert(copy.auxiliary@ =~= lock.auxiliary@);
}

/// Creating a table and loading it refuse the same schemata, whatever is in the directory.
pub proof fn law_same_schemata<
    S: Schema + Debug,
    C: Clone,
    FE: Send + Sync,
    F: Fn(S::Index, C, DirLock<FE>) -> Result<BTreeLock<S::Index, C, FE>, Error>,
    H: Fn(S::Index, C, DirLock<FE>) -> Result<BTreeLock<S::Index, C, FE>, Error>,
>(
    same: spec_fn(S::Id, S::Id) -> bool,
    schema: S,
    created: (F, C, DirLock<FE>, Result<TableLock<S, S::Index, C, FE>, TableError>),
    loaded: (H, C, DirLock<FE>, Result<TableLock<S, S::Index, C, FE>, TableError>),
) where S::Id: PartialEq + Display, S::Index: Clone
    requires
        decides(same),
        is_opened_table(Opening::Create, created.0, schema, created.1, created.2, created.3),
        is_opened_table(Opening::Load, loaded.0, schema, loaded.1, loaded.2, loaded.3),
    ensures
        created.3 matches Err(TableError::InvalidInput(_)) <==> !is_valid_schema(same, schema),
        loaded.3 matches Err(TableError::InvalidInput(_)) <==> !is_valid_schema(same, schema),
{
}

} // verus!

//! What each operation on a table that is locked asks of its indices.

use std::collections::HashMap;
use std::fmt::Debug;
use std::hash::Hash;

use vstd::prelude::*;

use super::texts::{lemma_decimal, number};
use crate::equality::decides;
use crate::error::TableError;
use crate::plan::IndexQuery;
use crate::schema::{ColumnRange, IndexSchema, Range, Schema, TableSchema};
use crate::table::table_state::TableState;
use crate::table::{row_of, RangeQuery, RowQuery, Table};
use crate::text::{decimal, is_debug_text};

verus! {

/// A key that is looked up has as many columns as the primary key, and is looked up as it is given.
pub proof fn law_looked_up_key<'a, S: Schema, C, G>(
    table: &Table<S, S::Index, C, G>,
    key: &'a [S::Value],
    checked: Result<&'a [S::Value], TableError>,
) where S::Value: Debug
    requires
        ({
            ||| call_ensures(Table::<S, S::Index, C, G>::contains, (table, key), checked)
            ||| call_ensures(Table::<S, S::Index, C, G>::get_row, (table, key), checked)
            ||| call_ensures(Table::<S, S::Index, C, G>::delete_row, (table, key), checked)
        }),
    ensures
        checked is Ok <==> key@.len() == table.schema.spec_inner().spec_key().len(),
        checked matches Ok(found) ==> found@ == key@,
{
}

/// The value of a row is what follows its key.
pub proof fn law_value_follows_key<S: Schema, C, G>(
    table: &Table<S, S::Index, C, G>,
    key: Seq<S::Value>,
    values: Seq<S::Value>,
    row: Vec<S::Value>,
    value: Option<Vec<S::Value>>,
)
    requires
        key.len() == table.schema.spec_inner().spec_key().len(),
        row@ == key + values,
        call_ensures(Table::<S, S::Index, C, G>::get_value, (table, Some(row)), value),
    ensures
        value is Some,
        value->0@ == values,
{
    assert(row@.skip(key.len() as int) =~= values);
}

/// A table looks for no key in place of one that it refuses, and tells it.
pub proof fn law_refused_key<'a, S: Schema, C, G>(
    table: &Table<S, S::Index, C, G>,
    key: &'a [S::Value],
    checked: Result<&'a [S::Value], TableError>,
) where S::Value: Debug
    requires
        ({
            ||| call_ensures(Table::<S, S::Index, C, G>::contains, (table, key), checked)
            ||| call_ensures(Table::<S, S::Index, C, G>::get_row, (table, key), checked)
            ||| call_ensures(Table::<S, S::Index, C, G>::delete_row, (table, key), checked)
        }),
        key@.len() != table.schema.spec_inner().spec_key().len(),
    ensures
        checked matches Err(TableError::InvalidInput(message)) && exists|
            text: Seq<char>,
            digits: Seq<char>,
        |
            {
                &&& #[trigger] is_debug_text(key, text)
                &&& #[trigger] number(digits) == table.schema.spec_inner().spec_key().len()
                &&& digits.len() > 1 ==> digits[0] != '0'
                &&& message@ == "invalid key: "@ + text + ", expected exactly "@ + digits
                    + " column(s)"@
            },
{
    let key_len = table.spec_key().len();
    lemma_decimal(key_len);
    let message = checked->Err_0->InvalidInput_0@;
    let text = choose|text: Seq<char>| #[trigger]
        is_debug_text(key, text) && message == "invalid key: "@ + text + ", expected exactly "@
            + decimal(key_len) + " column(s)"@;
    assert(is_debug_text(key, text));
    assert(number(decimal(key_len)) == key_len);
}

/// No row has no value.
pub proof fn law_no_value<S: Schema, C, G>(
    table: &Table<S, S::Index, C, G>,
    value: Option<Vec<S::Value>>,
)
    requires
        call_ensures(Table::<S, S::Index, C, G>::get_value, (table, None), value),
    ensures
        value is None,
{
}

/// A row that is inserted is the key and the values that the schema made of those given,
/// and it is refused with the error of the schema: that of the key, or else that of the values.
pub proof fn law_inserted_row<S: Schema, C, G>(
    table: &Table<S, S::Index, C, G>,
    key: Vec<S::Value>,
    values: Vec<S::Value>,
    row: Result<Vec<S::Value>, S::Error>,
)
    requires
        call_ensures(Table::<S, S::Index, C, G>::upsert, (table, key, values), row),
    ensures
        row matches Ok(row) ==> exists|valid_key: Vec<S::Value>, valid_values: Vec<S::Value>|
            {
                &&& #[trigger] call_ensures(
                    S::validate_key,
                    (&table.schema.spec_inner(), key),
                    Ok(valid_key),
                )
                &&& #[trigger] call_ensures(
                    S::validate_values,
                    (&table.schema.spec_inner(), values),
                    Ok(valid_values),
                )
                &&& row@.len() == valid_key@.len() + valid_values@.len()
                &&& forall|i: int|
                    0 <= i < row@.len() ==> #[trigger] row@[i] == if i < valid_key@.len() {
                        valid_key@[i]
                    } else {
                        valid_values@[i - valid_key@.len()]
                    }
            },
        row matches Err(error) ==> {
            ||| call_ensures(
                S::validate_key,
                (&table.schema.spec_inner(), key),
                Err::<Vec<S::Value>, S::Error>(error),
            )
            ||| {
                &&& call_ensures(
                    S::validate_values,
                    (&table.schema.spec_inner(), values),
                    Err::<Vec<S::Value>, S::Error>(error),
                )
                &&& exists|valid_key: Vec<S::Value>| #[trigger]
                    call_ensures(
                        S::validate_key,
                        (&table.schema.spec_inner(), key),
                        Ok(valid_key),
                    )
            }
        },
{
}

/// A row that was inserted has, as its value, the values that the schema made of those given,
/// if the schema made a key of all the columns of the primary key.
pub proof fn law_inserted_value<S: Schema, C, G>(
    table: &Table<S, S::Index, C, G>,
    key: Vec<S::Value>,
    values: Vec<S::Value>,
    row: Vec<S::Value>,
    value: Option<Vec<S::Value>>,
)
    requires
        call_ensures(Table::<S, S::Index, C, G>::upsert, (table, key, values), Ok(row)),
        call_ensures(Table::<S, S::Index, C, G>::get_value, (table, Some(row)), value),
        forall|valid_key: Vec<S::Value>| #[trigger]
            call_ensures(S::validate_key, (&table.schema.spec_inner(), key), Ok(valid_key))
                ==> valid_key@.len() == table.schema.spec_inner().spec_key().len(),
    ensures
        value is Some,
        exists|valid_values: Vec<S::Value>| #[trigger]
            call_ensures(
                S::validate_values,
                (&table.schema.spec_inner(), values),
                Ok(valid_values),
            ) && value->0@ == valid_values@,
{
    let (valid_key, valid_values) = choose|
        valid_key: Vec<S::Value>,
        valid_values: Vec<S::Value>,
    |
        {
            &&& #[trigger] call_ensures(
                S::validate_key,
                (&table.schema.spec_inner(), key),
                Ok(valid_key),
            )
            &&& #[trigger] call_ensures(
                S::validate_values,
                (&table.schema.spec_inner(), values),
                Ok(valid_values),
            )
            &&& row@ == valid_key@ + valid_values@
        };
    law_value_follows_key(table, valid_key@, valid_values@, row, value);
}

/// A row is put together from a key and values, in this order.
pub proof fn law_row<V>(key: Vec<V>, values: Vec<V>, row: Vec<V>)
    requires
        call_ensures(row_of::<V>, (key, values), row),
    ensures
        row@.len() == key@.len() + values@.len(),
        row@.take(key@.len() as int) == key@,
        row@.skip(key@.len() as int) == values@,
{
    assert(row@.take(key@.len() as int) =~= key@);
    assert(row@.skip(key@.len() as int) =~= values@);
}

/// The first row is looked for in the range and the order given,
/// with the columns selected or else those of the key.
pub proof fn law_first<'a, S: Schema, C, G>(
    table: &'a Table<S, S::Index, C, G>,
    range: Range<S::Id, S::Value>,
    order: &'a [S::Id],
    select: Option<&'a [S::Id]>,
    query: RowQuery<'a, S::Id, S::Value>,
    columns: HashMap<S::Id, ColumnRange<S::Value>>,
)
    requires
        call_ensures(Table::<S, S::Index, C, G>::first, (table, range, order, select), query),
        call_ensures(Range::<S::Id, S::Value>::into_inner, (range,), columns),
    ensures
        query.range == columns,
        query.order@ == order@,
        !query.reverse,
        query.key@ == table.schema.spec_inner().spec_key(),
        select matches Some(selected) ==> query.select@ == selected@,
        select is None ==> query.select@ == table.schema.spec_inner().spec_key(),
{
}

/// The rows are looked for in the range and the order given,
/// with the columns selected or else all those of the primary index.
pub proof fn law_rows<'a, S: Schema, C, G>(
    table: &'a Table<S, S::Index, C, G>,
    range: Range<S::Id, S::Value>,
    order: &'a [S::Id],
    reverse: bool,
    select: Option<&'a [S::Id]>,
    query: RowQuery<'a, S::Id, S::Value>,
    columns: HashMap<S::Id, ColumnRange<S::Value>>,
)
    requires
        call_ensures(
            Table::<S, S::Index, C, G>::rows,
            (table, range, order, reverse, select),
            query,
        ),
        call_ensures(Range::<S::Id, S::Value>::into_inner, (range,), columns),
    ensures
        query.range == columns,
        query.order@ == order@,
        query.reverse == reverse,
        query.key@ == table.schema.spec_inner().spec_key(),
        select matches Some(selected) ==> query.select@ == selected@,
        select is None ==> query.select@
            == table.schema.spec_inner().spec_primary().spec_columns(),
{
}

/// All rows are looked for with no range, no order and all columns of the primary index.
pub proof fn law_all_rows<'a, S: Schema, C, G>(
    table: &'a Table<S, S::Index, C, G>,
    query: RowQuery<'a, S::Id, S::Value>,
    name: S::Id,
) where S::Id: Eq + Hash
    requires
        call_ensures(Table::<S, S::Index, C, G>::into_rows, (table,), query),
    ensures
        !query.range@.contains_key(name),
        query.order@.len() == 0,
        !query.reverse,
        query.key@ == table.schema.spec_inner().spec_key(),
        query.select@ == table.schema.spec_inner().spec_primary().spec_columns(),
{
}

/// Rows are counted and deleted, and their absence is found out, in the range given.
/// The plan must give the columns of the key, but not to find out that there are no rows.
pub proof fn law_range_queries<'a, S: Schema, C, G>(
    table: &'a Table<S, S::Index, C, G>,
    range: Range<S::Id, S::Value>,
    counted: RangeQuery<'a, S::Id, S::Value>,
    deleted: RangeQuery<'a, S::Id, S::Value>,
    absent: RangeQuery<'a, S::Id, S::Value>,
    columns: HashMap<S::Id, ColumnRange<S::Value>>,
)
    requires
        call_ensures(Table::<S, S::Index, C, G>::count, (table, range), counted),
        call_ensures(Table::<S, S::Index, C, G>::delete_range, (table, range), deleted),
        call_ensures(Table::<S, S::Index, C, G>::is_empty, (table, range), absent),
        call_ensures(Range::<S::Id, S::Value>::into_inner, (range,), columns),
    ensures
        counted.range == columns && deleted.range == columns && absent.range == columns,
        counted.order@.len() == 0 && deleted.order@.len() == 0 && absent.order@.len() == 0,
        counted.key@ == table.schema.spec_inner().spec_key(),
        deleted.key@ == table.schema.spec_inner().spec_key(),
        absent.key@ == table.schema.spec_inner().spec_key(),
        counted.plan_key@ == table.schema.spec_inner().spec_key(),
        deleted.plan_key@ == table.schema.spec_inner().spec_key(),
        absent.plan_key@.len() == 0,
{
}

/// Another table is merged just if its schema is the same, with all of its indices as they are,
/// and else the error tells both schemata.
pub proof fn law_merged_table<S: Schema + PartialEq + Debug, C, G, G2>(
    same: spec_fn(S, S) -> bool,
    table: &Table<S, S::Index, C, G>,
    other: Table<S, S::Index, C, G2>,
    rows: Result<TableState<S::Index, C, G2>, TableError>,
)
    requires
        decides(same),
        call_ensures(Table::<S, S::Index, C, G>::merge::<G2>, (table, other), rows),
    ensures
        rows is Ok <==> same(table.schema.spec_inner(), other.schema.spec_inner()),
        rows matches Ok(state) ==> state == other.state,
        rows matches Err(error) ==> error matches TableError::InvalidInput(message) && exists|
            theirs: Seq<char>,
            own: Seq<char>,
        |
            {
                &&& #[trigger] is_debug_text(&other.schema.spec_inner(), theirs)
                &&& #[trigger] is_debug_text(&table.schema.spec_inner(), own)
                &&& message@ == "cannot merge a table with schema "@ + theirs
                    + " into one with schema "@ + own
            },
{
}

/// The rows of another table are deleted just if its schema is the same,
/// with all of its indices as they are, and else the error tells both schemata.
pub proof fn law_deleted_table<S: Schema + PartialEq + Debug, C, G, G2>(
    same: spec_fn(S, S) -> bool,
    table: &Table<S, S::Index, C, G>,
    other: Table<S, S::Index, C, G2>,
    rows: Result<TableState<S::Index, C, G2>, TableError>,
)
    requires
        decides(same),
        call_ensures(Table::<S, S::Index, C, G>::delete_all::<G2>, (table, other), rows),
    ensures
        rows is Ok <==> same(table.schema.spec_inner(), other.schema.spec_inner()),
        rows matches Ok(state) ==> state == other.state,
        rows matches Err(error) ==> error matches TableError::InvalidInput(message) && exists|
            theirs: Seq<char>,
            own: Seq<char>,
        |
            {
                &&& #[trigger] is_debug_text(&other.schema.spec_inner(), theirs)
                &&& #[trigger] is_debug_text(&table.schema.spec_inner(), own)
                &&& message@ == "cannot delete the contents of a table with schema "@ + theirs
                    + " from one with schema "@ + own
            },
{
}

/// A table is described by its schema.
pub proof fn law_description<S: Debug, IS, C, G>(table: &Table<S, IS, C, G>, description: String)
    requires
        call_ensures(Table::<S, IS, C, G>::describe, (table,), description),
    ensures
        exists|text: Seq<char>| #[trigger]
            is_debug_text(&table.schema.spec_inner(), text) && description@
                == "table with schema "@ + text,
{
}

/// A range gives back the ranges of columns that it was made of, and a schema the one it wraps,
/// and a query on an index its columns.
pub proof fn law_wrapped_values<'a, K, V, S>(
    columns: HashMap<K, ColumnRange<V>>,
    range: Range<K, V>,
    unwrapped: HashMap<K, ColumnRange<V>>,
    schema: S,
    wrapped: TableSchema<S>,
    inner: &S,
    names: &'a [K],
    query: IndexQuery<'a, K>,
    queried: &'a [K],
)
    requires
        call_ensures(Range::<K, V>::new, (columns,), range),
        call_ensures(Range::<K, V>::into_inner, (range,), unwrapped),
        call_ensures(TableSchema::<S>::new, (schema,), wrapped),
        call_ensures(TableSchema::<S>::inner, (&wrapped,), inner),
        call_ensures(IndexQuery::<K>::new, (names,), query),
        call_ensures(IndexQuery::<K>::range, (&query,), queried),
    ensures
        unwrapped == columns,
        *inner == schema,
        queried@ == names@,
{
}

/// The default range restricts no column.
pub proof fn law_free_range<K: Hash + Eq, V>(
    range: Range<K, V>,
    columns: HashMap<K, ColumnRange<V>>,
    name: K,
)
    requires
        call_ensures(Range::<K, V>::default, (), range),
        call_ensures(Range::<K, V>::into_inner, (range,), columns),
    ensures
        !columns@.contains_key(name),
{
}

} // verus!

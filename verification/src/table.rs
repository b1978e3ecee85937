//! A table that is locked, and what it asks of its indices.

use std::collections::HashMap;
use std::fmt::Debug;
use std::sync::Arc;

use vstd::prelude::*;

use crate::equality::decides;
use crate::error::TableError;
use crate::schema::{ColumnRange, IndexSchema, Range, Schema, TableSchema};
use crate::storage::{ReadGuard, WriteGuard};
use crate::text::{debug_string, is_debug_text};

use table_state::{is_downgraded, TableState};
use validity::{bad_key, is_bad_key_message};

pub mod acquire;
pub mod columns;
pub mod opening;
pub mod ranges;
pub mod table_lock;
pub mod table_state;
pub mod validity;

verus! {

/// A table that is locked, with its indices.
#[verifier::reject_recursive_types(S)]
#[verifier::reject_recursive_types(IS)]
#[verifier::reject_recursive_types(C)]
#[verifier::reject_recursive_types(G)]
pub struct Table<S, IS, C, G> {
    /// The schema of the table.
    pub schema: Arc<TableSchema<S>>,
    /// The indices of the table.
    pub state: TableState<IS, C, G>,
}

/// A table that is locked for reading.
pub type TableReadGuard<S, IS, C, FE> = Table<S, IS, C, ReadGuard<FE>>;

/// A table that is locked for writing.
pub type TableWriteGuard<S, IS, C, FE> = Table<S, IS, C, WriteGuard<FE>>;

/// A query for the rows in a range.
#[verifier::reject_recursive_types(K)]
pub struct RowQuery<'a, K, V> {
    /// The values of the columns of the rows.
    pub range: HashMap<K, ColumnRange<V>>,
    /// The columns by which to order the rows.
    pub order: &'a [K],
    /// Whether to reverse the order.
    pub reverse: bool,
    /// The columns of the rows to return.
    pub select: &'a [K],
    /// The columns of the primary key, both for the plan of the query and for its execution.
    pub key: &'a [K],
}

/// A query on a range as a whole.
#[verifier::reject_recursive_types(K)]
pub struct RangeQuery<'a, K, V> {
    /// The values of the columns of the rows.
    pub range: HashMap<K, ColumnRange<V>>,
    /// The columns by which the plan of the query must order the rows: none.
    pub order: &'a [K],
    /// The columns that the plan of the query must give, besides those of the range.
    pub plan_key: &'a [K],
    /// The columns of the primary key.
    pub key: &'a [K],
}

/// The columns of a row that follow its primary key, which has `key_len` columns.
pub open spec fn value_columns<V>(row: Seq<V>, key_len: nat) -> Seq<V> {
    row.skip(key_len as int)
}

/// `message` tells that `other` and `own` differ, where `before` and `between` say what for.
pub open spec fn is_mismatch_message<S: Debug>(
    before: Seq<char>,
    other: S,
    between: Seq<char>,
    own: S,
    message: Seq<char>,
) -> bool {
    exists|other_text: Seq<char>, own_text: Seq<char>|
        {
            &&& #[trigger] is_debug_text(&other, other_text)
            &&& #[trigger] is_debug_text(&own, own_text)
            &&& message == before + other_text + between + own_text
        }
}

/// The error for two tables whose schemata differ.
fn mismatch<S: Debug>(before: &str, other: &S, between: &str, own: &S) -> (error: TableError)
    ensures
        error matches TableError::InvalidInput(message) && is_mismatch_message(
            before@,
            *other,
            between@,
            *own,
            message@,
        ),
{
    let other_text = debug_string(other);
    let own_text = debug_string(own);
    let mut message = before.to_owned();
    message.append(other_text.as_str());
    message.append(between);
    message.append(own_text.as_str());
    TableError::InvalidInput(message)
}

/// Put together a row from the columns of its key and those of its value.
pub fn row_of<V>(key: Vec<V>, values: Vec<V>) -> (row: Vec<V>)
    ensures
        row@ == key@ + values@,
{
    let mut row = key;
    let mut values = values;
    row.append(&mut values);
    row
}

impl<S, IS, C: Clone, G: Clone> Clone for Table<S, IS, C, G> {
    fn clone(&self) -> (copy: Self)
        ensures
            copy.schema == self.schema,
            cloned(self.state, copy.state),
    {
        Table { schema: self.schema.clone(), state: self.state.clone() }
    }
}

impl<S: Debug, IS, C, G> Table<S, IS, C, G> {
    /// Describe this table by its schema.
    pub fn describe(&self) -> (description: String)
        ensures
            exists|text: Seq<char>| #[trigger]
                is_debug_text(&self.schema.spec_inner(), text) && description@
                    == "table with schema "@ + text,
    {
        let text = debug_string(self.schema.inner());
        let mut description = "table with schema ".to_owned();
        description.append(text.as_str());
        description
    }
}

impl<S: Schema, C, G> Table<S, S::Index, C, G> {
    /// The columns of the primary key.
    pub open spec fn spec_key(self) -> Seq<S::Id> {
        self.schema.spec_inner().spec_key()
    }

    /// `checked` is the `key`, if it has as many columns as the primary key,
    /// and else the error that says so.
    pub open spec fn is_key_check(
        self,
        key: &[S::Value],
        checked: Result<&[S::Value], TableError>,
    ) -> bool where S::Value: Debug {
        match checked {
            Ok(checked) => key@.len() == self.spec_key().len() && checked == key,
            Err(error) => {
                &&& key@.len() != self.spec_key().len()
                &&& error matches TableError::InvalidInput(message) && is_bad_key_message(
                    key,
                    self.spec_key().len(),
                    message@,
                )
            },
        }
    }

    /// `rows` are the indices of the `other` table, if it has the same schema as this one,
    /// and else the error that says so, where `before` and `between` say what for.
    pub open spec fn is_schema_check<G2>(
        self,
        other: Table<S, S::Index, C, G2>,
        before: Seq<char>,
        between: Seq<char>,
        rows: Result<TableState<S::Index, C, G2>, TableError>,
    ) -> bool where S: PartialEq + Debug {
        let own = self.schema.spec_inner();
        &&& forall|same: spec_fn(S, S) -> bool| #[trigger]
            decides(same) ==> (rows is Ok <==> same(own, other.schema.spec_inner()))
        &&& match rows {
            Ok(state) => state == other.state,
            Err(error) => error matches TableError::InvalidInput(message) && is_mismatch_message(
                before,
                other.schema.spec_inner(),
                between,
                own,
                message@,
            ),
        }
    }

    /// Pass on a `key` that has as many columns as the primary key.
    fn checked_key<'a>(&self, key: &'a [S::Value]) -> (checked: Result<
        &'a [S::Value],
        TableError,
    >) where S::Value: Debug
        ensures
            self.is_key_check(key, checked),
    {
        let key_len = self.schema.inner().key().len();
        if key.len() == key_len {
            Ok(key)
        } else {
            Err(bad_key(key, key_len))
        }
    }

    /// The key for which to look, to find out if it is present in this table.
    pub fn contains<'a>(&self, key: &'a [S::Value]) -> (checked: Result<
        &'a [S::Value],
        TableError,
    >) where S::Value: Debug
        ensures
            self.is_key_check(key, checked),
            checked is Ok <==> key@.len() == self.schema.spec_inner().spec_key().len(),
            checked matches Ok(found) ==> found@ == key@,
    {
        self.checked_key(key)
    }

    /// The key of the row to look up.
    pub fn get_row<'a>(&self, key: &'a [S::Value]) -> (checked: Result<
        &'a [S::Value],
        TableError,
    >) where S::Value: Debug
        ensures
            self.is_key_check(key, checked),
            checked is Ok <==> key@.len() == self.schema.spec_inner().spec_key().len(),
            checked matches Ok(found) ==> found@ == key@,
    {
        self.checked_key(key)
    }

    /// The key of the row to delete.
    pub fn delete_row<'a>(&self, key: &'a [S::Value]) -> (checked: Result<
        &'a [S::Value],
        TableError,
    >) where S::Value: Debug
        ensures
            self.is_key_check(key, checked),
            checked is Ok <==> key@.len() == self.schema.spec_inner().spec_key().len(),
            checked matches Ok(found) ==> found@ == key@,
    {
        self.checked_key(key)
    }

    /// The value of a row that was looked up: what follows its key.
    pub fn get_value(&self, row: Option<Vec<S::Value>>) -> (value: Option<Vec<S::Value>>)
        requires
            row matches Some(row) ==> self.spec_key().len() <= row@.len(),
        ensures
            match (row, value) {
                (Some(row), Some(value)) => value@ == value_columns(row@, self.spec_key().len()),
                (None, None) => true,
                _ => false,
            },
    {
        let key_len = self.schema.inner().key().len();
        match row {
            Some(row) => {
                let mut row = row;
                Some(row.split_off(key_len))
            },
            None => None,
        }
    }

    /// The query for the first row in the given `range` using the given `order`.
    /// Without a selection of columns this selects those of the key.
    pub fn first<'a>(
        &'a self,
        range: Range<S::Id, S::Value>,
        order: &'a [S::Id],
        select: Option<&'a [S::Id]>,
    ) -> (query: RowQuery<'a, S::Id, S::Value>)
        ensures
            query.range == range.spec_columns(),
            query.order == order,
            !query.reverse,
            query.select@ == (match select {
                Some(columns) => columns@,
                None => self.spec_key(),
            }),
            query.key@ == self.spec_key(),
    {
        let key = self.schema.inner().key();
        let select = match select {
            Some(columns) => columns,
            None => key,
        };
        RowQuery { range: range.into_inner(), order, reverse: false, select, key }
    }

    /// The query for the rows in the given `range`, in the given `order` or its reverse.
    /// Without a selection of columns this selects all of them.
    pub fn rows<'a>(
        &'a self,
        range: Range<S::Id, S::Value>,
        order: &'a [S::Id],
        reverse: bool,
        select: Option<&'a [S::Id]>,
    ) -> (query: RowQuery<'a, S::Id, S::Value>)
        ensures
            query.range == range.spec_columns(),
            query.order == order,
            query.reverse == reverse,
            query.select@ == (match select {
                Some(columns) => columns@,
                None => self.schema.spec_inner().spec_primary().spec_columns(),
            }),
            query.key@ == self.spec_key(),
    {
        let schema = self.schema.inner();
        let select = match select {
            Some(columns) => columns,
            None => schema.primary().columns(),
        };
        RowQuery { range: range.into_inner(), order, reverse, select, key: schema.key() }
    }

    /// The query for all rows of this table, with all of their columns, in no given order.
    pub fn into_rows<'a>(&'a self) -> (query: RowQuery<'a, S::Id, S::Value>) where
        S::Id: Eq + std::hash::Hash,

        ensures
            query.range@ == Map::<S::Id, ColumnRange<S::Value>>::empty(),
            query.order@.len() == 0,
            !query.reverse,
            query.select@ == self.schema.spec_inner().spec_primary().spec_columns(),
            query.key@ == self.spec_key(),
    {
        self.rows(Range::default(), &[], false, None)
    }

    /// The query for the number of rows in the given `range`.
    pub fn count<'a>(&'a self, range: Range<S::Id, S::Value>) -> (query: RangeQuery<
        'a,
        S::Id,
        S::Value,
    >)
        ensures
            query.range == range.spec_columns(),
            query.order@.len() == 0,
            query.plan_key@ == self.spec_key(),
            query.key@ == self.spec_key(),
    {
        let key = self.schema.inner().key();
        RangeQuery { range: range.into_inner(), order: &[], plan_key: key, key }
    }

    /// The query if there are no rows in the given `range`.
    pub fn is_empty<'a>(&'a self, range: Range<S::Id, S::Value>) -> (query: RangeQuery<
        'a,
        S::Id,
        S::Value,
    >)
        ensures
            query.range == range.spec_columns(),
            query.order@.len() == 0,
            query.plan_key@.len() == 0,
            query.key@ == self.spec_key(),
    {
        RangeQuery { range: range.into_inner(), order: &[], plan_key: &[], key: self.schema.inner().key() }
    }

    /// The query for the rows in the given `range`, which are to be deleted.
    pub fn delete_range<'a>(&'a self, range: Range<S::Id, S::Value>) -> (query: RangeQuery<
        'a,
        S::Id,
        S::Value,
    >)
        ensures
            query.range == range.spec_columns(),
            query.order@.len() == 0,
            query.plan_key@ == self.spec_key(),
            query.key@ == self.spec_key(),
    {
        let key = self.schema.inner().key();
        RangeQuery { range: range.into_inner(), order: &[], plan_key: key, key }
    }

    /// The indices of the `other` table, all of whose rows are to be deleted from this one.
    /// The `other` table must have an equal schema.
    pub fn delete_all<G2>(&self, other: Table<S, S::Index, C, G2>) -> (rows: Result<
        TableState<S::Index, C, G2>,
        TableError,
    >) where S: PartialEq + Debug
        ensures
            self.is_schema_check(
                other,
                "cannot delete the contents of a table with schema "@,
                " from one with schema "@,
                rows,
            ),
    {
        if self.schema.inner().eq(other.schema.inner()) {
            Ok(other.state)
        } else {
            Err(
                mismatch(
                    "cannot delete the contents of a table with schema ",
                    other.schema.inner(),
                    " from one with schema ",
                    self.schema.inner(),
                ),
            )
        }
    }

    /// The indices of the `other` table, all of whose rows are to be inserted into this one.
    /// The `other` table must have an equal schema.
    pub fn merge<G2>(&self, other: Table<S, S::Index, C, G2>) -> (rows: Result<
        TableState<S::Index, C, G2>,
        TableError,
    >) where S: PartialEq + Debug
        ensures
            self.is_schema_check(
                other,
                "cannot merge a table with schema "@,
                " into one with schema "@,
                rows,
            ),
    {
        if self.schema.inner().eq(other.schema.inner()) {
            Ok(other.state)
        } else {
            Err(
                mismatch(
                    "cannot merge a table with schema ",
                    other.schema.inner(),
                    " into one with schema ",
                    self.schema.inner(),
                ),
            )
        }
    }

    /// The row to insert or to update, once the schema has validated its `key` and its `values`.
    pub fn upsert(&self, key: Vec<S::Value>, values: Vec<S::Value>) -> (row: Result<
        Vec<S::Value>,
        S::Error,
    >)
        ensures
            match row {
                Ok(row) => exists|valid_key: Vec<S::Value>, valid_values: Vec<S::Value>|
                    {
                        &&& #[trigger] call_ensures(
                            S::validate_key,
                            (&self.schema.spec_inner(), key),
                            Ok(valid_key),
                        )
                        &&& #[trigger] call_ensures(
                            S::validate_values,
                            (&self.schema.spec_inner(), values),
                            Ok(valid_values),
                        )
                        &&& row@ == valid_key@ + valid_values@
                    },
                Err(error) => {
                    ||| call_ensures(
                        S::validate_key,
                        (&self.schema.spec_inner(), key),
                        Err(error),
                    )
                    ||| exists|valid_key: Vec<S::Value>|
                        {
                            &&& #[trigger] call_ensures(
                                S::validate_key,
                                (&self.schema.spec_inner(), key),
                                Ok(valid_key),
                            )
                            &&& call_ensures(
                                S::validate_values,
                                (&self.schema.spec_inner(), values),
                                Err(error),
                            )
                        }
                },
            },
    {
        let schema = self.schema.inner();
        match schema.validate_key(key) {
            Ok(valid_key) => match schema.validate_values(values) {
                Ok(valid_values) => Ok(row_of(valid_key, valid_values)),
                Err(error) => Err(error),
            },
            Err(error) => Err(error),
        }
    }
}

impl<S, IS, C, FE> Table<S, IS, C, WriteGuard<FE>> {
    /// Downgrade this write lock to a read lock.
    pub fn downgrade(self) -> (table: TableReadGuard<S, IS, C, FE>)
        ensures
            table.schema == self.schema,
            is_downgraded(self.state, table.state),
    {
        Table { schema: self.schema, state: self.state.downgrade() }
    }
}

} // verus!

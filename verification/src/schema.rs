//! The schema of a table, and the ranges that select rows of it.

use std::collections::HashMap;
use std::hash::Hash;
use std::ops::Bound;
use vstd::prelude::*;

verus! {

/// The end of a range of values.
#[verifier::external_type_specification]
pub struct ExBound<T>(Bound<T>);

/// The schema of one index of a table.
///
/// An implementation that is to be verified defines `spec_columns`. For one that does not,
/// it is some function of the schema, of which no more is known than what `columns` ensures.
pub trait IndexSchema: Sized {
    /// The type of a column name.
    type Id;

    /// The names of the columns of the index, in order.
    closed spec fn spec_columns(&self) -> Seq<Self::Id> {
        arbitrary::<spec_fn(Self) -> Seq<Self::Id>>()(*self)
    }

    /// Borrow the names of the columns of the index.
    fn columns(&self) -> (columns: &[Self::Id])
        ensures
            columns@ == self.spec_columns(),
    ;
}

/// The schema of a table.
///
/// An implementation that is to be verified defines `spec_key`, `spec_primary` and
/// `spec_auxiliary`. For one that does not, they are some functions of the schema,
/// of which no more is known than what `key`, `primary` and `auxiliary` ensure.
pub trait Schema: Sized {
    /// The type of a column name.
    type Id;

    /// The type of a value in a row.
    type Value;

    /// The type of error with which a row is refused.
    type Error;

    /// The type of schema of an index.
    type Index: IndexSchema<Id = Self::Id>;

    /// The names of the columns of the primary key.
    closed spec fn spec_key(&self) -> Seq<Self::Id> {
        arbitrary::<spec_fn(Self) -> Seq<Self::Id>>()(*self)
    }

    /// The schema of the primary index.
    closed spec fn spec_primary(&self) -> Self::Index {
        arbitrary::<spec_fn(Self) -> Self::Index>()(*self)
    }

    /// The name and the schema of each auxiliary index.
    closed spec fn spec_auxiliary(&self) -> Seq<(String, Self::Index)> {
        arbitrary::<spec_fn(Self) -> Seq<(String, Self::Index)>>()(*self)
    }

    /// Borrow the names of the columns of the primary key.
    fn key(&self) -> (key: &[Self::Id])
        ensures
            key@ == self.spec_key(),
    ;

    /// Borrow the schema of the primary index, which has all the columns of the table.
    fn primary(&self) -> (primary: &Self::Index)
        ensures
            *primary == self.spec_primary(),
    ;

    /// Borrow the names and the schemata of the auxiliary indices.
    fn auxiliary(&self) -> (auxiliary: &[(String, Self::Index)])
        ensures
            auxiliary@ == self.spec_auxiliary(),
    ;

    /// Return a valid version of the given `key`, or refuse it.
    fn validate_key(&self, key: Vec<Self::Value>) -> Result<Vec<Self::Value>, Self::Error>;

    /// Return a valid version of the given `values`, or refuse them.
    fn validate_values(&self, values: Vec<Self::Value>) -> Result<Vec<Self::Value>, Self::Error>;
}

/// The schema of a table, as a table holds it.
pub struct TableSchema<S> {
    inner: S,
}

impl<S> TableSchema<S> {
    /// The underlying schema.
    pub closed spec fn spec_inner(self) -> S {
        self.inner
    }

    /// Wrap the given `schema`.
    pub fn new(schema: S) -> (wrapped: Self)
        ensures
            wrapped.spec_inner() == schema,
    {
        TableSchema { inner: schema }
    }

    /// Borrow the underlying schema.
    pub fn inner(&self) -> (schema: &S)
        ensures
            *schema == self.spec_inner(),
    {
        &self.inner
    }
}

/// The values of one column that a range selects.
pub enum ColumnRange<V> {
    /// Exactly this value.
    Eq(V),
    /// The values between these bounds.
    In((Bound<V>, Bound<V>)),
}

/// A selection of rows of a table by the values of some of its columns.
#[verifier::reject_recursive_types(K)]
pub struct Range<K, V> {
    columns: HashMap<K, ColumnRange<V>>,
}

impl<K, V> Range<K, V> {
    /// The range of each column that is not free.
    pub closed spec fn spec_columns(self) -> HashMap<K, ColumnRange<V>> {
        self.columns
    }

    /// The rows in which every one of the given columns is in its range.
    pub fn new(columns: HashMap<K, ColumnRange<V>>) -> (range: Self)
        ensures
            range.spec_columns() == columns,
    {
        Range { columns }
    }

    /// Return the range of each column.
    pub fn into_inner(self) -> (columns: HashMap<K, ColumnRange<V>>)
        ensures
            columns == self.spec_columns(),
    {
        self.columns
    }
}

impl<K: Hash + Eq, V> Default for Range<K, V> {
    /// The range of all rows.
    fn default() -> (range: Self)
        ensures
            range.spec_columns()@ == Map::<K, ColumnRange<V>>::empty(),
    {
        Range { columns: HashMap::new() }
    }
}

} // verus!

//! Checking a schema, and the key of a row.

use std::fmt::{Debug, Display};
use vstd::prelude::*;

use super::columns::{has_column, has_columns, position};
use crate::equality::decides;
use crate::error::TableError;
use crate::schema::{IndexSchema, Schema};
use crate::text::{debug_string, decimal, decimal_string, is_debug_text};

verus! {

/// What is wrong with one index.
pub enum IndexFault {
    /// The index has no columns.
    Empty,
    /// The column of the index at this place is not a column of the table.
    UnknownColumn(usize),
    /// The column of the primary key at this place is not a column of the index.
    MissingKeyColumn(usize),
}

/// What is wrong with a schema.
pub enum SchemaFault {
    /// The table has no columns.
    NoColumns,
    /// The auxiliary index at this place is not valid.
    Index(usize, IndexFault),
}

/// `i` is the place of the first of the `names` that is not among the `columns`.
pub open spec fn is_first_missing<K>(
    same: spec_fn(K, K) -> bool,
    columns: Seq<K>,
    names: Seq<K>,
    i: int,
) -> bool {
    &&& 0 <= i < names.len()
    &&& !has_column(same, columns, names[i])
    &&& has_columns(same, columns, names.take(i))
}

/// An index with the given `columns` is valid in a table whose columns are `primary`
/// and whose key is `key`: it has columns, all of them columns of the table,
/// and all columns of the key are among them.
pub open spec fn is_valid_index<K>(
    same: spec_fn(K, K) -> bool,
    primary: Seq<K>,
    key: Seq<K>,
    columns: Seq<K>,
) -> bool {
    &&& columns.len() > 0
    &&& has_columns(same, primary, columns)
    &&& has_columns(same, columns, key)
}

/// `fault` is the first thing that is wrong with an index with the given `columns`.
pub open spec fn is_index_fault<K>(
    same: spec_fn(K, K) -> bool,
    primary: Seq<K>,
    key: Seq<K>,
    columns: Seq<K>,
    fault: IndexFault,
) -> bool {
    match fault {
        IndexFault::Empty => columns.len() == 0,
        IndexFault::UnknownColumn(i) => is_first_missing(same, primary, columns, i as int),
        IndexFault::MissingKeyColumn(i) => {
            &&& columns.len() > 0
            &&& has_columns(same, primary, columns)
            &&& is_first_missing(same, columns, key, i as int)
        },
    }
}

/// The auxiliary index at place `i` of the `schema` is valid.
pub open spec fn is_valid_auxiliary<S: Schema>(
    same: spec_fn(S::Id, S::Id) -> bool,
    schema: S,
    i: int,
) -> bool {
    is_valid_index(
        same,
        schema.spec_primary().spec_columns(),
        schema.spec_key(),
        schema.spec_auxiliary()[i].1.spec_columns(),
    )
}

/// A `schema` is valid if the table has columns and all of its auxiliary indices are valid.
pub open spec fn is_valid_schema<S: Schema>(
    same: spec_fn(S::Id, S::Id) -> bool,
    schema: S,
) -> bool {
    &&& schema.spec_primary().spec_columns().len() > 0
    &&& forall|i: int|
        0 <= i < schema.spec_auxiliary().len() ==> #[trigger] is_valid_auxiliary(same, schema, i)
}

/// The `schema` is valid, as the operator `==` of its column names decides.
pub open spec fn is_accepted_schema<S: Schema>(schema: S) -> bool where S::Id: PartialEq {
    forall|same: spec_fn(S::Id, S::Id) -> bool| #[trigger]
        decides(same) ==> is_valid_schema(same, schema)
}

/// `fault` is the first thing that is wrong with the `schema`.
pub open spec fn is_schema_fault<S: Schema>(
    same: spec_fn(S::Id, S::Id) -> bool,
    schema: S,
    fault: SchemaFault,
) -> bool {
    let primary = schema.spec_primary().spec_columns();
    match fault {
        SchemaFault::NoColumns => primary.len() == 0,
        SchemaFault::Index(i, index_fault) => {
            &&& primary.len() > 0
            &&& i < schema.spec_auxiliary().len()
            &&& forall|j: int| 0 <= j < i ==> #[trigger] is_valid_auxiliary(same, schema, j)
            &&& is_index_fault(
                same,
                primary,
                schema.spec_key(),
                schema.spec_auxiliary()[i as int].1.spec_columns(),
                index_fault,
            )
        },
    }
}

/// `message` tells of the given `fault` of the `schema`.
pub open spec fn is_fault_message<S: Schema + Debug>(
    schema: S,
    fault: SchemaFault,
    message: Seq<char>,
) -> bool where S::Id: Display {
    match fault {
        SchemaFault::NoColumns => exists|text: Seq<char>| #[trigger]
            is_debug_text(&schema, text) && message == text + " contains no columns"@,
        SchemaFault::Index(i, index_fault) => {
            let (name, index) = schema.spec_auxiliary()[i as int];
            match index_fault {
                IndexFault::Empty => message == "index "@ + name@ + " is empty"@,
                IndexFault::UnknownColumn(c) => exists|text: String| #[trigger]
                    vstd::string::to_string_from_display_ensures::<S::Id>(
                        &index.spec_columns()[c as int],
                        text,
                    ) && message == "index "@ + name@ + " refers to unknown column "@ + text@,
                IndexFault::MissingKeyColumn(c) => exists|text: String| #[trigger]
                    vstd::string::to_string_from_display_ensures::<S::Id>(
                        &schema.spec_key()[c as int],
                        text,
                    ) && message == "index "@ + name@ + " is missing primary key column "@ + text@,
            }
        },
    }
}

/// The place of the first of the `names` that is not among the `columns`.
fn first_missing<K: PartialEq>(columns: &[K], names: &[K]) -> (missing: Option<usize>)
    ensures
        missing matches Some(i) ==> i < names@.len(),
        forall|same: spec_fn(K, K) -> bool| #[trigger]
            decides(same) ==> match missing {
                Some(i) => is_first_missing(same, columns@, names@, i as int),
                None => has_columns(same, columns@, names@),
            },
{
    let mut i: usize = 0;
    while i < names.len()
        invariant
            i <= names@.len(),
            forall|same: spec_fn(K, K) -> bool, j: int|
                #![trigger decides(same), names@[j]]
                decides(same) && 0 <= j < i ==> has_column(same, columns@, names@[j]),
        decreases names@.len() - i,
    {
        if position(columns, &names[i]).is_none() {
            return Some(i);
        }
        i += 1;
    }
    None
}

/// Find the first thing that is wrong with an index.
fn index_fault<K: PartialEq>(primary: &[K], key: &[K], columns: &[K]) -> (fault: Option<IndexFault>)
    ensures
        fault matches Some(IndexFault::UnknownColumn(i)) ==> i < columns@.len(),
        fault matches Some(IndexFault::MissingKeyColumn(i)) ==> i < key@.len(),
        forall|same: spec_fn(K, K) -> bool| #[trigger]
            decides(same) ==> match fault {
                Some(fault) => is_index_fault(same, primary@, key@, columns@, fault),
                None => is_valid_index(same, primary@, key@, columns@),
            },
{
    if columns.len() == 0 {
        return Some(IndexFault::Empty);
    }
    if let Some(i) = first_missing(primary, columns) {
        return Some(IndexFault::UnknownColumn(i));
    }
    match first_missing(columns, key) {
        Some(i) => Some(IndexFault::MissingKeyColumn(i)),
        None => None,
    }
}

/// Find the first thing that is wrong with a `schema`.
pub fn schema_fault<S: Schema>(schema: &S) -> (fault: Option<SchemaFault>) where S::Id: PartialEq
    ensures
        fault matches Some(SchemaFault::Index(i, index_fault)) ==> {
            &&& i < schema.spec_auxiliary().len()
            &&& index_fault matches IndexFault::UnknownColumn(c) ==> c
                < schema.spec_auxiliary()[i as int].1.spec_columns().len()
            &&& index_fault matches IndexFault::MissingKeyColumn(c) ==> c < schema.spec_key().len()
        },
        forall|same: spec_fn(S::Id, S::Id) -> bool| #[trigger]
            decides(same) ==> match fault {
                Some(fault) => is_schema_fault(same, *schema, fault),
                None => is_valid_schema(same, *schema),
            },
{
    let primary = schema.primary().columns();
    if primary.len() == 0 {
        return Some(SchemaFault::NoColumns);
    }
    let auxiliary = schema.auxiliary();
    let mut i: usize = 0;
    while i < auxiliary.len()
        invariant
            i <= auxiliary@.len(),
            primary@ == schema.spec_primary().spec_columns(),
            primary@.len() > 0,
            auxiliary@ == schema.spec_auxiliary(),
            forall|same: spec_fn(S::Id, S::Id) -> bool, j: int|
                #![trigger is_valid_auxiliary(same, *schema, j)]
                decides(same) && 0 <= j < i ==> is_valid_auxiliary(same, *schema, j),
        decreases auxiliary@.len() - i,
    {
        if let Some(fault) = index_fault(primary, schema.key(), auxiliary[i].1.columns()) {
            return Some(SchemaFault::Index(i, fault));
        }
        assert(forall|same: spec_fn(S::Id, S::Id) -> bool| #[trigger]
            decides(same) ==> is_valid_auxiliary(same, *schema, i as int));
        i += 1;
    }
    None
}

/// Put a `fault` of the `schema` into words.
pub fn fault_message<S: Schema + Debug>(schema: &S, fault: SchemaFault) -> (message: String) where
    S::Id: Display,

    requires
        fault matches SchemaFault::Index(i, index_fault) ==> {
            &&& i < schema.spec_auxiliary().len()
            &&& index_fault matches IndexFault::UnknownColumn(c) ==> c
                < schema.spec_auxiliary()[i as int].1.spec_columns().len()
            &&& index_fault matches IndexFault::MissingKeyColumn(c) ==> c < schema.spec_key().len()
        },
    ensures
        is_fault_message(*schema, fault, message@),
{
    match fault {
        SchemaFault::NoColumns => {
            let mut message = debug_string(schema);
            message.append(" contains no columns");
            message
        },
        SchemaFault::Index(i, index_fault) => {
            let (name, index) = &schema.auxiliary()[i];
            let mut message = "index ".to_owned();
            message.append(name.as_str());
            match index_fault {
                IndexFault::Empty => {
                    message.append(" is empty");
                },
                IndexFault::UnknownColumn(c) => {
                    let column = index.columns()[c].to_string();
                    message.append(" refers to unknown column ");
                    message.append(column.as_str());
                },
                IndexFault::MissingKeyColumn(c) => {
                    let column = schema.key()[c].to_string();
                    message.append(" is missing primary key column ");
                    message.append(column.as_str());
                },
            }
            message
        },
    }
}

/// `error` is the error with which the `schema` is refused.
pub open spec fn is_schema_error<S: Schema + Debug>(
    same: spec_fn(S::Id, S::Id) -> bool,
    schema: S,
    error: TableError,
) -> bool where S::Id: Display {
    exists|fault: SchemaFault, message: Seq<char>|
        {
            &&& #[trigger] is_schema_fault(same, schema, fault)
            &&& #[trigger] is_fault_message(schema, fault, message)
            &&& error.is_invalid_input(message)
        }
}

/// A schema with a fault is not valid.
pub proof fn lemma_fault<S: Schema>(
    same: spec_fn(S::Id, S::Id) -> bool,
    schema: S,
    fault: SchemaFault,
)
    requires
        is_schema_fault(same, schema, fault),
    ensures
        !is_valid_schema(same, schema),
{
    if let SchemaFault::Index(i, index_fault) = fault {
        let primary = schema.spec_primary().spec_columns();
        let columns = schema.spec_auxiliary()[i as int].1.spec_columns();
        if is_valid_auxiliary(same, schema, i as int) {
            match index_fault {
                IndexFault::Empty => {},
                IndexFault::UnknownColumn(c) => {
                    assert(has_column(same, primary, columns[c as int]));
                },
                IndexFault::MissingKeyColumn(c) => {
                    assert(has_column(same, columns, schema.spec_key()[c as int]));
                },
            }
        }
    }
}

/// Check that a `schema` is valid.
pub fn valid_schema<S: Schema + Debug>(schema: &S) -> (checked: Result<(), TableError>) where
    S::Id: PartialEq + Display,

    ensures
        forall|same: spec_fn(S::Id, S::Id) -> bool| #[trigger]
            decides(same) ==> {
                &&& checked is Ok <==> is_valid_schema(same, *schema)
                &&& checked matches Err(error) ==> is_schema_error(same, *schema, error)
            },
        checked matches Err(error) ==> error is InvalidInput,
{
    match schema_fault(schema) {
        Some(fault) => {
            let message = fault_message(schema, fault);
            proof {
                assert(is_fault_message(*schema, fault, message@));
                assert forall|same: spec_fn(S::Id, S::Id) -> bool| #[trigger]
                    decides(same) implies !is_valid_schema(same, *schema) by {
                    lemma_fault(same, *schema, fault);
                }
            }
            Err(TableError::InvalidInput(message))
        },
        None => Ok(()),
    }
}

/// `message` tells that `key` does not have `key_len` columns.
pub open spec fn is_bad_key_message<V: Debug>(key: &[V], key_len: nat, message: Seq<char>) -> bool {
    exists|text: Seq<char>| #[trigger]
        is_debug_text(key, text) && message == "invalid key: "@ + text + ", expected exactly "@
            + decimal(key_len) + " column(s)"@
}

/// The error with which a `key` that does not have `key_len` columns is refused.
pub fn bad_key<V: Debug>(key: &[V], key_len: usize) -> (error: TableError)
    ensures
        error matches TableError::InvalidInput(message) && is_bad_key_message(
            key,
            key_len as nat,
            message@,
        ),
{
    let key = debug_string(key);
    let key_len = decimal_string(key_len);
    let mut message = "invalid key: ".to_owned();
    message.append(key.as_str());
    message.append(", expected exactly ");
    message.append(key_len.as_str());
    message.append(" column(s)");
    TableError::InvalidInput(message)
}

} // verus!

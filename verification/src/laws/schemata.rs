//! Which schemata make a table, and why the others do not.

use std::fmt::{Debug, Display};

use vstd::prelude::*;

use super::law_one_fault;
use crate::equality::decides;
use crate::error::TableError;
use crate::schema::{IndexSchema, Schema};
use crate::table::columns::has_column;
use crate::table::validity::{
    fault_message, is_accepted_schema, is_fault_message, is_first_missing, is_schema_fault,
    is_valid_auxiliary, is_valid_schema, schema_fault, valid_schema, IndexFault, SchemaFault,
};
use crate::text::is_debug_text;

verus! {

/// One of the `columns` is the `same` as `name`.
pub open spec fn lists<K>(same: spec_fn(K, K) -> bool, columns: Seq<K>, name: K) -> bool {
    exists|i: int| 0 <= i < columns.len() && same(#[trigger] columns[i], name)
}

/// The auxiliary index at place `i` has a column, has only columns of the primary index,
/// and has every column of the key.
pub open spec fn is_sound_index<S: Schema>(
    same: spec_fn(S::Id, S::Id) -> bool,
    schema: S,
    i: int,
) -> bool {
    let columns = schema.spec_auxiliary()[i].1.spec_columns();
    &&& columns.len() > 0
    &&& forall|c: int|
        0 <= c < columns.len() ==> lists(
            same,
            schema.spec_primary().spec_columns(),
            #[trigger] columns[c],
        )
    &&& forall|k: int|
        0 <= k < schema.spec_key().len() ==> lists(same, columns, #[trigger] schema.spec_key()[k])
}

/// A schema is accepted if its primary index has a column and if each of its auxiliary indices
/// has a column, has only columns of the primary index, and has every column of the key.
pub proof fn law_schema_accepted<S: Schema + Debug>(
    same: spec_fn(S::Id, S::Id) -> bool,
    schema: &S,
    checked: Result<(), TableError>,
    fault: Option<SchemaFault>,
) where S::Id: PartialEq + Display
    requires
        decides(same),
        call_ensures(valid_schema::<S>, (schema,), checked),
        call_ensures(schema_fault::<S>, (schema,), fault),
        schema.spec_primary().spec_columns().len() > 0,
        forall|i: int|
            #![trigger schema.spec_auxiliary()[i]]
            0 <= i < schema.spec_auxiliary().len()
                ==> schema.spec_auxiliary()[i].1.spec_columns().len() > 0,
        forall|i: int, c: int|
            #![trigger schema.spec_auxiliary()[i].1.spec_columns()[c]]
            0 <= i < schema.spec_auxiliary().len() && 0 <= c
                < schema.spec_auxiliary()[i].1.spec_columns().len() ==> lists(
                same,
                schema.spec_primary().spec_columns(),
                schema.spec_auxiliary()[i].1.spec_columns()[c],
            ),
        forall|i: int, k: int|
            #![trigger schema.spec_auxiliary()[i], schema.spec_key()[k]]
            0 <= i < schema.spec_auxiliary().len() && 0 <= k < schema.spec_key().len() ==> lists(
                same,
                schema.spec_auxiliary()[i].1.spec_columns(),
                schema.spec_key()[k],
            ),
    ensures
        is_valid_schema(same, *schema),
        checked is Ok,
        fault is None,
{
    assert forall|i: int| 0 <= i < schema.spec_auxiliary().len() implies #[trigger]
        is_valid_auxiliary(same, *schema, i) by {
        let columns = schema.spec_auxiliary()[i].1.spec_columns();
        assert forall|c: int| 0 <= c < columns.len() implies has_column(
            same,
            schema.spec_primary().spec_columns(),
            #[trigger] columns[c],
        ) by {
            assert(lists(same, schema.spec_primary().spec_columns(), columns[c]));
        }
        assert forall|k: int| 0 <= k < schema.spec_key().len() implies has_column(
            same,
            columns,
            #[trigger] schema.spec_key()[k],
        ) by {
            assert(lists(same, columns, schema.spec_key()[k]));
        }
    }
    if let Some(fault) = fault {
        law_one_fault(same, *schema, fault, fault);
    }
}

/// A schema that is accepted has a column in its primary index, and each of its auxiliary indices
/// has a column, has only columns of the primary index, and has every column of the key.
pub proof fn law_accepted_schema<S: Schema + Debug>(
    same: spec_fn(S::Id, S::Id) -> bool,
    schema: &S,
    i: int,
    c: int,
    k: int,
    checked: Result<(), TableError>,
    fault: Option<SchemaFault>,
) where S::Id: PartialEq + Display
    requires
        decides(same),
        call_ensures(valid_schema::<S>, (schema,), checked),
        call_ensures(schema_fault::<S>, (schema,), fault),
        checked is Ok,
    ensures
        fault is None,
        is_valid_schema(same, *schema),
        schema.spec_primary().spec_columns().len() > 0,
        0 <= i < schema.spec_auxiliary().len() ==> {
            let columns = schema.spec_auxiliary()[i].1.spec_columns();
            &&& columns.len() > 0
            &&& 0 <= c < columns.len() ==> lists(
                same,
                schema.spec_primary().spec_columns(),
                columns[c],
            )
            &&& 0 <= k < schema.spec_key().len() ==> lists(same, columns, schema.spec_key()[k])
        },
{
    if let Some(fault) = fault {
        law_one_fault(same, *schema, fault, fault);
    }
    if 0 <= i < schema.spec_auxiliary().len() {
        assert(is_valid_auxiliary(same, *schema, i));
        let columns = schema.spec_auxiliary()[i].1.spec_columns();
        if 0 <= c < columns.len() {
            assert(has_column(same, schema.spec_primary().spec_columns(), columns[c]));
        }
        if 0 <= k < schema.spec_key().len() {
            assert(has_column(same, columns, schema.spec_key()[k]));
        }
    }
}

/// A schema for which indices may be opened is sound, whatever `same` says which `==` decides:
/// its primary index has a column, and each of its auxiliary indices has a column,
/// has only columns of the primary index, and has every column of the key.
pub proof fn law_openable_schema<S: Schema>(
    same: spec_fn(S::Id, S::Id) -> bool,
    schema: S,
    i: int,
    c: int,
    k: int,
) where S::Id: PartialEq
    requires
        decides(same),
        is_accepted_schema(schema),
    ensures
        schema.spec_primary().spec_columns().len() > 0,
        0 <= i < schema.spec_auxiliary().len() ==> {
            let columns = schema.spec_auxiliary()[i].1.spec_columns();
            &&& columns.len() > 0
            &&& 0 <= c < columns.len() ==> lists(
                same,
                schema.spec_primary().spec_columns(),
                columns[c],
            )
            &&& 0 <= k < schema.spec_key().len() ==> lists(same, columns, schema.spec_key()[k])
        },
{
    if 0 <= i < schema.spec_auxiliary().len() {
        assert(is_valid_auxiliary(same, schema, i));
        let columns = schema.spec_auxiliary()[i].1.spec_columns();
        if 0 <= c < columns.len() {
            assert(has_column(same, schema.spec_primary().spec_columns(), columns[c]));
        }
        if 0 <= k < schema.spec_key().len() {
            assert(has_column(same, columns, schema.spec_key()[k]));
        }
    }
}

/// The indices of a schema that is sound, whatever `same` says which `==` decides, may be opened.
pub proof fn law_sound_schema_is_openable<S: Schema>(schema: S) where S::Id: PartialEq
    requires
        schema.spec_primary().spec_columns().len() > 0,
        forall|same: spec_fn(S::Id, S::Id) -> bool, i: int|
            #![trigger is_sound_index(same, schema, i)]
            decides(same) && 0 <= i < schema.spec_auxiliary().len() ==> is_sound_index(
                same,
                schema,
                i,
            ),
    ensures
        is_accepted_schema(schema),
{
    assert forall|same: spec_fn(S::Id, S::Id) -> bool| #[trigger] decides(same) implies
        is_valid_schema(same, schema) by {
        assert forall|i: int| 0 <= i < schema.spec_auxiliary().len() implies #[trigger]
            is_valid_auxiliary(same, schema, i) by {
            assert(is_sound_index(same, schema, i));
            lemma_sound_index(same, schema, i);
        }
    }
}

/// The first fault of a schema decides what is said of it.
proof fn lemma_first_fault<S: Schema + Debug>(
    same: spec_fn(S::Id, S::Id) -> bool,
    schema: &S,
    checked: Result<(), TableError>,
    fault: Option<SchemaFault>,
    first: SchemaFault,
) where S::Id: PartialEq + Display
    requires
        decides(same),
        call_ensures(valid_schema::<S>, (schema,), checked),
        call_ensures(schema_fault::<S>, (schema,), fault),
        is_schema_fault(same, *schema, first),
    ensures
        fault == Some(first),
        checked matches Err(TableError::InvalidInput(message)) && is_fault_message(
            *schema,
            first,
            message@,
        ),
{
    law_one_fault(same, *schema, first, first);
    if let Some(fault) = fault {
        law_one_fault(same, *schema, first, fault);
    }
    let error = checked->Err_0;
    let (found, message) = choose|found: SchemaFault, message: Seq<char>|
        {
            &&& #[trigger] is_schema_fault(same, *schema, found)
            &&& #[trigger] is_fault_message(*schema, found, message)
            &&& error.is_invalid_input(message)
        };
    law_one_fault(same, *schema, first, found);
}

/// A sound index is valid.
proof fn lemma_sound_index<S: Schema>(
    same: spec_fn(S::Id, S::Id) -> bool,
    schema: S,
    i: int,
)
    requires
        is_sound_index(same, schema, i),
    ensures
        is_valid_auxiliary(same, schema, i),
{
    let columns = schema.spec_auxiliary()[i].1.spec_columns();
    assert forall|c: int| 0 <= c < columns.len() implies has_column(
        same,
        schema.spec_primary().spec_columns(),
        #[trigger] columns[c],
    ) by {
        assert(lists(same, schema.spec_primary().spec_columns(), columns[c]));
    }
    assert forall|k: int| 0 <= k < schema.spec_key().len() implies has_column(
        same,
        columns,
        #[trigger] schema.spec_key()[k],
    ) by {
        assert(lists(same, columns, schema.spec_key()[k]));
    }
}

/// A schema without columns is refused.
pub proof fn law_no_columns<S: Schema + Debug>(
    same: spec_fn(S::Id, S::Id) -> bool,
    schema: &S,
    checked: Result<(), TableError>,
    fault: Option<SchemaFault>,
) where S::Id: PartialEq + Display
    requires
        decides(same),
        call_ensures(valid_schema::<S>, (schema,), checked),
        call_ensures(schema_fault::<S>, (schema,), fault),
        schema.spec_primary().spec_columns().len() == 0,
    ensures
        fault == Some(SchemaFault::NoColumns),
        checked matches Err(TableError::InvalidInput(message)) && exists|text: Seq<char>| #[trigger]
            is_debug_text(schema, text) && message@ == text + " contains no columns"@,
{
    lemma_first_fault(same, schema, checked, fault, SchemaFault::NoColumns);
}

/// A schema is refused because of its first index that is not sound: here, one without columns.
pub proof fn law_empty_index<S: Schema + Debug>(
    same: spec_fn(S::Id, S::Id) -> bool,
    schema: &S,
    i: usize,
    checked: Result<(), TableError>,
    fault: Option<SchemaFault>,
) where S::Id: PartialEq + Display
    requires
        decides(same),
        call_ensures(valid_schema::<S>, (schema,), checked),
        call_ensures(schema_fault::<S>, (schema,), fault),
        schema.spec_primary().spec_columns().len() > 0,
        i < schema.spec_auxiliary().len(),
        forall|j: int| 0 <= j < i ==> #[trigger] is_sound_index(same, *schema, j),
        schema.spec_auxiliary()[i as int].1.spec_columns().len() == 0,
    ensures
        fault == Some(SchemaFault::Index(i, IndexFault::Empty)),
        checked matches Err(TableError::InvalidInput(message)) && message@ == "index "@
            + schema.spec_auxiliary()[i as int].0@ + " is empty"@,
{
    assert forall|j: int| 0 <= j < i implies #[trigger] is_valid_auxiliary(same, *schema, j) by {
        assert(is_sound_index(same, *schema, j));
        lemma_sound_index(same, *schema, j);
    }
    let first = SchemaFault::Index(i, IndexFault::Empty);
    lemma_first_fault(same, schema, checked, fault, first);
}

/// A schema is refused because of its first index that is not sound: here, one with a column
/// that the primary index does not have.
pub proof fn law_unknown_column<S: Schema + Debug>(
    same: spec_fn(S::Id, S::Id) -> bool,
    schema: &S,
    i: usize,
    c: usize,
    checked: Result<(), TableError>,
    fault: Option<SchemaFault>,
) where S::Id: PartialEq + Display
    requires
        decides(same),
        call_ensures(valid_schema::<S>, (schema,), checked),
        call_ensures(schema_fault::<S>, (schema,), fault),
        schema.spec_primary().spec_columns().len() > 0,
        i < schema.spec_auxiliary().len(),
        forall|j: int| 0 <= j < i ==> #[trigger] is_sound_index(same, *schema, j),
        c < schema.spec_auxiliary()[i as int].1.spec_columns().len(),
        forall|b: int|
            0 <= b < c ==> lists(
                same,
                schema.spec_primary().spec_columns(),
                #[trigger] schema.spec_auxiliary()[i as int].1.spec_columns()[b],
            ),
        !lists(
            same,
            schema.spec_primary().spec_columns(),
            schema.spec_auxiliary()[i as int].1.spec_columns()[c as int],
        ),
    ensures
        fault == Some(SchemaFault::Index(i, IndexFault::UnknownColumn(c))),
        checked matches Err(TableError::InvalidInput(message)) && exists|text: String| #[trigger]
            vstd::string::to_string_from_display_ensures::<S::Id>(
                &schema.spec_auxiliary()[i as int].1.spec_columns()[c as int],
                text,
            ) && message@ == "index "@ + schema.spec_auxiliary()[i as int].0@
                + " refers to unknown column "@ + text@,
{
    assert forall|j: int| 0 <= j < i implies #[trigger] is_valid_auxiliary(same, *schema, j) by {
        assert(is_sound_index(same, *schema, j));
        lemma_sound_index(same, *schema, j);
    }
    let primary = schema.spec_primary().spec_columns();
    let columns = schema.spec_auxiliary()[i as int].1.spec_columns();
    assert forall|b: int| 0 <= b < c implies has_column(
        same,
        primary,
        #[trigger] columns.take(c as int)[b],
    ) by {
        assert(lists(same, primary, columns[b]));
    }
    assert(is_first_missing(same, primary, columns, c as int));
    let first = SchemaFault::Index(i, IndexFault::UnknownColumn(c));
    lemma_first_fault(same, schema, checked, fault, first);
}

/// A schema is refused because of its first index that is not sound: here, one without a column
/// of the key.
pub proof fn law_missing_key_column<S: Schema + Debug>(
    same: spec_fn(S::Id, S::Id) -> bool,
    schema: &S,
    i: usize,
    k: usize,
    checked: Result<(), TableError>,
    fault: Option<SchemaFault>,
) where S::Id: PartialEq + Display
    requires
        decides(same),
        call_ensures(valid_schema::<S>, (schema,), checked),
        call_ensures(schema_fault::<S>, (schema,), fault),
        schema.spec_primary().spec_columns().len() > 0,
        i < schema.spec_auxiliary().len(),
        forall|j: int| 0 <= j < i ==> #[trigger] is_sound_index(same, *schema, j),
        schema.spec_auxiliary()[i as int].1.spec_columns().len() > 0,
        forall|c: int|
            0 <= c < schema.spec_auxiliary()[i as int].1.spec_columns().len() ==> lists(
                same,
                schema.spec_primary().spec_columns(),
                #[trigger] schema.spec_auxiliary()[i as int].1.spec_columns()[c],
            ),
        k < schema.spec_key().len(),
        forall|h: int|
            0 <= h < k ==> lists(
                same,
                schema.spec_auxiliary()[i as int].1.spec_columns(),
                #[trigger] schema.spec_key()[h],
            ),
        !lists(
            same,
            schema.spec_auxiliary()[i as int].1.spec_columns(),
            schema.spec_key()[k as int],
        ),
    ensures
        fault == Some(SchemaFault::Index(i, IndexFault::MissingKeyColumn(k))),
        checked matches Err(TableError::InvalidInput(message)) && exists|text: String| #[trigger]
            vstd::string::to_string_from_display_ensures::<S::Id>(
                &schema.spec_key()[k as int],
                text,
            ) && message@ == "index "@ + schema.spec_auxiliary()[i as int].0@
                + " is missing primary key column "@ + text@,
{
    assert forall|j: int| 0 <= j < i implies #[trigger] is_valid_auxiliary(same, *schema, j) by {
        assert(is_sound_index(same, *schema, j));
        lemma_sound_index(same, *schema, j);
    }
    let primary = schema.spec_primary().spec_columns();
    let columns = schema.spec_auxiliary()[i as int].1.spec_columns();
    let key = schema.spec_key();
    assert forall|c: int| 0 <= c < columns.len() implies has_column(
        same,
        primary,
        #[trigger] columns[c],
    ) by {
        assert(lists(same, primary, columns[c]));
    }
    assert forall|h: int| 0 <= h < k implies has_column(
        same,
        columns,
        #[trigger] key.take(k as int)[h],
    ) by {
        assert(lists(same, columns, key[h]));
    }
    assert(is_first_missing(same, columns, key, k as int));
    let first = SchemaFault::Index(i, IndexFault::MissingKeyColumn(k));
    lemma_first_fault(same, schema, checked, fault, first);
}

/// What is said of each fault.
pub proof fn law_fault_message<S: Schema + Debug>(schema: &S, fault: SchemaFault, message: String) where
    S::Id: Display,

    requires
        call_ensures(fault_message::<S>, (schema, fault), message),
    ensures
        fault is NoColumns ==> exists|text: Seq<char>| #[trigger]
            is_debug_text(schema, text) && message@ == text + " contains no columns"@,
        fault matches SchemaFault::Index(i, IndexFault::Empty) ==> message@ == "index "@
            + schema.spec_auxiliary()[i as int].0@ + " is empty"@,
        fault matches SchemaFault::Index(i, IndexFault::UnknownColumn(c)) ==> exists|text: String|
            #[trigger] vstd::string::to_string_from_display_ensures::<S::Id>(
                &schema.spec_auxiliary()[i as int].1.spec_columns()[c as int],
                text,
            ) && message@ == "index "@ + schema.spec_auxiliary()[i as int].0@
                + " refers to unknown column "@ + text@,
        fault matches SchemaFault::Index(i, IndexFault::MissingKeyColumn(k)) ==> exists|text: String|
            #[trigger] vstd::string::to_string_from_display_ensures::<S::Id>(
                &schema.spec_key()[k as int],
                text,
            ) && message@ == "index "@ + schema.spec_auxiliary()[i as int].0@
                + " is missing primary key column "@ + text@,
{
}

} // verus!

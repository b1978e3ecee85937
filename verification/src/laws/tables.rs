//! Which index is opened where, when a table is created or loaded.

use std::fmt::{Debug, Display};
use std::io::Error;

use b_tree::BTreeLock;
use freqfs::{Dir, DirLock};
use tokio::sync::RwLockWriteGuard;
use vstd::prelude::*;

use crate::equality::decides;
use crate::error::TableError;
use crate::index_map::is_entry;
use crate::schema::{IndexSchema, Schema};
use crate::storage::{is_made, Opening};
use crate::table::opening::{
    are_contents, indices, is_last_entry, is_nth, is_opened, is_opened_in, leaves_contents,
};
use crate::table::table_lock::{is_opened_table, TableLock};
use crate::table::validity::valid_schema;

verus! {

/// The directory of the `k`th index of a table: `primary` for the primary index, which is the first,
/// and for an auxiliary index its name.
pub open spec fn directory_of<S: Schema>(schema: S, k: int) -> Seq<char> {
    if k == 0 {
        "primary"@
    } else {
        schema.spec_auxiliary()[k - 1].0@
    }
}

/// The schema of the `k`th index of a table: first that of the primary index,
/// then those of the auxiliary indices as the schema of the table lists them.
pub open spec fn schema_of<S: Schema>(schema: S, k: int) -> S::Index {
    if k == 0 {
        schema.spec_primary()
    } else {
        schema.spec_auxiliary()[k - 1].1
    }
}

/// The `k`th index of a table was opened: its directory was found in the `k`th contents
/// of the directory of the table, which left the next ones, and `open` gave its lock
/// for clones of its schema and of the `collator`.
pub open spec fn is_opening_step<'a, S: Schema, C: Clone, FE: Send + Sync, F: Fn(
    S::Index,
    C,
    DirLock<FE>,
) -> Result<BTreeLock<S::Index, C, FE>, Error>>(
    opening: Opening,
    open: F,
    schema: S,
    collator: C,
    contents: Seq<RwLockWriteGuard<'a, Dir<FE>>>,
    dirs: Seq<DirLock<FE>>,
    schemata: Seq<S::Index>,
    collators: Seq<C>,
    locks: Seq<BTreeLock<S::Index, C, FE>>,
    k: int,
) -> bool where S::Index: Clone {
    &&& is_made(opening, contents[k], directory_of(schema, k), contents[k + 1], Ok(dirs[k]))
    &&& cloned(schema_of(schema, k), schemata[k])
    &&& cloned(collator, collators[k])
    &&& call_ensures(open, (schemata[k], collators[k], dirs[k]), Ok(locks[k]))
}

/// The first indices of a table were opened one after the other, in the directory `dir`,
/// which was locked and then had the first of the `contents`.
pub open spec fn is_opening_run<'a, S: Schema, C: Clone, FE: Send + Sync, F: Fn(
    S::Index,
    C,
    DirLock<FE>,
) -> Result<BTreeLock<S::Index, C, FE>, Error>>(
    opening: Opening,
    open: F,
    dir: DirLock<FE>,
    schema: S,
    collator: C,
    contents: Seq<RwLockWriteGuard<'a, Dir<FE>>>,
    dirs: Seq<DirLock<FE>>,
    schemata: Seq<S::Index>,
    collators: Seq<C>,
    locks: Seq<BTreeLock<S::Index, C, FE>>,
) -> bool where S::Index: Clone {
    &&& contents.len() == locks.len() + 1
    &&& dirs.len() == locks.len()
    &&& schemata.len() == locks.len()
    &&& collators.len() == locks.len()
    &&& call_ensures(DirLock::<FE>::try_write, (&dir,), Ok(contents[0]))
    &&& forall|k: int|
        0 <= k < locks.len() ==> #[trigger] is_opening_step(
            opening,
            open,
            schema,
            collator,
            contents,
            dirs,
            schemata,
            collators,
            locks,
            k,
        )
}

/// Opening the indices of a table one after the other gave `lock` for the `n`th one.
pub open spec fn opens<'a, S: Schema, C: Clone, FE: Send + Sync, F: Fn(
    S::Index,
    C,
    DirLock<FE>,
) -> Result<BTreeLock<S::Index, C, FE>, Error>>(
    opening: Opening,
    open: F,
    dir: DirLock<FE>,
    schema: S,
    collator: C,
    n: int,
    lock: BTreeLock<S::Index, C, FE>,
) -> bool where S::Index: Clone {
    exists|
        contents: Seq<RwLockWriteGuard<'a, Dir<FE>>>,
        dirs: Seq<DirLock<FE>>,
        schemata: Seq<S::Index>,
        collators: Seq<C>,
        locks: Seq<BTreeLock<S::Index, C, FE>>,
    |
        {
            &&& #[trigger] is_opening_run(
                opening,
                open,
                dir,
                schema,
                collator,
                contents,
                dirs,
                schemata,
                collators,
                locks,
            )
            &&& locks.len() == n + 1
            &&& locks[n] == lock
        }
}

/// Opening the indices of a table one after the other failed at the `n`th one because of `cause`:
/// its directory could not be had, or `open` failed on it.
pub open spec fn fails<'a, S: Schema, C: Clone, FE: Send + Sync, F: Fn(
    S::Index,
    C,
    DirLock<FE>,
) -> Result<BTreeLock<S::Index, C, FE>, Error>>(
    opening: Opening,
    open: F,
    dir: DirLock<FE>,
    schema: S,
    collator: C,
    n: int,
    cause: Error,
) -> bool where S::Index: Clone {
    exists|
        contents: Seq<RwLockWriteGuard<'a, Dir<FE>>>,
        dirs: Seq<DirLock<FE>>,
        schemata: Seq<S::Index>,
        collators: Seq<C>,
        locks: Seq<BTreeLock<S::Index, C, FE>>,
    |
        {
            &&& #[trigger] is_opening_run(
                opening,
                open,
                dir,
                schema,
                collator,
                contents,
                dirs,
                schemata,
                collators,
                locks,
            )
            &&& locks.len() == n
            &&& {
                ||| cannot_be_had(opening, contents[n], directory_of(schema, n), cause)
                ||| cannot_be_opened(
                    opening,
                    open,
                    contents[n],
                    directory_of(schema, n),
                    schema_of(schema, n),
                    collator,
                    cause,
                )
            }
        }
}

/// The directory `name` could not be had because of `cause`.
pub open spec fn cannot_be_had<'a, FE: Send + Sync>(
    opening: Opening,
    contents: RwLockWriteGuard<'a, Dir<FE>>,
    name: Seq<char>,
    cause: Error,
) -> bool {
    exists|after: RwLockWriteGuard<'a, Dir<FE>>| #[trigger]
        is_made(opening, contents, name, after, Err(cause))
}

/// The directory `name` was had, but `open` failed on it because of `cause`.
pub open spec fn cannot_be_opened<'a, IS: Clone, C: Clone, FE: Send + Sync, F: Fn(
    IS,
    C,
    DirLock<FE>,
) -> Result<BTreeLock<IS, C, FE>, Error>>(
    opening: Opening,
    open: F,
    contents: RwLockWriteGuard<'a, Dir<FE>>,
    name: Seq<char>,
    schema: IS,
    collator: C,
    cause: Error,
) -> bool {
    exists|
        after: RwLockWriteGuard<'a, Dir<FE>>,
        dir: DirLock<FE>,
        schema_copy: IS,
        collator_copy: C,
    |
        {
            &&& #[trigger] is_made(opening, contents, name, after, Ok(dir))
            &&& cloned(schema, schema_copy)
            &&& cloned(collator, collator_copy)
            &&& #[trigger] call_ensures(
                open,
                (schema_copy, collator_copy, dir),
                Err::<BTreeLock<IS, C, FE>, Error>(cause),
            )
        }
}

/// The indices in the order in which they are opened.
proof fn lemma_indices<S: Schema>(schema: S, k: int)
    requires
        0 <= k <= schema.spec_auxiliary().len(),
    ensures
        indices(schema)[k].0 == directory_of(schema, k),
        indices(schema)[k].1 == schema_of(schema, k),
{
}

/// The contents of the directory after `n` indices were opened come from a run.
proof fn lemma_contents<'a, S: Schema, C: Clone, FE: Send + Sync, F: Fn(
    S::Index,
    C,
    DirLock<FE>,
) -> Result<BTreeLock<S::Index, C, FE>, Error>>(
    opening: Opening,
    open: F,
    dir: DirLock<FE>,
    schema: S,
    collator: C,
    n: nat,
    last: RwLockWriteGuard<'a, Dir<FE>>,
) -> (run: (
    Seq<RwLockWriteGuard<'a, Dir<FE>>>,
    Seq<DirLock<FE>>,
    Seq<S::Index>,
    Seq<C>,
    Seq<BTreeLock<S::Index, C, FE>>,
)) where S::Index: Clone
    requires
        n <= schema.spec_auxiliary().len() + 1,
        are_contents(opening, open, dir, indices(schema), collator, n, last),
    ensures
        is_opening_run(
            opening,
            open,
            dir,
            schema,
            collator,
            run.0,
            run.1,
            run.2,
            run.3,
            run.4,
        ),
        run.4.len() == n,
        run.0[n as int] == last,
    decreases n,
{
    let order = indices(schema);
    if n == 0 {
        (seq![last], seq![], seq![], seq![], seq![])
    } else {
        let k = n - 1;
        let (before, lock) = choose|
            before: RwLockWriteGuard<'a, Dir<FE>>,
            lock: BTreeLock<S::Index, C, FE>,
        |
            {
                &&& are_contents(opening, open, dir, order, collator, k as nat, before)
                &&& #[trigger] is_opened(
                    opening,
                    open,
                    before,
                    order[n - 1].0,
                    order[n - 1].1,
                    collator,
                    last,
                    Ok(lock),
                )
            };
        let run = lemma_contents(opening, open, dir, schema, collator, k as nat, before);
        lemma_indices(schema, k);
        lemma_step(opening, open, dir, schema, collator, run, last, lock)
    }
}

/// One more index in a run.
proof fn lemma_step<'a, S: Schema, C: Clone, FE: Send + Sync, F: Fn(
    S::Index,
    C,
    DirLock<FE>,
) -> Result<BTreeLock<S::Index, C, FE>, Error>>(
    opening: Opening,
    open: F,
    dir: DirLock<FE>,
    schema: S,
    collator: C,
    run: (
        Seq<RwLockWriteGuard<'a, Dir<FE>>>,
        Seq<DirLock<FE>>,
        Seq<S::Index>,
        Seq<C>,
        Seq<BTreeLock<S::Index, C, FE>>,
    ),
    after: RwLockWriteGuard<'a, Dir<FE>>,
    lock: BTreeLock<S::Index, C, FE>,
) -> (longer: (
    Seq<RwLockWriteGuard<'a, Dir<FE>>>,
    Seq<DirLock<FE>>,
    Seq<S::Index>,
    Seq<C>,
    Seq<BTreeLock<S::Index, C, FE>>,
)) where S::Index: Clone
    requires
        is_opening_run(
            opening,
            open,
            dir,
            schema,
            collator,
            run.0,
            run.1,
            run.2,
            run.3,
            run.4,
        ),
        is_opened(
            opening,
            open,
            run.0[run.4.len() as int],
            directory_of(schema, run.4.len() as int),
            schema_of(schema, run.4.len() as int),
            collator,
            after,
            Ok(lock),
        ),
    ensures
        is_opening_run(
            opening,
            open,
            dir,
            schema,
            collator,
            longer.0,
            longer.1,
            longer.2,
            longer.3,
            longer.4,
        ),
        longer.0 == run.0.push(after),
        longer.4 == run.4.push(lock),
{
    let n = run.4.len() as int;
    let before = run.0[n];
    let name = directory_of(schema, n);
    let index = schema_of(schema, n);
    let made = choose|made: Result<DirLock<FE>, Error>|
        {
            &&& #[trigger] is_made(opening, before, name, after, made)
            &&& match made {
                Ok(made) => is_opened_in(open, index, collator, made, Ok(lock)),
                Err(cause) => Ok::<BTreeLock<S::Index, C, FE>, Error>(lock) == Err::<
                    BTreeLock<S::Index, C, FE>,
                    Error,
                >(cause),
            }
        };
    assert(is_made(opening, before, name, after, made) && made is Ok);
    let found = made->Ok_0;
    assert(is_opened_in(open, index, collator, found, Ok(lock)));
    let (schema_copy, collator_copy) = choose|schema_copy: S::Index, collator_copy: C|
        {
            &&& cloned(index, schema_copy)
            &&& cloned(collator, collator_copy)
            &&& #[trigger] call_ensures(open, (schema_copy, collator_copy, found), Ok(lock))
        };
    assert(call_ensures(open, (schema_copy, collator_copy, found), Ok(lock)));
    let contents = run.0.push(after);
    assert(contents[0] == run.0[0]);
    let dirs = run.1.push(found);
    let schemata = run.2.push(schema_copy);
    let collators = run.3.push(collator_copy);
    let locks = run.4.push(lock);
    assert forall|k: int| 0 <= k < locks.len() implies #[trigger] is_opening_step(
        opening,
        open,
        schema,
        collator,
        contents,
        dirs,
        schemata,
        collators,
        locks,
        k,
    ) by {
        if k < n {
            assert(is_opening_step(
                opening,
                open,
                schema,
                collator,
                run.0,
                run.1,
                run.2,
                run.3,
                run.4,
                k,
            ));
            assert(contents[k] == run.0[k] && contents[k + 1] == run.0[k + 1]);
        } else {
            assert(made == Ok::<DirLock<FE>, Error>(found));
        }
    }
    (contents, dirs, schemata, collators, locks)
}

/// The `n`th index comes from a run.
proof fn lemma_opens<S: Schema, C: Clone, FE: Send + Sync, F: Fn(
    S::Index,
    C,
    DirLock<FE>,
) -> Result<BTreeLock<S::Index, C, FE>, Error>>(
    opening: Opening,
    open: F,
    dir: DirLock<FE>,
    schema: S,
    collator: C,
    n: nat,
    lock: BTreeLock<S::Index, C, FE>,
) where S::Index: Clone
    requires
        n <= schema.spec_auxiliary().len(),
        is_nth(opening, open, dir, indices(schema), collator, n, Ok(lock)),
    ensures
        opens(opening, open, dir, schema, collator, n as int, lock),
{
    let order = indices(schema);
    let after = choose|after: RwLockWriteGuard<'_, Dir<FE>>|
        leaves_contents(opening, open, dir, order, collator, n, Ok(lock), after);
    let before = choose|before: RwLockWriteGuard<'_, Dir<FE>>|
        {
            &&& are_contents(opening, open, dir, order, collator, n, before)
            &&& #[trigger] is_opened(
                opening,
                open,
                before,
                order[n as int].0,
                order[n as int].1,
                collator,
                after,
                Ok(lock),
            )
        };
    let run = lemma_contents(opening, open, dir, schema, collator, n, before);
    lemma_indices(schema, n as int);
    let longer = lemma_step(opening, open, dir, schema, collator, run, after, lock);
    assert(longer.4[n as int] == lock);
}

/// A failure at the `n`th index comes after a run.
proof fn lemma_fails<S: Schema, C: Clone, FE: Send + Sync, F: Fn(
    S::Index,
    C,
    DirLock<FE>,
) -> Result<BTreeLock<S::Index, C, FE>, Error>>(
    opening: Opening,
    open: F,
    dir: DirLock<FE>,
    schema: S,
    collator: C,
    n: nat,
    cause: Error,
) where S::Index: Clone
    requires
        n <= schema.spec_auxiliary().len(),
        is_nth(opening, open, dir, indices(schema), collator, n, Err(cause)),
    ensures
        fails(opening, open, dir, schema, collator, n as int, cause),
{
    let order = indices(schema);
    let lock = Err::<BTreeLock<S::Index, C, FE>, Error>(cause);
    let after = choose|after: RwLockWriteGuard<'_, Dir<FE>>|
        leaves_contents(opening, open, dir, order, collator, n, lock, after);
    let before = choose|before: RwLockWriteGuard<'_, Dir<FE>>|
        {
            &&& are_contents(opening, open, dir, order, collator, n, before)
            &&& #[trigger] is_opened(
                opening,
                open,
                before,
                order[n as int].0,
                order[n as int].1,
                collator,
                after,
                lock,
            )
        };
    let run = lemma_contents(opening, open, dir, schema, collator, n, before);
    lemma_indices(schema, n as int);
    let name = directory_of(schema, n as int);
    let index = schema_of(schema, n as int);
    let made = choose|made: Result<DirLock<FE>, Error>|
        {
            &&& #[trigger] is_made(opening, before, name, after, made)
            &&& match made {
                Ok(made) => is_opened_in(open, index, collator, made, lock),
                Err(other) => lock == Err::<BTreeLock<S::Index, C, FE>, Error>(other),
            }
        };
    match made {
        Ok(found) => {
            let (schema_copy, collator_copy) = choose|schema_copy: S::Index, collator_copy: C|
                {
                    &&& cloned(index, schema_copy)
                    &&& cloned(collator, collator_copy)
                    &&& #[trigger] call_ensures(open, (schema_copy, collator_copy, found), lock)
                };
            assert(is_made(opening, before, name, after, Ok(found)));
            assert(call_ensures(open, (schema_copy, collator_copy, found), lock));
            assert(cannot_be_opened(opening, open, before, name, index, collator, cause));
        },
        Err(other) => {
            assert(cannot_be_had(opening, before, name, cause));
        },
    }
}

/// What opening a table came to.
proof fn lemma_opened_table<S: Schema + Debug, C: Clone, FE: Send + Sync, F: Fn(
    S::Index,
    C,
    DirLock<FE>,
) -> Result<BTreeLock<S::Index, C, FE>, Error>>(
    opening: Opening,
    open: F,
    schema: S,
    collator: C,
    dir: DirLock<FE>,
    lock: TableLock<S, S::Index, C, FE>,
    name: Seq<char>,
) where S::Id: PartialEq + Display, S::Index: Clone
    requires
        is_opened_table(opening, open, schema, collator, dir, Ok(lock)),
    ensures
        opens(opening, open, dir, schema, collator, 0, lock.primary),
        forall|i: int|
            0 <= i < schema.spec_auxiliary().len() ==> lock.auxiliary@.contains_key(
                #[trigger] schema.spec_auxiliary()[i].0@,
            ),
        lock.auxiliary@.contains_key(name) ==> exists|i: int|
            {
                &&& 0 <= i < schema.spec_auxiliary().len()
                &&& #[trigger] schema.spec_auxiliary()[i].0@ == name
                &&& forall|j: int|
                    i < j < schema.spec_auxiliary().len()
                        ==> #[trigger] schema.spec_auxiliary()[j].0@ != name
                &&& opens(opening, open, dir, schema, collator, i + 1, lock.auxiliary@[name])
            },
{
    let entries = schema.spec_auxiliary();
    lemma_opens(opening, open, dir, schema, collator, 0, lock.primary);
    if lock.auxiliary@.contains_key(name) {
        let i = choose|i: int| #[trigger] is_last_entry(entries, name, i) && is_nth(
            opening,
            open,
            dir,
            indices(schema),
            collator,
            (i + 1) as nat,
            Ok(lock.auxiliary@[name]),
        );
        lemma_opens(
            opening,
            open,
            dir,
            schema,
            collator,
            (i + 1) as nat,
            lock.auxiliary@[name],
        );
        assert forall|j: int| i < j < entries.len() implies #[trigger] entries[j].0@ != name by {
            assert(!is_entry(entries, name, j));
        }
        assert(entries[i].0@ == name);
    }
}

/// A table that is created has the schema and the directory given. Its primary index is opened
/// in the directory `primary`, and the index of each name is the last one that the schema lists
/// under that name, opened in the directory of that name; there are no others.
pub proof fn law_created_table<S: Schema + Debug, C: Clone, FE: Send + Sync, F: Fn(
    S::Index,
    C,
    DirLock<FE>,
) -> Result<BTreeLock<S::Index, C, FE>, Error>>(
    schema: S,
    collator: C,
    dir: DirLock<FE>,
    open: F,
    lock: TableLock<S, S::Index, C, FE>,
    name: Seq<char>,
) where S::Id: PartialEq + Display, S::Index: Clone
    requires
        call_ensures(
            TableLock::<S, S::Index, C, FE>::create::<F>,
            (schema, collator, dir, open),
            Ok(lock),
        ),
    ensures
        lock.schema.spec_inner() == schema,
        lock.dir == dir,
        opens(Opening::Create, open, dir, schema, collator, 0, lock.primary),
        forall|i: int|
            0 <= i < schema.spec_auxiliary().len() ==> lock.auxiliary@.contains_key(
                #[trigger] schema.spec_auxiliary()[i].0@,
            ),
        lock.auxiliary@.contains_key(name) ==> exists|i: int|
            {
                &&& 0 <= i < schema.spec_auxiliary().len()
                &&& #[trigger] schema.spec_auxiliary()[i].0@ == name
                &&& forall|j: int|
                    i < j < schema.spec_auxiliary().len()
                        ==> #[trigger] schema.spec_auxiliary()[j].0@ != name
                &&& opens(
                    Opening::Create,
                    open,
                    dir,
                    schema,
                    collator,
                    i + 1,
                    lock.auxiliary@[name],
                )
            },
{
    lemma_opened_table(Opening::Create, open, schema, collator, dir, lock, name);
}

/// A table is not created because the schema is refused, and then with the error of that check;
/// or, if it is not, because the directory cannot be locked, or because of the first index
/// that cannot be opened.
pub proof fn law_not_created<S: Schema + Debug, C: Clone, FE: Send + Sync, F: Fn(
    S::Index,
    C,
    DirLock<FE>,
) -> Result<BTreeLock<S::Index, C, FE>, Error>>(
    same: spec_fn(S::Id, S::Id) -> bool,
    schema: S,
    collator: C,
    dir: DirLock<FE>,
    open: F,
    error: TableError,
    checked: Result<(), TableError>,
) where S::Id: PartialEq + Display, S::Index: Clone
    requires
        decides(same),
        call_ensures(valid_schema::<S>, (&schema,), checked),
        call_ensures(
            TableLock::<S, S::Index, C, FE>::create::<F>,
            (schema, collator, dir, open),
            Err(error),
        ),
    ensures
        error is InvalidInput <==> checked is Err,
        error is InvalidInput ==> call_ensures(valid_schema::<S>, (&schema,), Err(error)),
        error matches TableError::Io(cause) ==> {
            ||| call_ensures(
                DirLock::<FE>::try_write,
                (&dir,),
                Err::<RwLockWriteGuard<'_, Dir<FE>>, Error>(cause),
            )
            ||| exists|n: int|
                0 <= n <= schema.spec_auxiliary().len() && #[trigger] fails(
                    Opening::Create,
                    open,
                    dir,
                    schema,
                    collator,
                    n,
                    cause,
                )
        },
{
    if let TableError::Io(cause) = error {
        if !call_ensures(
            DirLock::<FE>::try_write,
            (&dir,),
            Err::<RwLockWriteGuard<'_, Dir<FE>>, Error>(cause),
        ) {
            let n = choose|n: nat|
                n <= schema.spec_auxiliary().len() && #[trigger] is_nth(
                    Opening::Create,
                    open,
                    dir,
                    indices(schema),
                    collator,
                    n,
                    Err(cause),
                );
            lemma_fails(Opening::Create, open, dir, schema, collator, n, cause);
            assert(fails(Opening::Create, open, dir, schema, collator, n as int, cause));
        }
    }
}

/// A table is created only if its schema is accepted.
pub proof fn law_created_only_if_accepted<S: Schema + Debug, C: Clone, FE: Send + Sync, F: Fn(
    S::Index,
    C,
    DirLock<FE>,
) -> Result<BTreeLock<S::Index, C, FE>, Error>>(
    same: spec_fn(S::Id, S::Id) -> bool,
    schema: S,
    collator: C,
    dir: DirLock<FE>,
    open: F,
    lock: TableLock<S, S::Index, C, FE>,
    checked: Result<(), TableError>,
) where S::Id: PartialEq + Display, S::Index: Clone
    requires
        decides(same),
        call_ensures(valid_schema::<S>, (&schema,), checked),
        call_ensures(
            TableLock::<S, S::Index, C, FE>::create::<F>,
            (schema, collator, dir, open),
            Ok(lock),
        ),
    ensures
        checked is Ok,
        exists|passed: Result<(), TableError>| #[trigger]
            call_ensures(valid_schema::<S>, (&schema,), passed) && passed is Ok,
{
}

/// A table that is loaded has the schema and the directory given. Its primary index is opened
/// in the directory `primary`, and the index of each name is the last one that the schema lists
/// under that name, opened in the directory of that name; there are no others.
pub proof fn law_loaded_table<S: Schema + Debug, C: Clone, FE: Send + Sync, F: Fn(
    S::Index,
    C,
    DirLock<FE>,
) -> Result<BTreeLock<S::Index, C, FE>, Error>>(
    schema: S,
    collator: C,
    dir: DirLock<FE>,
    open: F,
    lock: TableLock<S, S::Index, C, FE>,
    name: Seq<char>,
) where S::Id: PartialEq + Display, S::Index: Clone
    requires
        call_ensures(
            TableLock::<S, S::Index, C, FE>::load::<F>,
            (schema, collator, dir, open),
            Ok(lock),
        ),
    ensures
        lock.schema.spec_inner() == schema,
        lock.dir == dir,
        opens(Opening::Load, open, dir, schema, collator, 0, lock.primary),
        forall|i: int|
            0 <= i < schema.spec_auxiliary().len() ==> lock.auxiliary@.contains_key(
                #[trigger] schema.spec_auxiliary()[i].0@,
            ),
        lock.auxiliary@.contains_key(name) ==> exists|i: int|
            {
                &&& 0 <= i < schema.spec_auxiliary().len()
                &&& #[trigger] schema.spec_auxiliary()[i].0@ == name
                &&& forall|j: int|
                    i < j < schema.spec_auxiliary().len()
                        ==> #[trigger] schema.spec_auxiliary()[j].0@ != name
                &&& opens(
                    Opening::Load,
                    open,
                    dir,
                    schema,
                    collator,
                    i + 1,
                    lock.auxiliary@[name],
                )
            },
{
    lemma_opened_table(Opening::Load, open, schema, collator, dir, lock, name);
}

/// A table is not loaded because the schema is refused, and then with the error of that check;
/// or, if it is not, because the directory cannot be locked, or because of the first index
/// that cannot be opened.
pub proof fn law_not_loaded<S: Schema + Debug, C: Clone, FE: Send + Sync, F: Fn(
    S::Index,
    C,
    DirLock<FE>,
) -> Result<BTreeLock<S::Index, C, FE>, Error>>(
    same: spec_fn(S::Id, S::Id) -> bool,
    schema: S,
    collator: C,
    dir: DirLock<FE>,
    open: F,
    error: TableError,
    checked: Result<(), TableError>,
) where S::Id: PartialEq + Display, S::Index: Clone
    requires
        decides(same),
        call_ensures(valid_schema::<S>, (&schema,), checked),
        call_ensures(
            TableLock::<S, S::Index, C, FE>::load::<F>,
            (schema, collator, dir, open),
            Err(error),
        ),
    ensures
        error is InvalidInput <==> checked is Err,
        error is InvalidInput ==> call_ensures(valid_schema::<S>, (&schema,), Err(error)),
        error matches TableError::Io(cause) ==> {
            ||| call_ensures(
                DirLock::<FE>::try_write,
                (&dir,),
                Err::<RwLockWriteGuard<'_, Dir<FE>>, Error>(cause),
            )
            ||| exists|n: int|
                0 <= n <= schema.spec_auxiliary().len() && #[trigger] fails(
                    Opening::Load,
                    open,
                    dir,
                    schema,
                    collator,
                    n,
                    cause,
                )
        },
{
    if let TableError::Io(cause) = error {
        if !call_ensures(
            DirLock::<FE>::try_write,
            (&dir,),
            Err::<RwLockWriteGuard<'_, Dir<FE>>, Error>(cause),
        ) {
            let n = choose|n: nat|
                n <= schema.spec_auxiliary().len() && #[trigger] is_nth(
                    Opening::Load,
                    open,
                    dir,
                    indices(schema),
                    collator,
                    n,
                    Err(cause),
                );
            lemma_fails(Opening::Load, open, dir, schema, collator, n, cause);
            assert(fails(Opening::Load, open, dir, schema, collator, n as int, cause));
        }
    }
}

/// A table is loaded only if its schema is accepted.
pub proof fn law_loaded_only_if_accepted<S: Schema + Debug, C: Clone, FE: Send + Sync, F: Fn(
    S::Index,
    C,
    DirLock<FE>,
) -> Result<BTreeLock<S::Index, C, FE>, Error>>(
    same: spec_fn(S::Id, S::Id) -> bool,
    schema: S,
    collator: C,
    dir: DirLock<FE>,
    open: F,
    lock: TableLock<S, S::Index, C, FE>,
    checked: Result<(), TableError>,
) where S::Id: PartialEq + Display, S::Index: Clone
    requires
        decides(same),
        call_ensures(valid_schema::<S>, (&schema,), checked),
        call_ensures(
            TableLock::<S, S::Index, C, FE>::load::<F>,
            (schema, collator, dir, open),
            Ok(lock),
        ),
    ensures
        checked is Ok,
        exists|passed: Result<(), TableError>| #[trigger]
            call_ensures(valid_schema::<S>, (&schema,), passed) && passed is Ok,
{
}

} // verus!

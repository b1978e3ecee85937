//! Opening the indices of a table, one after the other.

use std::io::Error;

use b_tree::BTreeLock;
use freqfs::{Dir, DirLock};
use tokio::sync::RwLockWriteGuard;
use vstd::prelude::*;

use super::validity::is_accepted_schema;
use crate::index_map::{is_entry, IndexMap};
use crate::schema::Schema;
use crate::storage::{is_made, make_dir, Opening};

verus! {

/// The name of the directory of the primary index.
pub const PRIMARY: &'static str = "primary";

/// The directory and the schema of each index, in the order in which the indices are opened:
/// the primary index first, then the auxiliary ones as the schema lists them.
pub open spec fn indices<S: Schema>(schema: S) -> Seq<(Seq<char>, S::Index)> {
    seq![(PRIMARY@, schema.spec_primary())] + schema.spec_auxiliary().map_values(
        |entry: (String, S::Index)| (entry.0@, entry.1),
    )
}

/// Opening the index `name` came out as `lock`: its directory was looked for in the contents `before`
/// of the directory of the table, and once it was there, `open` was called on it
/// with clones of the `schema` of the index and of the `collator`.
pub open spec fn is_opened<'a, IS: Clone, C: Clone, FE: Send + Sync, F: Fn(
    IS,
    C,
    DirLock<FE>,
) -> Result<BTreeLock<IS, C, FE>, Error>>(
    opening: Opening,
    open: F,
    before: RwLockWriteGuard<'a, Dir<FE>>,
    name: Seq<char>,
    schema: IS,
    collator: C,
    after: RwLockWriteGuard<'a, Dir<FE>>,
    lock: Result<BTreeLock<IS, C, FE>, Error>,
) -> bool {
    exists|dir: Result<DirLock<FE>, Error>|
        {
            &&& #[trigger] is_made(opening, before, name, after, dir)
            &&& match dir {
                Ok(dir) => is_opened_in(open, schema, collator, dir, lock),
                Err(cause) => lock == Err::<BTreeLock<IS, C, FE>, Error>(cause),
            }
        }
}

/// Opening an index in its directory `dir` came out as `lock`.
pub open spec fn is_opened_in<IS: Clone, C: Clone, FE, F: Fn(IS, C, DirLock<FE>) -> Result<
    BTreeLock<IS, C, FE>,
    Error,
>>(open: F, schema: IS, collator: C, dir: DirLock<FE>, lock: Result<BTreeLock<IS, C, FE>, Error>) -> bool {
    exists|schema_copy: IS, collator_copy: C|
        {
            &&& cloned(schema, schema_copy)
            &&& cloned(collator, collator_copy)
            &&& #[trigger] call_ensures(open, (schema_copy, collator_copy, dir), lock)
        }
}

/// `contents` are the contents of the locked directory `dir` of a table,
/// after the first `n` of its `indices` were opened.
pub open spec fn are_contents<'a, IS: Clone, C: Clone, FE: Send + Sync, F: Fn(
    IS,
    C,
    DirLock<FE>,
) -> Result<BTreeLock<IS, C, FE>, Error>>(
    opening: Opening,
    open: F,
    dir: DirLock<FE>,
    indices: Seq<(Seq<char>, IS)>,
    collator: C,
    n: nat,
    contents: RwLockWriteGuard<'a, Dir<FE>>,
) -> bool
    decreases n,
{
    if n == 0 {
        call_ensures(DirLock::<FE>::try_write, (&dir,), Ok(contents))
    } else {
        exists|before: RwLockWriteGuard<'a, Dir<FE>>, lock: BTreeLock<IS, C, FE>|
            {
                &&& are_contents(opening, open, dir, indices, collator, (n - 1) as nat, before)
                &&& #[trigger] is_opened(
                    opening,
                    open,
                    before,
                    indices[n - 1].0,
                    indices[n - 1].1,
                    collator,
                    contents,
                    Ok(lock),
                )
            }
    }
}

/// Opening the `n`th of the `indices` of the table in the directory `dir` came out as `lock`,
/// after those before it were opened, and left the contents `after` of that directory.
pub open spec fn leaves_contents<'a, IS: Clone, C: Clone, FE: Send + Sync, F: Fn(
    IS,
    C,
    DirLock<FE>,
) -> Result<BTreeLock<IS, C, FE>, Error>>(
    opening: Opening,
    open: F,
    dir: DirLock<FE>,
    indices: Seq<(Seq<char>, IS)>,
    collator: C,
    n: nat,
    lock: Result<BTreeLock<IS, C, FE>, Error>,
    after: RwLockWriteGuard<'a, Dir<FE>>,
) -> bool {
    exists|before: RwLockWriteGuard<'a, Dir<FE>>|
        {
            &&& are_contents(opening, open, dir, indices, collator, n, before)
            &&& #[trigger] is_opened(
                opening,
                open,
                before,
                indices[n as int].0,
                indices[n as int].1,
                collator,
                after,
                lock,
            )
        }
}

/// Opening the `n`th of the `indices` of the table in the directory `dir` came out as `lock`,
/// after those before it were opened.
pub open spec fn is_nth<'a, IS: Clone, C: Clone, FE: Send + Sync, F: Fn(
    IS,
    C,
    DirLock<FE>,
) -> Result<BTreeLock<IS, C, FE>, Error>>(
    opening: Opening,
    open: F,
    dir: DirLock<FE>,
    indices: Seq<(Seq<char>, IS)>,
    collator: C,
    n: nat,
    lock: Result<BTreeLock<IS, C, FE>, Error>,
) -> bool {
    exists|after: RwLockWriteGuard<'a, Dir<FE>>|
        leaves_contents(opening, open, dir, indices, collator, n, lock, after)
}

/// Open one index.
fn open_index<'a, IS: Clone, C: Clone, FE: Send + Sync, F: Fn(IS, C, DirLock<FE>) -> Result<
    BTreeLock<IS, C, FE>,
    Error,
>>(
    opening: Opening,
    open: &F,
    contents: RwLockWriteGuard<'a, Dir<FE>>,
    name: &str,
    schema: &IS,
    collator: &C,
) -> (opened: (RwLockWriteGuard<'a, Dir<FE>>, Result<BTreeLock<IS, C, FE>, Error>))
    requires
        forall|schema: IS, collator: C, dir: DirLock<FE>| #[trigger]
            call_requires(*open, (schema, collator, dir)),
    ensures
        is_opened(opening, *open, contents, name@, *schema, *collator, opened.0, opened.1),
{
    let (after, made) = make_dir(opening, contents, name.to_owned());
    match made {
        Ok(dir) => {
            let schema_copy = schema.clone();
            let collator_copy = collator.clone();
            let lock = open(schema_copy, collator_copy, dir);
            assert(call_ensures(*open, (schema_copy, collator_copy, dir), lock));
            (after, lock)
        },
        Err(cause) => (after, Err(cause)),
    }
}

/// The last of the `entries` for `name` is at place `i`.
pub open spec fn is_last_entry<T>(entries: Seq<(String, T)>, name: Seq<char>, i: int) -> bool {
    &&& is_entry(entries, name, i)
    &&& forall|j: int| i < j ==> !#[trigger] is_entry(entries, name, j)
}

/// Opening the last of the auxiliary indices `entries` for `name` gave `lock`.
pub open spec fn is_auxiliary<IS: Clone, C: Clone, FE: Send + Sync, F: Fn(
    IS,
    C,
    DirLock<FE>,
) -> Result<BTreeLock<IS, C, FE>, Error>>(
    opening: Opening,
    open: F,
    dir: DirLock<FE>,
    indices: Seq<(Seq<char>, IS)>,
    collator: C,
    entries: Seq<(String, IS)>,
    name: Seq<char>,
    lock: BTreeLock<IS, C, FE>,
) -> bool {
    exists|i: int|
        {
            &&& #[trigger] is_last_entry(entries, name, i)
            &&& is_nth(opening, open, dir, indices, collator, (i + 1) as nat, Ok(lock))
        }
}

/// Opening the indices of a table with the given `schema` in the directory `dir`
/// gave these locks on the primary index and on the auxiliary ones.
/// Of two auxiliary indices with the same name, the latter counts.
pub open spec fn are_opened<S: Schema, C: Clone, FE: Send + Sync, F: Fn(
    S::Index,
    C,
    DirLock<FE>,
) -> Result<BTreeLock<S::Index, C, FE>, Error>>(
    opening: Opening,
    open: F,
    dir: DirLock<FE>,
    schema: S,
    collator: C,
    primary: BTreeLock<S::Index, C, FE>,
    auxiliary: Map<Seq<char>, BTreeLock<S::Index, C, FE>>,
) -> bool where S::Index: Clone {
    let entries = schema.spec_auxiliary();
    &&& is_nth(opening, open, dir, indices(schema), collator, 0, Ok(primary))
    &&& forall|i: int|
        0 <= i < entries.len() ==> auxiliary.contains_key(#[trigger] entries[i].0@)
    &&& forall|name: Seq<char>| #[trigger]
        auxiliary.contains_key(name) ==> is_auxiliary(
            opening,
            open,
            dir,
            indices(schema),
            collator,
            entries,
            name,
            auxiliary[name],
        )
}

/// Opening the indices of a table with the given `schema` in the directory `dir`
/// failed because of `cause`: the directory is not to be locked,
/// or one index is not to be opened after those before it were.
pub open spec fn is_open_failure<S: Schema, C: Clone, FE: Send + Sync, F: Fn(
    S::Index,
    C,
    DirLock<FE>,
) -> Result<BTreeLock<S::Index, C, FE>, Error>>(
    opening: Opening,
    open: F,
    dir: DirLock<FE>,
    schema: S,
    collator: C,
    cause: Error,
) -> bool where S::Index: Clone {
    ||| call_ensures(DirLock::<FE>::try_write, (&dir,), Err(cause))
    ||| exists|n: nat|
        n <= schema.spec_auxiliary().len() && #[trigger] is_nth(
            opening,
            open,
            dir,
            indices(schema),
            collator,
            n,
            Err(cause),
        )
}

/// Opening the indices of a table with the given `schema` in the locked directory `dir` stopped
/// at one that is not to be opened because of `cause`, and left the contents `after`.
pub open spec fn is_stopped<'a, S: Schema, C: Clone, FE: Send + Sync, F: Fn(
    S::Index,
    C,
    DirLock<FE>,
) -> Result<BTreeLock<S::Index, C, FE>, Error>>(
    opening: Opening,
    open: F,
    dir: DirLock<FE>,
    schema: S,
    collator: C,
    cause: Error,
    after: RwLockWriteGuard<'a, Dir<FE>>,
) -> bool where S::Index: Clone {
    exists|n: nat|
        n <= schema.spec_auxiliary().len() && #[trigger] leaves_contents(
            opening,
            open,
            dir,
            indices(schema),
            collator,
            n,
            Err(cause),
            after,
        )
}

/// Stopping at one index is a failure to open the indices.
proof fn lemma_stopped<'a, S: Schema, C: Clone, FE: Send + Sync, F: Fn(
    S::Index,
    C,
    DirLock<FE>,
) -> Result<BTreeLock<S::Index, C, FE>, Error>>(
    opening: Opening,
    open: F,
    dir: DirLock<FE>,
    schema: S,
    collator: C,
    cause: Error,
    after: RwLockWriteGuard<'a, Dir<FE>>,
) where S::Index: Clone
    requires
        is_stopped(opening, open, dir, schema, collator, cause, after),
    ensures
        is_open_failure(opening, open, dir, schema, collator, cause),
{
    let order = indices(schema);
    let n = choose|n: nat|
        n <= schema.spec_auxiliary().len() && #[trigger] leaves_contents(
            opening,
            open,
            dir,
            order,
            collator,
            n,
            Err(cause),
            after,
        );
    assert(is_nth(opening, open, dir, order, collator, n, Err(cause)));
}

/// Opening one more index goes on from where the contents of the directory are.
proof fn lemma_nth<'a, IS: Clone, C: Clone, FE: Send + Sync, F: Fn(IS, C, DirLock<FE>) -> Result<
    BTreeLock<IS, C, FE>,
    Error,
>>(
    opening: Opening,
    open: F,
    dir: DirLock<FE>,
    indices: Seq<(Seq<char>, IS)>,
    collator: C,
    n: nat,
    before: RwLockWriteGuard<'a, Dir<FE>>,
    after: RwLockWriteGuard<'a, Dir<FE>>,
    lock: Result<BTreeLock<IS, C, FE>, Error>,
)
    requires
        are_contents(opening, open, dir, indices, collator, n, before),
        is_opened(
            opening,
            open,
            before,
            indices[n as int].0,
            indices[n as int].1,
            collator,
            after,
            lock,
        ),
    ensures
        leaves_contents(opening, open, dir, indices, collator, n, lock, after),
        is_nth(opening, open, dir, indices, collator, n, lock),
        lock is Ok ==> are_contents(opening, open, dir, indices, collator, n + 1, after),
{
    assert(leaves_contents(opening, open, dir, indices, collator, n, lock, after));
    if let Ok(lock) = lock {
        assert(is_opened(
            opening,
            open,
            before,
            indices[(n + 1) - 1].0,
            indices[(n + 1) - 1].1,
            collator,
            after,
            Ok(lock),
        ));
    }
}

/// Open the indices of a table with the given `schema` in the directory `dir`,
/// which is locked and has the given `contents`. Nothing else is done to the contents.
fn open_indices_in<'a, S: Schema, C: Clone, FE: Send + Sync, F: Fn(
    S::Index,
    C,
    DirLock<FE>,
) -> Result<BTreeLock<S::Index, C, FE>, Error>>(
    opening: Opening,
    open: &F,
    Ghost(dir): Ghost<DirLock<FE>>,
    contents: RwLockWriteGuard<'a, Dir<FE>>,
    schema: &S,
    collator: &C,
) -> (opened: (
    RwLockWriteGuard<'a, Dir<FE>>,
    Result<(BTreeLock<S::Index, C, FE>, IndexMap<BTreeLock<S::Index, C, FE>>), Error>,
)) where S::Id: PartialEq, S::Index: Clone
    requires
        is_accepted_schema(*schema),
        call_ensures(DirLock::<FE>::try_write, (&dir,), Ok(contents)),
        forall|schema: S::Index, collator: C, dir: DirLock<FE>| #[trigger]
            call_requires(*open, (schema, collator, dir)),
    ensures
        match opened.1 {
            Ok(locks) => {
                &&& are_opened(opening, *open, dir, *schema, *collator, locks.0, locks.1@)
                &&& are_contents(
                    opening,
                    *open,
                    dir,
                    indices(*schema),
                    *collator,
                    indices(*schema).len(),
                    opened.0,
                )
            },
            Err(cause) => is_stopped(
                opening,
                *open,
                dir,
                *schema,
                *collator,
                cause,
                opened.0,
            ),
        },
{
    let ghost order = indices(*schema);
    let ghost before = contents;
    let (after, opened) = open_index(opening, open, contents, PRIMARY, schema.primary(), collator);
    proof {
        assert(order[0] == (PRIMARY@, schema.spec_primary()));
        lemma_nth(opening, *open, dir, order, *collator, 0, before, after, opened);
    }
    let mut contents = after;
    let primary = match opened {
        Ok(primary) => primary,
        Err(cause) => {
            assert(leaves_contents(
                opening,
                *open,
                dir,
                order,
                *collator,
                0,
                Err(cause),
                contents,
            ));
            return (contents, Err(cause));
        },
    };
    let entries = schema.auxiliary();
    let mut auxiliary: IndexMap<BTreeLock<S::Index, C, FE>> = IndexMap::new();
    let mut i: usize = 0;
    while i < entries.len()
        invariant
            i <= entries@.len(),
            forall|schema: S::Index, collator: C, dir: DirLock<FE>| #[trigger]
                call_requires(*open, (schema, collator, dir)),
            entries@ == schema.spec_auxiliary(),
            order == indices(*schema),
            are_contents(opening, *open, dir, order, *collator, (i + 1) as nat, contents),
            forall|j: int| 0 <= j < i ==> auxiliary@.contains_key(#[trigger] entries@[j].0@),
            forall|name: Seq<char>| #[trigger]
                auxiliary@.contains_key(name) ==> is_auxiliary(
                    opening,
                    *open,
                    dir,
                    order,
                    *collator,
                    entries@.take(i as int),
                    name,
                    auxiliary@[name],
                ),
        decreases entries@.len() - i,
    {
        let (name, index) = &entries[i];
        let ghost before = contents;
        let (after, opened) = open_index(opening, open, contents, name.as_str(), index, collator);
        let ghost n = (i + 1) as nat;
        proof {
            assert(order[i + 1] == (name@, *index));
            lemma_nth(opening, *open, dir, order, *collator, n, before, after, opened);
        }
        contents = after;
        match opened {
            Ok(lock) => {
                let ghost held = auxiliary@;
                auxiliary.insert(name.clone(), lock);
                proof {
                    lemma_next_auxiliary(
                        opening,
                        *open,
                        dir,
                        order,
                        *collator,
                        entries@,
                        i as int,
                        held,
                        lock,
                    );
                }
            },
            Err(cause) => {
                return (contents, Err(cause));
            },
        }
        i += 1;
    }
    proof {
        assert(entries@.take(i as int) == entries@);
    }
    (contents, Ok((primary, auxiliary)))
}

/// Open the indices of a table with the given `schema`, which is valid, in the directory `dir`.
pub(super) fn open_indices<S: Schema, C: Clone, FE: Send + Sync, F: Fn(
    S::Index,
    C,
    DirLock<FE>,
) -> Result<BTreeLock<S::Index, C, FE>, Error>>(
    opening: Opening,
    open: &F,
    dir: &DirLock<FE>,
    schema: &S,
    collator: &C,
) -> (opened: Result<
    (BTreeLock<S::Index, C, FE>, IndexMap<BTreeLock<S::Index, C, FE>>),
    Error,
>) where S::Id: PartialEq, S::Index: Clone
    requires
        is_accepted_schema(*schema),
        forall|schema: S::Index, collator: C, dir: DirLock<FE>| #[trigger]
            call_requires(*open, (schema, collator, dir)),
    ensures
        match opened {
            Ok(locks) => are_opened(
                opening,
                *open,
                *dir,
                *schema,
                *collator,
                locks.0,
                locks.1@,
            ),
            Err(cause) => is_open_failure(opening, *open, *dir, *schema, *collator, cause),
        },
{
    match dir.try_write() {
        Ok(contents) => {
            let dir = Ghost(*dir);
            let (after, opened) = open_indices_in(opening, open, dir, contents, schema, collator);
            match opened {
                Ok(locks) => Ok(locks),
                Err(cause) => {
                    proof {
                        lemma_stopped(opening, *open, dir@, *schema, *collator, cause, after);
                    }
                    Err(cause)
                },
            }
        },
        Err(cause) => Err(cause),
    }
}

/// One more auxiliary index that was opened.
proof fn lemma_next_auxiliary<IS: Clone, C: Clone, FE: Send + Sync, F: Fn(
    IS,
    C,
    DirLock<FE>,
) -> Result<BTreeLock<IS, C, FE>, Error>>(
    opening: Opening,
    open: F,
    dir: DirLock<FE>,
    indices: Seq<(Seq<char>, IS)>,
    collator: C,
    entries: Seq<(String, IS)>,
    i: int,
    held: Map<Seq<char>, BTreeLock<IS, C, FE>>,
    lock: BTreeLock<IS, C, FE>,
)
    requires
        0 <= i < entries.len(),
        forall|name: Seq<char>| #[trigger]
            held.contains_key(name) ==> is_auxiliary(
                opening,
                open,
                dir,
                indices,
                collator,
                entries.take(i),
                name,
                held[name],
            ),
        is_nth(opening, open, dir, indices, collator, (i + 1) as nat, Ok(lock)),
    ensures
        forall|name: Seq<char>| #[trigger]
            held.insert(entries[i].0@, lock).contains_key(name) ==> is_auxiliary(
                opening,
                open,
                dir,
                indices,
                collator,
                entries.take(i + 1),
                name,
                held.insert(entries[i].0@, lock)[name],
            ),
{
    let before = entries.take(i);
    let after = entries.take(i + 1);
    assert forall|name: Seq<char>| #[trigger]
        held.insert(entries[i].0@, lock).contains_key(name) implies is_auxiliary(
        opening,
        open,
        dir,
        indices,
        collator,
        after,
        name,
        held.insert(entries[i].0@, lock)[name],
    ) by {
        if name == entries[i].0@ {
            assert(is_last_entry(after, name, i));
        } else {
            assert(held.contains_key(name));
            let j = choose|j: int|
                {
                    &&& #[trigger] is_last_entry(before, name, j)
                    &&& is_nth(opening, open, dir, indices, collator, (j + 1) as nat, Ok(held[name]))
                };
            assert forall|h: int| j < h implies !#[trigger] is_entry(after, name, h) by {
                if h < i {
                    assert(!is_entry(before, name, h));
                }
            }
            assert(is_last_entry(after, name, j));
        }
    }
}

} // verus!

//! A lock on a table.

use std::fmt::{Debug, Display};
use std::io::Error;
use std::sync::Arc;

use b_tree::{BTree, BTreeLock, Collator};
use freqfs::DirLock;
use vstd::prelude::*;

use super::acquire::{
    is_acquired, is_acquiring, law_lock_first, law_lock_next, lock_order, Acquisition, Progress,
};
use super::opening::{are_opened, is_open_failure, open_indices};
use super::validity::{is_accepted_schema, is_schema_error, is_valid_schema, valid_schema};
use super::{Table, TableReadGuard, TableWriteGuard};
use crate::equality::decides;
use crate::error::TableError;
use crate::index_map::{as_map, is_entry, is_sorted, lemma_entry, lemma_same_names, IndexMap};
use crate::schema::{Schema, TableSchema};
use crate::storage::{Opening, ReadGuard, WriteGuard};

verus! {

/// A lock on a table.
#[verifier::reject_recursive_types(S)]
#[verifier::reject_recursive_types(IS)]
#[verifier::reject_recursive_types(C)]
#[verifier::reject_recursive_types(FE)]
pub struct TableLock<S, IS, C, FE> {
    /// The schema of the table.
    pub schema: Arc<TableSchema<S>>,
    /// The directory of the table.
    pub dir: DirLock<FE>,
    /// The lock on the primary index.
    pub primary: BTreeLock<IS, C, FE>,
    /// The locks on the auxiliary indices. They are in order of the names of the indices,
    /// so that the locks are always taken in order.
    pub auxiliary: IndexMap<BTreeLock<IS, C, FE>>,
}

/// The entries, with references to their values.
pub open spec fn entry_refs<'a, T>(entries: Seq<(String, T)>) -> Seq<(String, &'a T)> {
    entries.map_values(|entry: (String, T)| (entry.0, &entry.1))
}

/// What taking a lock for reading can give.
pub open spec fn read_outcome<IS, C: Clone, FE: Send + Sync>() -> spec_fn(
    BTreeLock<IS, C, FE>,
    Result<BTree<IS, C, ReadGuard<FE>>, Error>,
) -> bool {
    |lock: BTreeLock<IS, C, FE>, tree: Result<BTree<IS, C, ReadGuard<FE>>, Error>|
        call_ensures(BTreeLock::<IS, C, FE>::try_read, (&lock,), tree)
}

/// What taking a lock for writing can give.
pub open spec fn write_outcome<IS, C: Clone, FE: Send + Sync>() -> spec_fn(
    BTreeLock<IS, C, FE>,
    Result<BTree<IS, C, WriteGuard<FE>>, Error>,
) -> bool {
    |lock: BTreeLock<IS, C, FE>, tree: Result<BTree<IS, C, WriteGuard<FE>>, Error>|
        call_ensures(BTreeLock::<IS, C, FE>::try_write, (&lock,), tree)
}

/// The lock gave `tree`.
pub open spec fn gave_tree<IS, C, FE, G>(
    outcome: spec_fn(BTreeLock<IS, C, FE>, Result<BTree<IS, C, G>, Error>) -> bool,
) -> spec_fn(BTreeLock<IS, C, FE>, BTree<IS, C, G>) -> bool {
    |lock: BTreeLock<IS, C, FE>, tree: BTree<IS, C, G>| outcome(lock, Ok(tree))
}

/// The lock was refused because of `cause`.
pub open spec fn gave_error<IS, C, FE, G>(
    outcome: spec_fn(BTreeLock<IS, C, FE>, Result<BTree<IS, C, G>, Error>) -> bool,
    lock: BTreeLock<IS, C, FE>,
    cause: Error,
) -> bool {
    outcome(lock, Err(cause))
}

/// The lock gave some tree.
pub open spec fn gave_some_tree<IS, C, FE, G>(
    outcome: spec_fn(BTreeLock<IS, C, FE>, Result<BTree<IS, C, G>, Error>) -> bool,
    lock: BTreeLock<IS, C, FE>,
) -> bool {
    exists|tree: BTree<IS, C, G>| #[trigger] outcome(lock, Ok(tree))
}

/// All locks of the table `lock` gave the trees of `table`.
pub open spec fn is_locked<S, IS, C, FE, G>(
    outcome: spec_fn(BTreeLock<IS, C, FE>, Result<BTree<IS, C, G>, Error>) -> bool,
    lock: TableLock<S, IS, C, FE>,
    table: Table<S, IS, C, G>,
) -> bool {
    is_acquired(
        gave_tree(outcome),
        lock.schema,
        lock.primary,
        lock.auxiliary.spec_entries(),
        table,
    )
}

/// Of the locks of the table `lock`, one was refused because of `cause`,
/// after those before it in order gave trees.
pub open spec fn is_refused<S, IS, C, FE, G>(
    outcome: spec_fn(BTreeLock<IS, C, FE>, Result<BTree<IS, C, G>, Error>) -> bool,
    lock: TableLock<S, IS, C, FE>,
    cause: Error,
) -> bool {
    exists|k: int|
        {
            &&& 0 <= k < lock.lock_order().len()
            &&& #[trigger] gave_error(outcome, lock.lock_order()[k], cause)
            &&& forall|j: int|
                0 <= j < k ==> gave_some_tree(outcome, #[trigger] lock.lock_order()[j])
        }
}

impl<S, IS, C, FE> TableLock<S, IS, C, FE> {
    /// The locks on the indices in the order in which they are taken:
    /// that on the primary index first, then those on the auxiliary indices by name.
    pub open spec fn lock_order(self) -> Seq<BTreeLock<IS, C, FE>> {
        lock_order(self.primary, self.auxiliary.spec_entries())
    }

    /// Borrow the schema of this table.
    pub fn schema(&self) -> (schema: &S)
        ensures
            *schema == self.schema.spec_inner(),
    {
        self.schema.inner()
    }

    /// Borrow the collator of this table, which is that of its primary index.
    pub fn collator(&self) -> (collator: &Collator<C>)
        ensures
            call_ensures(BTreeLock::<IS, C, FE>::collator, (&self.primary,), collator),
    {
        self.primary.collator()
    }

    /// The first lock to take, and the state of locking the table while that lock is being taken.
    fn acquire<'a, G>(&'a self) -> (begun: (
        &'a BTreeLock<IS, C, FE>,
        Acquisition<S, &'a BTreeLock<IS, C, FE>, IS, C, G>,
    ))
        ensures
            begun.0 == &self.primary,
            begun.1.is_begun(self.schema, entry_refs(self.auxiliary.spec_entries())),
            is_sorted(self.auxiliary.spec_entries()),
    {
        let mut auxiliary: Vec<(String, &'a BTreeLock<IS, C, FE>)> = Vec::new();
        let len = self.auxiliary.len();
        let mut i: usize = 0;
        while i < len
            invariant
                i <= len,
                len == self.auxiliary.spec_entries().len(),
                i == auxiliary@.len(),
                forall|j: int|
                    0 <= j < i ==> #[trigger] auxiliary@[j] == entry_refs(
                        self.auxiliary.spec_entries(),
                    )[j],
            decreases len - i,
        {
            let (name, lock) = self.auxiliary.at(i);
            auxiliary.push((name.clone(), lock));
            i += 1;
        }
        proof {
            assert(auxiliary@ == entry_refs(self.auxiliary.spec_entries()));
        }
        (&self.primary, Acquisition::new(self.schema.clone(), auxiliary))
    }

    /// The first lock to take, and the state of locking the table while that lock is being taken,
    /// without borrowing.
    fn into_acquire<G>(self) -> (begun: (
        BTreeLock<IS, C, FE>,
        Acquisition<S, BTreeLock<IS, C, FE>, IS, C, G>,
    ))
        ensures
            begun.0 == self.primary,
            begun.1.is_begun(self.schema, self.auxiliary.spec_entries()),
            is_sorted(self.auxiliary.spec_entries()),
    {
        let auxiliary = self.auxiliary.into_entries();
        (self.primary, Acquisition::new(self.schema, auxiliary))
    }

    /// Lock this table for reading: take the first lock and go on from there.
    pub fn read<'a>(&'a self) -> (begun: (
        &'a BTreeLock<IS, C, FE>,
        Acquisition<S, &'a BTreeLock<IS, C, FE>, IS, C, ReadGuard<FE>>,
    ))
        ensures
            begun.0 == &self.primary,
            begun.1.is_begun(self.schema, entry_refs(self.auxiliary.spec_entries())),
            is_sorted(self.auxiliary.spec_entries()),
    {
        self.acquire()
    }

    /// Lock this table for reading, without borrowing: take the first lock and go on from there.
    pub fn into_read(self) -> (begun: (
        BTreeLock<IS, C, FE>,
        Acquisition<S, BTreeLock<IS, C, FE>, IS, C, ReadGuard<FE>>,
    ))
        ensures
            begun.0 == self.primary,
            begun.1.is_begun(self.schema, self.auxiliary.spec_entries()),
            is_sorted(self.auxiliary.spec_entries()),
    {
        self.into_acquire()
    }

    /// Lock this table for writing: take the first lock and go on from there.
    pub fn write<'a>(&'a self) -> (begun: (
        &'a BTreeLock<IS, C, FE>,
        Acquisition<S, &'a BTreeLock<IS, C, FE>, IS, C, WriteGuard<FE>>,
    ))
        ensures
            begun.0 == &self.primary,
            begun.1.is_begun(self.schema, entry_refs(self.auxiliary.spec_entries())),
            is_sorted(self.auxiliary.spec_entries()),
    {
        self.acquire()
    }

    /// Lock this table for writing, without borrowing: take the first lock and go on from there.
    pub fn into_write(self) -> (begun: (
        BTreeLock<IS, C, FE>,
        Acquisition<S, BTreeLock<IS, C, FE>, IS, C, WriteGuard<FE>>,
    ))
        ensures
            begun.0 == self.primary,
            begun.1.is_begun(self.schema, self.auxiliary.spec_entries()),
            is_sorted(self.auxiliary.spec_entries()),
    {
        self.into_acquire()
    }
}

/// The lock that is referred to gave `tree`.
spec fn gave_tree_ref<'a, IS, C, FE, G>(
    outcome: spec_fn(BTreeLock<IS, C, FE>, Result<BTree<IS, C, G>, Error>) -> bool,
) -> spec_fn(&'a BTreeLock<IS, C, FE>, BTree<IS, C, G>) -> bool {
    |lock: &'a BTreeLock<IS, C, FE>, tree: BTree<IS, C, G>| outcome(*lock, Ok(tree))
}

/// References to entries are in the same order, and refer to the same values.
proof fn lemma_entry_refs<T>(primary: T, entries: Seq<(String, T)>)
    requires
        is_sorted(entries),
    ensures
        is_sorted(entry_refs(entries)),
        as_map(entry_refs(entries)).dom() == as_map(entries).dom(),
        forall|name: Seq<char>| #[trigger]
            as_map(entries).contains_key(name) ==> *as_map(entry_refs(entries))[name] == as_map(
                entries,
            )[name],
        lock_order(&primary, entry_refs(entries)).len() == lock_order(primary, entries).len(),
        forall|k: int|
            0 <= k < lock_order(primary, entries).len() ==> *lock_order(
                &primary,
                entry_refs(entries),
            )[k] == #[trigger] lock_order(primary, entries)[k],
{
    let refs = entry_refs(entries);
    lemma_same_names(entries, refs);
    assert forall|name: Seq<char>| #[trigger] as_map(entries).contains_key(name) implies *as_map(
        refs,
    )[name] == as_map(entries)[name] by {
        let i = choose|i: int| is_entry(entries, name, i);
        lemma_entry(entries, name, i);
        lemma_entry(refs, name, i);
    }
}

impl<S, IS, C: Clone, FE: Send + Sync> TableLock<S, IS, C, FE> {
    /// Take all locks of this table in order by calling `take`, which has the given `outcome`.
    fn try_lock<G, F: Fn(&BTreeLock<IS, C, FE>) -> Result<BTree<IS, C, G>, Error>>(
        &self,
        take: F,
        Ghost(outcome): Ghost<
            spec_fn(BTreeLock<IS, C, FE>, Result<BTree<IS, C, G>, Error>) -> bool,
        >,
    ) -> (table: Result<Table<S, IS, C, G>, TableError>)
        requires
            forall|lock: &BTreeLock<IS, C, FE>| #[trigger] call_requires(take, (lock,)),
            forall|lock: &BTreeLock<IS, C, FE>, tree: Result<BTree<IS, C, G>, Error>| #[trigger]
                call_ensures(take, (lock,), tree) ==> outcome(*lock, tree),
        ensures
            match table {
                Ok(table) => is_locked(outcome, *self, table),
                Err(error) => error matches TableError::Io(cause) && is_refused(
                    outcome,
                    *self,
                    cause,
                ),
            },
    {
        let ghost entries = self.auxiliary.spec_entries();
        let ghost mut k: int = 0;
        let begun = self.acquire();
        let mut lock = begun.0;
        let mut acquisition = begun.1;
        proof {
            law_lock_first(
                gave_tree_ref(outcome),
                self.schema,
                &self.primary,
                entry_refs(entries),
                acquisition,
            );
        }
        loop
            invariant
                forall|lock: &BTreeLock<IS, C, FE>| #[trigger] call_requires(take, (lock,)),
                forall|lock: &BTreeLock<IS, C, FE>, tree: Result<BTree<IS, C, G>, Error>|
                    #[trigger] call_ensures(take, (lock,), tree) ==> outcome(*lock, tree),
                entries == self.auxiliary.spec_entries(),
                is_sorted(entries),
                is_acquiring(
                    gave_tree_ref(outcome),
                    self.schema,
                    &self.primary,
                    entry_refs(entries),
                    acquisition,
                    k,
                ),
                *lock == self.lock_order()[k],
                forall|j: int|
                    0 <= j < k ==> gave_some_tree(outcome, #[trigger] self.lock_order()[j]),
            decreases entries.len() - k,
        {
            match take(lock) {
                Ok(tree) => {
                    let ghost waiting = acquisition;
                    let progress = acquisition.acquired(tree);
                    proof {
                        assert(outcome(self.lock_order()[k], Ok(tree)));
                        lemma_entry_refs(self.primary, entries);
                        law_lock_next(
                            gave_tree_ref(outcome),
                            self.schema,
                            &self.primary,
                            entry_refs(entries),
                            waiting,
                            k,
                            tree,
                            progress,
                        );
                    }
                    match progress {
                        Progress::Next(next, going_on) => {
                            proof {
                                k = k + 1;
                            }
                            lock = next;
                            acquisition = going_on;
                        },
                        Progress::Done(table) => {
                            return Ok(table);
                        },
                    }
                },
                Err(cause) => {
                    assert(gave_error(outcome, self.lock_order()[k], cause));
                    return Err(TableError::Io(cause));
                },
            }
        }
    }

    /// Lock this table for reading without waiting, if possible.
    pub fn try_read(&self) -> (table: Result<TableReadGuard<S, IS, C, FE>, TableError>)
        ensures
            match table {
                Ok(table) => is_locked(read_outcome(), *self, table),
                Err(error) => error matches TableError::Io(cause) && is_refused(
                    read_outcome(),
                    *self,
                    cause,
                ),
            },
            table matches Ok(table) ==> {
                &&& call_ensures(
                    BTreeLock::<IS, C, FE>::try_read,
                    (&self.primary,),
                    Ok(table.state.primary),
                )
                &&& table.state.auxiliary@.dom() == self.auxiliary@.dom()
                &&& forall|name: Seq<char>| #[trigger]
                    self.auxiliary@.contains_key(name) ==> call_ensures(
                        BTreeLock::<IS, C, FE>::try_read,
                        (&self.auxiliary@[name],),
                        Ok(table.state.auxiliary@[name]),
                    )
            },
    {
        let take = |lock: &BTreeLock<IS, C, FE>| -> (tree: Result<
            BTree<IS, C, ReadGuard<FE>>,
            Error,
        >)
            ensures
                call_ensures(BTreeLock::<IS, C, FE>::try_read, (lock,), tree),
            { lock.try_read() };
        self.try_lock(take, Ghost(read_outcome()))
    }

    /// Lock this table for writing without waiting, if possible.
    pub fn try_write(&self) -> (table: Result<TableWriteGuard<S, IS, C, FE>, TableError>)
        ensures
            match table {
                Ok(table) => is_locked(write_outcome(), *self, table),
                Err(error) => error matches TableError::Io(cause) && is_refused(
                    write_outcome(),
                    *self,
                    cause,
                ),
            },
            table matches Ok(table) ==> {
                &&& call_ensures(
                    BTreeLock::<IS, C, FE>::try_write,
                    (&self.primary,),
                    Ok(table.state.primary),
                )
                &&& table.state.auxiliary@.dom() == self.auxiliary@.dom()
                &&& forall|name: Seq<char>| #[trigger]
                    self.auxiliary@.contains_key(name) ==> call_ensures(
                        BTreeLock::<IS, C, FE>::try_write,
                        (&self.auxiliary@[name],),
                        Ok(table.state.auxiliary@[name]),
                    )
            },
    {
        let take = |lock: &BTreeLock<IS, C, FE>| -> (tree: Result<
            BTree<IS, C, WriteGuard<FE>>,
            Error,
        >)
            ensures
                call_ensures(BTreeLock::<IS, C, FE>::try_write, (lock,), tree),
            { lock.try_write() };
        self.try_lock(take, Ghost(write_outcome()))
    }
}

impl<S, IS, C: Clone, FE> Clone for TableLock<S, IS, C, FE> {
    fn clone(&self) -> (copy: Self)
        ensures
            copy.schema == self.schema,
            copy.dir == self.dir,
            cloned(self.primary, copy.primary),
            copy.auxiliary@.dom() == self.auxiliary@.dom(),
            forall|name: Seq<char>| #[trigger]
                copy.auxiliary@.contains_key(name) ==> cloned(
                    self.auxiliary@[name],
                    copy.auxiliary@[name],
                ),
    {
        TableLock {
            schema: self.schema.clone(),
            dir: self.dir.clone(),
            primary: self.primary.clone(),
            auxiliary: self.auxiliary.clone(),
        }
    }
}

/// The check of the `schema` found nothing wrong.
pub open spec fn passes_check<S: Schema + Debug>(schema: S) -> bool where
    S::Id: PartialEq + Display,
 {
    exists|checked: Result<(), TableError>| #[trigger]
        call_ensures(valid_schema::<S>, (&schema,), checked) && checked is Ok
}

/// Opening a table in the directory `dir` came out as `lock`. A `schema` that is not valid
/// is refused because of its fault. Where the schema is valid, its indices were opened,
/// or one of them could not be.
pub open spec fn is_opened_table<S: Schema + Debug, C: Clone, FE: Send + Sync, F: Fn(
    S::Index,
    C,
    DirLock<FE>,
) -> Result<BTreeLock<S::Index, C, FE>, Error>>(
    opening: Opening,
    open: F,
    schema: S,
    collator: C,
    dir: DirLock<FE>,
    lock: Result<TableLock<S, S::Index, C, FE>, TableError>,
) -> bool where S::Id: PartialEq + Display, S::Index: Clone {
    match lock {
        Ok(lock) => {
            &&& passes_check(schema)
            &&& is_accepted_schema(schema)
            &&& lock.schema.spec_inner() == schema
            &&& lock.dir == dir
            &&& are_opened(opening, open, dir, schema, collator, lock.primary, lock.auxiliary@)
        },
        Err(TableError::Io(cause)) => {
            &&& passes_check(schema)
            &&& is_accepted_schema(schema)
            &&& is_open_failure(opening, open, dir, schema, collator, cause)
        },
        Err(error) => {
            &&& call_ensures(valid_schema::<S>, (&schema,), Err(error))
            &&& forall|same: spec_fn(S::Id, S::Id) -> bool| #[trigger]
                decides(same) ==> {
                    &&& !is_valid_schema(same, schema)
                    &&& is_schema_error(same, schema, error)
                }
        },
    }
}

impl<S: Schema + Debug, C: Clone, FE: Send + Sync> TableLock<S, S::Index, C, FE> where
    S::Id: PartialEq + Display,
    S::Index: Clone,
 {
    /// Open a table.
    fn opened<F: Fn(S::Index, C, DirLock<FE>) -> Result<BTreeLock<S::Index, C, FE>, Error>>(
        opening: Opening,
        schema: S,
        collator: C,
        dir: DirLock<FE>,
        open: F,
    ) -> (lock: Result<Self, TableError>)
        requires
            is_accepted_schema(schema) ==> forall|index: S::Index, collator: C, dir: DirLock<FE>|
                #[trigger] call_requires(open, (index, collator, dir)),
        ensures
            is_opened_table(opening, open, schema, collator, dir, lock),
    {
        let checked = valid_schema(&schema);
        assert(call_ensures(valid_schema::<S>, (&schema,), checked));
        match checked {
            Ok(()) => {},
            Err(error) => {
                return Err(error);
            },
        }
        match open_indices(opening, &open, &dir, &schema, &collator) {
            Ok((primary, auxiliary)) => Ok(
                TableLock { schema: Arc::new(TableSchema::new(schema)), dir, primary, auxiliary },
            ),
            Err(cause) => Err(TableError::Io(cause)),
        }
    }

    /// Create a new table in the given `dir`, where `open` creates one index in a directory.
    /// It is called only if the `schema` is valid.
    pub fn create<F: Fn(S::Index, C, DirLock<FE>) -> Result<BTreeLock<S::Index, C, FE>, Error>>(
        schema: S,
        collator: C,
        dir: DirLock<FE>,
        open: F,
    ) -> (lock: Result<Self, TableError>)
        requires
            is_accepted_schema(schema) ==> forall|index: S::Index, collator: C, dir: DirLock<FE>|
                #[trigger] call_requires(open, (index, collator, dir)),
        ensures
            is_opened_table(Opening::Create, open, schema, collator, dir, lock),
    {
        Self::opened(Opening::Create, schema, collator, dir, open)
    }

    /// Load an existing table with the given `schema` from the given `dir`,
    /// where `open` loads one index from a directory. It is called only if the schema is valid.
    pub fn load<F: Fn(S::Index, C, DirLock<FE>) -> Result<BTreeLock<S::Index, C, FE>, Error>>(
        schema: S,
        collator: C,
        dir: DirLock<FE>,
        open: F,
    ) -> (lock: Result<Self, TableError>)
        requires
            is_accepted_schema(schema) ==> forall|index: S::Index, collator: C, dir: DirLock<FE>|
                #[trigger] call_requires(open, (index, collator, dir)),
        ensures
            is_opened_table(Opening::Load, open, schema, collator, dir, lock),
    {
        Self::opened(Opening::Load, schema, collator, dir, open)
    }
}

} // verus!

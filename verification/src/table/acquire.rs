//! Locking the indices of a table, one after the other.

use std::sync::Arc;

use b_tree::BTree;
use vstd::prelude::*;

use super::table_state::TableState;
use super::Table;
use crate::index_map::{as_map, is_entry, is_sorted, lemma_entry, IndexMap};
use crate::schema::TableSchema;

verus! {

/// The index whose lock is being taken.
#[verifier::reject_recursive_types(IS)]
#[verifier::reject_recursive_types(C)]
#[verifier::reject_recursive_types(G)]
enum Turn<IS, C, G> {
    /// The primary index.
    Primary,
    /// The auxiliary index with this name, after the primary index was locked.
    Auxiliary(BTree<IS, C, G>, String),
}

/// The state of locking the indices of a table, while one lock of type `L` is being taken.
#[verifier::reject_recursive_types(S)]
#[verifier::reject_recursive_types(L)]
#[verifier::reject_recursive_types(IS)]
#[verifier::reject_recursive_types(C)]
#[verifier::reject_recursive_types(G)]
pub struct Acquisition<S, L, IS, C, G> {
    schema: Arc<TableSchema<S>>,
    turn: Turn<IS, C, G>,
    held: IndexMap<BTree<IS, C, G>>,
    // the last one is the next one
    pending: Vec<(String, L)>,
}

/// What to do after a lock was taken.
#[verifier::reject_recursive_types(S)]
#[verifier::reject_recursive_types(L)]
#[verifier::reject_recursive_types(IS)]
#[verifier::reject_recursive_types(C)]
#[verifier::reject_recursive_types(G)]
pub enum Progress<S, L, IS, C, G> {
    /// Take this lock, then go on.
    Next(L, Acquisition<S, L, IS, C, G>),
    /// All indices are locked, and here is the table.
    Done(Table<S, IS, C, G>),
}

impl<S, L, IS, C, G> Acquisition<S, L, IS, C, G> {
    /// The schema of the table.
    pub closed spec fn spec_schema(self) -> Arc<TableSchema<S>> {
        self.schema
    }

    /// The name of the auxiliary index whose lock is being taken,
    /// or nothing if it is that of the primary index.
    pub closed spec fn turn_name(self) -> Option<Seq<char>> {
        match self.turn {
            Turn::Primary => None,
            Turn::Auxiliary(_, name) => Some(name@),
        }
    }

    /// The primary index, once it is locked.
    pub closed spec fn held_primary(self) -> Option<BTree<IS, C, G>> {
        match self.turn {
            Turn::Primary => None,
            Turn::Auxiliary(primary, _) => Some(primary),
        }
    }

    /// The auxiliary indices that are locked.
    pub closed spec fn held_auxiliary(self) -> Map<Seq<char>, BTree<IS, C, G>> {
        match self.turn {
            Turn::Primary => Map::empty(),
            Turn::Auxiliary(_, _) => self.held@,
        }
    }

    /// The locks that are still to be taken, with the names of their indices, in order.
    pub closed spec fn spec_pending(self) -> Seq<(String, L)> {
        self.pending@.reverse()
    }

    /// The primary index, once the lock that is being taken gave `tree`.
    pub open spec fn primary_with(self, tree: BTree<IS, C, G>) -> BTree<IS, C, G> {
        match self.turn_name() {
            None => tree,
            Some(_) => self.held_primary()->0,
        }
    }

    /// The auxiliary indices that are locked, once the lock that is being taken gave `tree`.
    pub open spec fn auxiliary_with(self, tree: BTree<IS, C, G>) -> Map<
        Seq<char>,
        BTree<IS, C, G>,
    > {
        match self.turn_name() {
            None => Map::empty(),
            Some(name) => self.held_auxiliary().insert(name, tree),
        }
    }

    /// The locking has only begun: the lock of the primary index is being taken,
    /// and those of the `auxiliary` indices are to follow in order.
    pub open spec fn is_begun(
        self,
        schema: Arc<TableSchema<S>>,
        auxiliary: Seq<(String, L)>,
    ) -> bool {
        &&& self.spec_schema() == schema
        &&& self.turn_name() is None
        &&& self.spec_pending() == auxiliary
    }

    /// `progress` is what follows once the lock that is being taken gave `tree`:
    /// the next lock in order or, if there is none, the table.
    pub open spec fn is_progress(
        self,
        tree: BTree<IS, C, G>,
        progress: Progress<S, L, IS, C, G>,
    ) -> bool {
        match progress {
            Progress::Next(lock, next) => {
                &&& self.spec_pending().len() > 0
                &&& lock == self.spec_pending()[0].1
                &&& next.spec_schema() == self.spec_schema()
                &&& next.turn_name() == Some(self.spec_pending()[0].0@)
                &&& next.held_primary() == Some(self.primary_with(tree))
                &&& next.held_auxiliary() == self.auxiliary_with(tree)
                &&& next.spec_pending() == self.spec_pending().drop_first()
            },
            Progress::Done(table) => {
                &&& self.spec_pending().len() == 0
                &&& table.schema == self.spec_schema()
                &&& table.state.primary == self.primary_with(tree)
                &&& table.state.auxiliary@ == self.auxiliary_with(tree)
            },
        }
    }

    /// Begin with the primary index, and go on with the locks of the `auxiliary` ones in order.
    pub(super) fn new(schema: Arc<TableSchema<S>>, auxiliary: Vec<(String, L)>) -> (begun: Self)
        ensures
            begun.is_begun(schema, auxiliary@),
    {
        let mut auxiliary = auxiliary;
        let mut pending: Vec<(String, L)> = Vec::new();
        let ghost given = auxiliary@;
        while auxiliary.len() > 0
            invariant
                given == auxiliary@ + pending@.reverse(),
            decreases auxiliary@.len(),
        {
            let ghost before = auxiliary@;
            let ghost done = pending@;
            if let Some(entry) = auxiliary.pop() {
                pending.push(entry);
                proof {
                    assert(pending@.reverse() == seq![entry] + done.reverse());
                    assert(before == auxiliary@.push(entry));
                    assert(auxiliary@ + pending@.reverse() == before + done.reverse());
                }
            }
        }
        Acquisition { schema, turn: Turn::Primary, held: IndexMap::new(), pending }
    }

    /// Go on after the lock that was being taken gave `tree`.
    pub fn acquired(self, tree: BTree<IS, C, G>) -> (progress: Progress<S, L, IS, C, G>)
        ensures
            self.is_progress(tree, progress),
    {
        let ghost waiting = self.pending@;
        let (primary, held) = match self.turn {
            Turn::Primary => (tree, IndexMap::new()),
            Turn::Auxiliary(primary, name) => {
                let mut held = self.held;
                held.insert(name, tree);
                (primary, held)
            },
        };
        let mut pending = self.pending;
        match pending.pop() {
            Some((name, lock)) => {
                proof {
                    assert(waiting.reverse()[0] == waiting.last());
                    assert(pending@.reverse() == waiting.reverse().drop_first());
                }
                Progress::Next(
                    lock,
                    Acquisition {
                        schema: self.schema,
                        turn: Turn::Auxiliary(primary, name),
                        held,
                        pending,
                    },
                )
            },
            None => Progress::Done(
                Table { schema: self.schema, state: TableState { primary, auxiliary: held } },
            ),
        }
    }
}

/// The locks of a table in the order in which they are taken:
/// that on the primary index first, then those on the auxiliary indices.
pub open spec fn lock_order<L>(primary: L, auxiliary: Seq<(String, L)>) -> Seq<L> {
    seq![primary] + auxiliary.map_values(|entry: (String, L)| entry.1)
}

/// The locking of a table has come to the `k`th of its locks, and those before it
/// `gave` the trees that are held.
pub open spec fn is_acquiring<S, L, IS, C, G>(
    gave: spec_fn(L, BTree<IS, C, G>) -> bool,
    schema: Arc<TableSchema<S>>,
    primary: L,
    auxiliary: Seq<(String, L)>,
    acquisition: Acquisition<S, L, IS, C, G>,
    k: int,
) -> bool {
    let held = acquisition.held_auxiliary();
    &&& 0 <= k < lock_order(primary, auxiliary).len()
    &&& acquisition.spec_schema() == schema
    &&& acquisition.spec_pending() == auxiliary.skip(k)
    &&& acquisition.turn_name() == if k == 0 {
        None
    } else {
        Some(auxiliary[k - 1].0@)
    }
    &&& k > 0 ==> {
        &&& gave(primary, acquisition.held_primary()->0)
        &&& forall|i: int|
            0 <= i < k - 1 ==> {
                &&& held.contains_key(#[trigger] auxiliary[i].0@)
                &&& gave(auxiliary[i].1, held[auxiliary[i].0@])
            }
        &&& forall|name: Seq<char>| #[trigger]
            held.contains_key(name) ==> exists|i: int| i < k - 1 && is_entry(auxiliary, name, i)
    }
}

/// The `table` is locked: it has an index for each of its locks, which `gave` it.
pub open spec fn is_acquired<S, L, IS, C, G>(
    gave: spec_fn(L, BTree<IS, C, G>) -> bool,
    schema: Arc<TableSchema<S>>,
    primary: L,
    auxiliary: Seq<(String, L)>,
    table: Table<S, IS, C, G>,
) -> bool {
    &&& table.schema == schema
    &&& gave(primary, table.state.primary)
    &&& table.state.auxiliary@.dom() == as_map(auxiliary).dom()
    &&& forall|name: Seq<char>| #[trigger]
        table.state.auxiliary@.contains_key(name) ==> gave(
            as_map(auxiliary)[name],
            table.state.auxiliary@[name],
        )
}

/// Locking a table begins with the lock of its primary index.
pub proof fn law_lock_first<S, L, IS, C, G>(
    gave: spec_fn(L, BTree<IS, C, G>) -> bool,
    schema: Arc<TableSchema<S>>,
    primary: L,
    auxiliary: Seq<(String, L)>,
    acquisition: Acquisition<S, L, IS, C, G>,
)
    requires
        acquisition.is_begun(schema, auxiliary),
    ensures
        is_acquiring(gave, schema, primary, auxiliary, acquisition, 0),
{
    assert(auxiliary.skip(0) =~= auxiliary);
}

/// Locking a table takes its locks one by one, in order. Once all of them are taken,
/// it gives a table that has, for each lock, the index which that lock gave.
pub proof fn law_lock_next<S, L, IS, C, G>(
    gave: spec_fn(L, BTree<IS, C, G>) -> bool,
    schema: Arc<TableSchema<S>>,
    primary: L,
    auxiliary: Seq<(String, L)>,
    acquisition: Acquisition<S, L, IS, C, G>,
    k: int,
    tree: BTree<IS, C, G>,
    progress: Progress<S, L, IS, C, G>,
)
    requires
        is_sorted(auxiliary),
        is_acquiring(gave, schema, primary, auxiliary, acquisition, k),
        gave(lock_order(primary, auxiliary)[k], tree),
        acquisition.is_progress(tree, progress),
    ensures
        match progress {
            Progress::Next(lock, next) => {
                &&& k + 1 < lock_order(primary, auxiliary).len()
                &&& lock == lock_order(primary, auxiliary)[k + 1]
                &&& is_acquiring(gave, schema, primary, auxiliary, next, k + 1)
            },
            Progress::Done(table) => {
                &&& k + 1 == lock_order(primary, auxiliary).len()
                &&& is_acquired(gave, schema, primary, auxiliary, table)
            },
        },
{
    let held = acquisition.auxiliary_with(tree);
    if k > 0 {
        assert(lock_order(primary, auxiliary)[k] == auxiliary[k - 1].1);
    }
    assert forall|i: int| 0 <= i < k implies {
        &&& held.contains_key(#[trigger] auxiliary[i].0@)
        &&& gave(auxiliary[i].1, held[auxiliary[i].0@])
    } by {
        if i < k - 1 {
            lemma_entry(auxiliary, auxiliary[i].0@, i);
            assert(!is_entry(auxiliary, auxiliary[i].0@, k - 1));
        }
    }
    assert forall|name: Seq<char>| #[trigger] held.contains_key(name) implies exists|i: int|
        i < k && is_entry(auxiliary, name, i) by {
        if name == auxiliary[k - 1].0@ {
            assert(is_entry(auxiliary, name, k - 1));
        } else {
            assert(acquisition.held_auxiliary().contains_key(name));
            let i = choose|i: int| i < k - 1 && is_entry(auxiliary, name, i);
            assert(i < k && is_entry(auxiliary, name, i));
        }
    }
    match progress {
        Progress::Next(lock, next) => {
            assert(auxiliary.skip(k).drop_first() =~= auxiliary.skip(k + 1));
            assert(lock_order(primary, auxiliary)[k + 1] == auxiliary[k].1);
        },
        Progress::Done(table) => {
            assert forall|name: Seq<char>| held.dom().contains(name) == as_map(
                auxiliary,
            ).dom().contains(name) by {
                if as_map(auxiliary).dom().contains(name) {
                    let i = choose|i: int| is_entry(auxiliary, name, i);
                    assert(held.contains_key(auxiliary[i].0@));
                }
                if held.contains_key(name) {
                    let i = choose|i: int| i < k && is_entry(auxiliary, name, i);
                    assert(is_entry(auxiliary, name, i));
                }
            }
            assert(held.dom() =~= as_map(auxiliary).dom());
            assert forall|name: Seq<char>| #[trigger] held.contains_key(name) implies gave(
                as_map(auxiliary)[name],
                held[name],
            ) by {
                let i = choose|i: int| i < k && is_entry(auxiliary, name, i);
                lemma_entry(auxiliary, name, i);
                assert(gave(auxiliary[i].1, held[auxiliary[i].0@]));
            }
        },
    }
}

} // verus!

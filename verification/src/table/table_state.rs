//! The indices of a table that is locked.

use b_tree::BTree;
use vstd::prelude::*;

use crate::index_map::IndexMap;
use crate::storage::{ReadGuard, WriteGuard};

verus! {

/// The indices of a table that is locked.
#[verifier::reject_recursive_types(IS)]
#[verifier::reject_recursive_types(C)]
#[verifier::reject_recursive_types(G)]
pub struct TableState<IS, C, G> {
    /// The primary index.
    pub primary: BTree<IS, C, G>,
    /// The auxiliary indices, by name.
    pub auxiliary: IndexMap<BTree<IS, C, G>>,
}

/// `after` is what the tree `before`, locked for writing, turns into
/// when its lock is turned into one for reading.
pub open spec fn is_downgraded_tree<IS, C, FE>(
    before: BTree<IS, C, WriteGuard<FE>>,
    after: BTree<IS, C, ReadGuard<FE>>,
) -> bool {
    call_ensures(BTree::<IS, C, WriteGuard<FE>>::downgrade, (before,), after)
}

/// The trees `after` are what the trees `before`, locked for writing, turn into
/// when their locks are turned into locks for reading.
pub open spec fn is_downgraded<IS, C, FE>(
    before: TableState<IS, C, WriteGuard<FE>>,
    after: TableState<IS, C, ReadGuard<FE>>,
) -> bool {
    &&& is_downgraded_tree(before.primary, after.primary)
    &&& after.auxiliary@.dom() == before.auxiliary@.dom()
    &&& forall|name: Seq<char>| #[trigger]
        after.auxiliary@.contains_key(name) ==> is_downgraded_tree(
            before.auxiliary@[name],
            after.auxiliary@[name],
        )
}

impl<IS, C, FE> TableState<IS, C, WriteGuard<FE>> {
    /// Turn the locks of all indices into locks for reading.
    pub fn downgrade(self) -> (state: TableState<IS, C, ReadGuard<FE>>)
        ensures
            is_downgraded(self, state),
    {
        let primary = self.primary.downgrade();
        let downgrade = |tree: BTree<IS, C, WriteGuard<FE>>| -> (downgraded: BTree<
            IS,
            C,
            ReadGuard<FE>,
        >)
            ensures
                is_downgraded_tree(tree, downgraded),
            { tree.downgrade() };
        let auxiliary = self.auxiliary.map(downgrade);
        TableState { primary, auxiliary }
    }
}

impl<IS, C: Clone, G: Clone> Clone for TableState<IS, C, G> {
    fn clone(&self) -> (copy: Self)
        ensures
            cloned(self.primary, copy.primary),
            copy.auxiliary@.dom() == self.auxiliary@.dom(),
            forall|name: Seq<char>| #[trigger]
                copy.auxiliary@.contains_key(name) ==> cloned(
                    self.auxiliary@[name],
                    copy.auxiliary@[name],
                ),
    {
        TableState { primary: self.primary.clone(), auxiliary: self.auxiliary.clone() }
    }
}

} // verus!

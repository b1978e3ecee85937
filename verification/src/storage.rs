//! The storage of a table: the directory of a table and the B+ tree of each index.

use std::io::Error;
use std::sync::Arc;

use b_tree::{BTree, BTreeLock, Collator};
use freqfs::{Dir, DirLock};
use tokio::sync::{OwnedRwLockReadGuard, OwnedRwLockWriteGuard, RwLockWriteGuard};
use vstd::prelude::*;

verus! {

/// A lock on a B+ tree.
#[verifier::external_type_specification]
#[verifier::external_body]
#[verifier::reject_recursive_types(S)]
#[verifier::reject_recursive_types(C)]
#[verifier::reject_recursive_types(FE)]
pub struct ExBTreeLock<S, C, FE>(BTreeLock<S, C, FE>);

/// A B+ tree that is locked.
#[verifier::external_type_specification]
#[verifier::external_body]
#[verifier::reject_recursive_types(S)]
#[verifier::reject_recursive_types(C)]
#[verifier::reject_recursive_types(G)]
pub struct ExBTree<S, C, G>(BTree<S, C, G>);

/// The order of the keys of a B+ tree.
#[verifier::external_type_specification]
#[verifier::external_body]
#[verifier::reject_recursive_types(C)]
pub struct ExCollator<C>(Collator<C>);

/// A lock on a directory.
#[verifier::external_type_specification]
#[verifier::external_body]
#[verifier::reject_recursive_types(FE)]
pub struct ExDirLock<FE>(DirLock<FE>);

/// A directory.
#[verifier::external_type_specification]
#[verifier::external_body]
#[verifier::reject_recursive_types(FE)]
pub struct ExDir<FE>(Dir<FE>);

/// The guard of a directory that is locked for writing, which borrows the lock.
#[verifier::external_type_specification]
#[verifier::external_body]
#[verifier::reject_recursive_types(T)]
pub struct ExRwLockWriteGuard<'a, T: ?Sized>(RwLockWriteGuard<'a, T>);

/// The guard of a directory that is locked for reading.
#[verifier::external_type_specification]
#[verifier::external_body]
#[verifier::reject_recursive_types(T)]
#[verifier::reject_recursive_types(U)]
pub struct ExOwnedRwLockReadGuard<T: ?Sized, U: ?Sized>(OwnedRwLockReadGuard<T, U>);

/// The guard of a directory that is locked for writing.
#[verifier::external_type_specification]
#[verifier::external_body]
#[verifier::reject_recursive_types(T)]
pub struct ExOwnedRwLockWriteGuard<T: ?Sized>(OwnedRwLockWriteGuard<T>);

/// What holds a directory that is locked for reading.
pub type ReadGuard<FE> = Arc<OwnedRwLockReadGuard<Dir<FE>>>;

/// What holds a directory that is locked for writing.
pub type WriteGuard<FE> = OwnedRwLockWriteGuard<Dir<FE>>;

/// `b_tree::BTreeLock::collator` borrows the order of the keys of the tree.
pub assume_specification<S, C, FE>[ BTreeLock::<S, C, FE>::collator ](
    lock: &BTreeLock<S, C, FE>,
) -> (collator: &Collator<C>);

/// `b_tree::BTreeLock::try_read` locks the tree for reading, or fails.
/// Which of the two depends on who holds the lock, so nothing is claimed of the result.
pub assume_specification<S, C, FE>[ BTreeLock::<S, C, FE>::try_read ](
    lock: &BTreeLock<S, C, FE>,
) -> (tree: Result<BTree<S, C, Arc<OwnedRwLockReadGuard<Dir<FE>>>>, Error>) where
    C: Clone,
    FE: Send + Sync,
;

/// `b_tree::BTreeLock::try_write` locks the tree for writing, or fails.
/// Which of the two depends on who holds the lock, so nothing is claimed of the result.
pub assume_specification<S, C, FE>[ BTreeLock::<S, C, FE>::try_write ](
    lock: &BTreeLock<S, C, FE>,
) -> (tree: Result<BTree<S, C, OwnedRwLockWriteGuard<Dir<FE>>>, Error>) where
    C: Clone,
    FE: Send + Sync,
;

/// `b_tree::BTree::downgrade` turns the lock of the tree from one for writing into one for reading.
pub assume_specification<S, C, FE>[ BTree::<S, C, OwnedRwLockWriteGuard<Dir<FE>>>::downgrade ](
    tree: BTree<S, C, OwnedRwLockWriteGuard<Dir<FE>>>,
) -> (downgraded: BTree<S, C, Arc<OwnedRwLockReadGuard<Dir<FE>>>>);

/// A clone of a value of the type `T` is that value.
pub open spec fn clones_to_itself<T: Clone>() -> bool {
    forall|value: T, copy: T| #[trigger] cloned(value, copy) ==> copy == value
}

/// `b_tree::BTreeLock` clones into another handle of the same lock, with a clone of the collator:
/// if that is the same collator, the two cannot be told apart.
pub assume_specification<S, C: Clone, FE>[ <BTreeLock<S, C, FE> as Clone>::clone ](
    lock: &BTreeLock<S, C, FE>,
) -> (copy: BTreeLock<S, C, FE>)
    ensures
        clones_to_itself::<C>() ==> copy == *lock,
;

/// `b_tree::BTree` clones into another handle of the same tree, with clones of the collator
/// and of the guard: if those are the same collator and the same guard,
/// the two cannot be told apart.
pub assume_specification<S, C: Clone, G: Clone>[ <BTree<S, C, G> as Clone>::clone ](
    tree: &BTree<S, C, G>,
) -> (copy: BTree<S, C, G>)
    ensures
        clones_to_itself::<C>() && clones_to_itself::<G>() ==> copy == *tree,
;

/// `freqfs::DirLock` clones into another handle of the same lock, just as an `Arc` does:
/// the two cannot be told apart.
pub assume_specification<FE>[ <DirLock<FE> as Clone>::clone ](lock: &DirLock<FE>) -> (copy: DirLock<
    FE,
>)
    ensures
        copy == *lock,
;

/// `freqfs::DirLock::try_write` locks the directory for writing, or fails.
/// Which of the two depends on who holds the lock, so nothing is claimed of the result.
pub assume_specification<FE: Send + Sync>[ DirLock::<FE>::try_write ](lock: &DirLock<FE>) -> (guard:
    Result<RwLockWriteGuard<'_, Dir<FE>>, Error>);

/// Create the directory `name` in the `contents` of a directory, and hand the contents back.
///
/// This calls `freqfs::Dir::create_dir`, which fails if there is an entry of that name,
/// or if there was one that is marked as deleted.
/// Whether there is depends on the storage, so nothing is claimed of the result.
#[verifier::external_body]
pub(crate) fn create_dir<'a, FE: Send + Sync>(contents: RwLockWriteGuard<'a, Dir<FE>>, name: String) -> (made:
    (RwLockWriteGuard<'a, Dir<FE>>, Result<DirLock<FE>, Error>)) {
    let mut contents = contents;
    let made = contents.create_dir(name);
    (contents, made)
}

/// Find or create the directory `name` in the `contents` of a directory, and hand the contents back.
///
/// This calls `freqfs::Dir::get_or_create_dir`, which fails if there is a file of that name,
/// or if there is no directory of that name but an entry of it that is marked as deleted.
/// Whether there is depends on the storage, so nothing is claimed of the result.
#[verifier::external_body]
pub(crate) fn get_or_create_dir<'a, FE: Send + Sync>(
    contents: RwLockWriteGuard<'a, Dir<FE>>,
    name: String,
) -> (found: (RwLockWriteGuard<'a, Dir<FE>>, Result<DirLock<FE>, Error>)) {
    let mut contents = contents;
    let found = contents.get_or_create_dir(name);
    (contents, found)
}

/// How the indices of a table are opened.
#[derive(Clone, Copy)]
pub enum Opening {
    /// Create every index.
    Create,
    /// Load every index, and create the directory of one that is not there.
    Load,
}

/// `made` is what looking for the directory `name` in `contents` gives:
/// the `contents` afterwards, and the directory or the reason why there is none.
pub closed spec fn is_made<'a, FE: Send + Sync>(
    opening: Opening,
    contents: RwLockWriteGuard<'a, Dir<FE>>,
    name: Seq<char>,
    after: RwLockWriteGuard<'a, Dir<FE>>,
    made: Result<DirLock<FE>, Error>,
) -> bool {
    exists|text: String|
        #![trigger call_ensures(create_dir::<FE>, (contents, text), (after, made))]
        #![trigger call_ensures(get_or_create_dir::<FE>, (contents, text), (after, made))]
        text@ == name && match opening {
            Opening::Create => call_ensures(create_dir::<FE>, (contents, text), (after, made)),
            Opening::Load => call_ensures(get_or_create_dir::<FE>, (contents, text), (after, made)),
        }
}

/// Look for the directory `name` in the `contents` of a directory.
pub fn make_dir<'a, FE: Send + Sync>(
    opening: Opening,
    contents: RwLockWriteGuard<'a, Dir<FE>>,
    name: String,
) -> (made: (RwLockWriteGuard<'a, Dir<FE>>, Result<DirLock<FE>, Error>))
    ensures
        is_made(opening, contents, name@, made.0, made.1),
{
    match opening {
        Opening::Create => create_dir(contents, name),
        Opening::Load => get_or_create_dir(contents, name),
    }
}

/// To create a table is to create its directories, and to load it is to find or create them:
/// the one or the other is done to the contents given, for the very name.
pub(crate) proof fn law_made_dir<'a, FE: Send + Sync>(
    opening: Opening,
    contents: RwLockWriteGuard<'a, Dir<FE>>,
    name: Seq<char>,
    after: RwLockWriteGuard<'a, Dir<FE>>,
    made: Result<DirLock<FE>, Error>,
)
    requires
        is_made(opening, contents, name, after, made),
    ensures
        opening is Create ==> exists|text: String| #[trigger]
            call_ensures(create_dir::<FE>, (contents, text), (after, made)) && text@ == name,
        opening is Load ==> exists|text: String| #[trigger]
            call_ensures(get_or_create_dir::<FE>, (contents, text), (after, made)) && text@ == name,
{
}

/// A directory is looked for by the name given.
pub proof fn law_looked_for_dir<'a, FE: Send + Sync>(
    opening: Opening,
    contents: RwLockWriteGuard<'a, Dir<FE>>,
    name: String,
    after: RwLockWriteGuard<'a, Dir<FE>>,
    made: Result<DirLock<FE>, Error>,
)
    requires
        call_ensures(make_dir::<FE>, (opening, contents, name), (after, made)),
    ensures
        is_made(opening, contents, name@, after, made),
{
}

} // verus!

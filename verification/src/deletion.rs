//! Whether deleting a book file may go on to remove the directory that holds it.
use vstd::prelude::*;
use crate::import::{path_components, paths_equal};
use crate::paths::{parent, path_parent};

verus! {

/// `Path` equality: the same components.
pub open spec fn same_path(a: Seq<char>, b: Seq<char>) -> bool {
    path_components(a) == path_components(b)
}

/// Whether a directory entry is one that the deletion removes: the book file itself, or a
/// sidecar thumbnail that sits in the same directory as the book.
pub open spec fn pending_deletion(target: Seq<char>, sidecars: Seq<String>, entry: Seq<char>) -> bool {
    same_path(entry, target) || exists|i: int| 0 <= i < sidecars.len() && {
        let s = (#[trigger] sidecars[i])@;
        &&& parent(s) is Some
        &&& parent(target) is Some
        &&& same_path(parent(s)->0, parent(target)->0)
        &&& same_path(entry, s)
    }
}

/// What the delete task does before removing a book file, as far as its directory goes.
#[derive(Clone, Copy, Debug, PartialEq, Eq)]
pub enum ParentCleanup {
    /// Nothing to check: the book has no parent directory, the directory is gone, or it
    /// holds other entries and stays.
    Ready,
    /// The directory empties with the deletion: check that it can be removed.
    CheckDirectoryRemovable,
}

/// The directory-cleanup check of a book deletion, given the book file, its sidecar
/// thumbnails, and the entries of its parent directory (`None` when that directory does not
/// exist).
pub open spec fn parent_cleanup(target: Seq<char>, sidecars: Seq<String>, entries: Option<Seq<String>>) -> ParentCleanup {
    if parent(target) is None {
        ParentCleanup::Ready
    } else {
        match entries {
            None => ParentCleanup::Ready,
            Some(es) => if exists|e: int| 0 <= e < es.len() && !pending_deletion(target, sidecars, (#[trigger] es[e])@) {
                ParentCleanup::Ready
            } else {
                ParentCleanup::CheckDirectoryRemovable
            },
        }
    }
}

fn is_pending(target: &str, target_parent: &String, sidecars: &Vec<String>, entry: &str) -> (r: bool)
    requires
        parent(target@) == Some(target_parent@),
    ensures
        r == pending_deletion(target@, sidecars@, entry@),
{
    if paths_equal(entry, target) {
        return true;
    }
    let mut i: usize = 0;
    while i < sidecars.len()
        invariant
            i <= sidecars@.len(),
            parent(target@) == Some(target_parent@),
            !same_path(entry@, target@),
            forall|j: int| 0 <= j < i ==> !({
                let s = (#[trigger] sidecars@[j])@;
                &&& parent(s) is Some
                &&& parent(target@) is Some
                &&& same_path(parent(s)->0, parent(target@)->0)
                &&& same_path(entry@, s)
            }),
        decreases sidecars@.len() - i,
    {
        let sidecar = sidecars[i].as_str();
        if let Some(sidecar_parent) = path_parent(sidecar) {
            if paths_equal(sidecar_parent.as_str(), target_parent.as_str()) && paths_equal(entry, sidecar) {
                return true;
            }
        }
        i += 1;
    }
    false
}

/// Decides the directory-cleanup check of a book deletion (see `parent_cleanup`).
pub fn empty_parent_directory_cleanup_check(target_path: &str, sidecar_paths: &Vec<String>, parent_entries: Option<&Vec<String>>) -> (r: ParentCleanup)
    ensures
        r == parent_cleanup(target_path@, sidecar_paths@, match parent_entries {
            Some(es) => Some(es@),
            None => None,
        }),
{
    let target_parent = match path_parent(target_path) {
        Some(p) => p,
        None => return ParentCleanup::Ready,
    };
    let entries = match parent_entries {
        Some(es) => es,
        None => return ParentCleanup::Ready,
    };
    let mut i: usize = 0;
    while i < entries.len()
        invariant
            i <= entries@.len(),
            parent_entries == Some(entries),
            parent(target_path@) == Some(target_parent@),
            forall|e: int| 0 <= e < i ==> pending_deletion(target_path@, sidecar_paths@, (#[trigger] entries@[e])@),
        decreases entries@.len() - i,
    {
        if !is_pending(target_path, &target_parent, sidecar_paths, entries[i].as_str()) {
            proof {
                assert(!pending_deletion(target_path@, sidecar_paths@, entries@[i as int]@));
            }
            return ParentCleanup::Ready;
        }
        i += 1;
    }
    ParentCleanup::CheckDirectoryRemovable
}

} // verus!

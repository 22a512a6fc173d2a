//! Entry points that the application layer holds: each carries the handles it was built with.
use vstd::prelude::*;

verus! {

/// Query support for discovery screens: the database it reads and the directory of the
/// search index that it opens read-only.
#[derive(Clone)]
pub struct DiscoveryQuerySupportAccess<D> {
    db: D,
    index_dir: String,
}

impl<D> DiscoveryQuerySupportAccess<D> {
    pub closed spec fn spec_db(&self) -> D {
        self.db
    }

    pub closed spec fn spec_index_dir(&self) -> Seq<char> {
        self.index_dir@
    }

    /// Query support over `db`, with the search index kept under `index_dir`.
    pub fn new(db: D, index_dir: String) -> (access: Self)
        ensures
            access.spec_db() == db,
            access.spec_index_dir() == index_dir@,
    {
        DiscoveryQuerySupportAccess { db, index_dir }
    }

    /// The database handle.
    pub fn db(&self) -> (db: &D)
        ensures
            *db == self.spec_db(),
    {
        &self.db
    }

    /// The directory of the search index.
    pub fn index_dir(&self) -> (dir: &str)
        ensures
            dir@ == self.spec_index_dir(),
    {
        self.index_dir.as_str()
    }
}

/// Resolves page and resource content from archives and PDFs; it keeps no state.
#[derive(Clone, Copy, Debug, PartialEq, Eq)]
pub struct ContentResolver;

/// Access to books that are read without being imported, over the database `db`.
#[derive(Clone)]
pub struct TransientBookAccess<D> {
    db: D,
}

impl<D> TransientBookAccess<D> {
    pub closed spec fn spec_db(&self) -> D {
        self.db
    }

    /// Transient book access over `db`.
    pub fn new(db: D) -> (access: Self)
        ensures
            access.spec_db() == db,
    {
        TransientBookAccess { db }
    }

    /// The database handle.
    pub fn db(&self) -> (db: &D)
        ensures
            *db == self.spec_db(),
    {
        &self.db
    }
}

} // verus!

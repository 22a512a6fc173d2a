//! The walk that finds a library's series directories: every directory, depth first, that
//! directly holds at least one book. The caller lists each directory that the walk names
//! and hands the listing back; the walk decides what is passed over, what is a series and
//! which directories come next.
use vstd::prelude::*;
use crate::paths::{lossy_text, utf8_lossy};
use crate::scan_discovery::{
    is_excluded, is_hidden, is_hidden_path, is_library_path_excluded, is_supported_book,
    is_supported_book_file, LibraryScanConfig, ScanError, ScanFailure,
};

verus! {

/// What a listed entry is.
#[derive(Clone, Copy, Debug, PartialEq, Eq)]
pub enum EntryKind {
    File,
    Directory,
    /// Neither a regular file nor a directory.
    Other,
}

/// One entry of a directory listing: its path as the file system gives it, and its kind or
/// why its metadata could not be read.
#[derive(Debug)]
pub struct WalkEntry {
    pub path: Vec<u8>,
    pub kind: Result<EntryKind, String>,
}

/// A directory's listing: its entries in listing order (an entry that could not be read is
/// its reason), or why the directory could not be listed.
pub type DirectoryListing = Result<Vec<Result<WalkEntry, String>>, String>;

pub open spec fn exclusion_views(config: LibraryScanConfig) -> Seq<Seq<char>> {
    config.scan_directory_exclusions@.map_values(|e: String| e@)
}

/// Whether the walk passes over a path: its name is hidden, or it falls under one of the
/// scan exclusions.
pub open spec fn passed_over(config: LibraryScanConfig, path: Seq<u8>) -> bool {
    is_hidden(path) || is_excluded(utf8_lossy(path), exclusion_views(config))
}

/// What a directory's entries tell so far: whether one is a book, and the subdirectories in
/// listing order.
pub type VisitView = (bool, Seq<Seq<u8>>);

/// One entry's effect on what the listing tells.
pub open spec fn visit_step(
    acc: VisitView,
    item: Result<WalkEntry, String>,
    dir: Seq<char>,
    config: LibraryScanConfig,
) -> Result<VisitView, ScanFailure> {
    match item {
        Err(reason) => Err(ScanFailure::DirectoryEntry(dir, reason@)),
        Ok(entry) => if passed_over(config, entry.path@) {
            Ok(acc)
        } else {
            match entry.kind {
                Err(reason) => Err(ScanFailure::EntryMetadata(utf8_lossy(entry.path@), reason@)),
                Ok(EntryKind::File) => Ok((
                    acc.0 || is_supported_book(entry.path@, config.scan_cbx, config.scan_pdf, config.scan_epub),
                    acc.1,
                )),
                Ok(EntryKind::Directory) => Ok((acc.0, acc.1.push(entry.path@))),
                Ok(EntryKind::Other) => Ok(acc),
            }
        },
    }
}

/// What the entries tell, or the first failure among them.
pub open spec fn visit_entries(
    items: Seq<Result<WalkEntry, String>>,
    dir: Seq<char>,
    config: LibraryScanConfig,
) -> Result<VisitView, ScanFailure>
    decreases items.len(),
{
    if items.len() == 0 {
        Ok((false, Seq::empty()))
    } else {
        match visit_entries(items.drop_last(), dir, config) {
            Err(e) => Err(e),
            Ok(acc) => visit_step(acc, items.last(), dir, config),
        }
    }
}

/// What the listing of directory `dir` tells the walk: whether the directory holds a book,
/// and its subdirectories that are not passed over, in listing order.
pub open spec fn directory_visit(config: LibraryScanConfig, dir: Seq<u8>, listing: DirectoryListing) -> Result<VisitView, ScanFailure> {
    match listing {
        Err(reason) => Err(ScanFailure::DirectoryScan(utf8_lossy(dir), reason@)),
        Ok(items) => visit_entries(items@, utf8_lossy(dir), config),
    }
}

/// The walk never descends into a hidden or excluded directory: every subdirectory that a
/// listing hands on is one that the walk does not pass over.
pub proof fn law_walk_skips_passed_over(config: LibraryScanConfig, dir: Seq<u8>, listing: DirectoryListing)
    ensures
        directory_visit(config, dir, listing) matches Ok((_, children))
            ==> forall|k: int| 0 <= k < children.len() ==> !passed_over(config, #[trigger] children[k]),
{
    if let Ok(items) = listing {
        lemma_visit_children_kept(items@, utf8_lossy(dir), config);
    }
}

proof fn lemma_visit_children_kept(items: Seq<Result<WalkEntry, String>>, dir: Seq<char>, config: LibraryScanConfig)
    ensures
        visit_entries(items, dir, config) matches Ok((_, children))
            ==> forall|k: int| 0 <= k < children.len() ==> !passed_over(config, #[trigger] children[k]),
    decreases items.len(),
{
    if items.len() > 0 {
        lemma_visit_children_kept(items.drop_last(), dir, config);
    }
}

pub open spec fn byte_views(v: Seq<Vec<u8>>) -> Seq<Seq<u8>> {
    v.map_values(|x: Vec<u8>| x@)
}

/// `s` in reverse order.
pub open spec fn reversed<A>(s: Seq<A>) -> Seq<A> {
    Seq::new(s.len(), |i: int| s[s.len() - 1 - i])
}

/// The walk's state: the directories still to list, the next one last, and the series
/// directories found so far, in the order found.
pub struct SeriesDirectoryWalk {
    pub pending: Vec<Vec<u8>>,
    pub discovered: Vec<Vec<u8>>,
}

proof fn lemma_visit_failure_persists(items: Seq<Result<WalkEntry, String>>, dir: Seq<char>, config: LibraryScanConfig, k: int)
    requires
        0 <= k <= items.len(),
        visit_entries(items.take(k), dir, config) is Err,
    ensures
        visit_entries(items, dir, config) == visit_entries(items.take(k), dir, config),
    decreases items.len() - k,
{
    if k < items.len() {
        assert(items.take(k + 1).drop_last() =~= items.take(k));
        lemma_visit_failure_persists(items, dir, config, k + 1);
    } else {
        assert(items.take(k) =~= items);
    }
}

fn copy_bytes(b: &[u8]) -> (r: Vec<u8>)
    ensures
        r@ == b@,
{
    let mut r: Vec<u8> = Vec::new();
    let mut i: usize = 0;
    while i < b.len()
        invariant
            i <= b@.len(),
            r@ == b@.take(i as int),
        decreases b@.len() - i,
    {
        r.push(b[i]);
        i = i + 1;
        proof {
            assert(r@ =~= b@.take(i as int));
        }
    }
    proof {
        assert(b@.take(b@.len() as int) =~= b@);
    }
    r
}

/// Whether the walk passes over `path` (see [`passed_over`]).
pub fn is_passed_over(config: &LibraryScanConfig, path: &[u8]) -> (r: bool)
    ensures
        r == passed_over(*config, path@),
{
    if is_hidden_path(path) {
        return true;
    }
    let text = lossy_text(path);
    is_library_path_excluded(text.as_str(), config.scan_directory_exclusions.as_slice())
}

/// Reads a directory's listing: whether it holds a book, and its subdirectories that the
/// walk does not pass over, in listing order.
pub fn visit_directory(config: &LibraryScanConfig, dir: &[u8], listing: &DirectoryListing) -> (r: Result<(bool, Vec<Vec<u8>>), ScanError>)
    ensures
        match r {
            Ok((has_book, children)) => directory_visit(*config, dir@, *listing)
                == Ok::<VisitView, ScanFailure>((has_book, byte_views(children@))),
            Err(e) => directory_visit(*config, dir@, *listing) == Err::<VisitView, ScanFailure>(e@),
        },
{
    let items = match listing {
        Ok(items) => items,
        Err(reason) => return Err(ScanError::DirectoryScan(lossy_text(dir), reason.clone())),
    };
    let dir_text = lossy_text(dir);
    proof {
        assert(directory_visit(*config, dir@, *listing) == visit_entries(items@, dir_text@, *config));
    }
    let mut has_book = false;
    let mut children: Vec<Vec<u8>> = Vec::new();
    let mut i: usize = 0;
    proof {
        assert(items@.take(0) =~= Seq::<Result<WalkEntry, String>>::empty());
        assert(byte_views(children@) =~= Seq::<Seq<u8>>::empty());
    }
    while i < items.len()
        invariant
            i <= items@.len(),
            dir_text@ == utf8_lossy(dir@),
            directory_visit(*config, dir@, *listing) == visit_entries(items@, dir_text@, *config),
            visit_entries(items@.take(i as int), dir_text@, *config) == Ok::<VisitView, ScanFailure>((has_book, byte_views(children@))),
        decreases items@.len() - i,
    {
        proof {
            assert(items@.take(i as int + 1).drop_last() =~= items@.take(i as int));
            assert(items@.take(i as int + 1).last() == items@[i as int]);
        }
        match &items[i] {
            Err(reason) => {
                proof { lemma_visit_failure_persists(items@, dir_text@, *config, i as int + 1); }
                return Err(ScanError::DirectoryEntry(dir_text, reason.clone()));
            },
            Ok(entry) => {
                if !is_passed_over(config, entry.path.as_slice()) {
                    match &entry.kind {
                        Err(reason) => {
                            proof { lemma_visit_failure_persists(items@, dir_text@, *config, i as int + 1); }
                            return Err(ScanError::EntryMetadata(lossy_text(entry.path.as_slice()), reason.clone()));
                        },
                        Ok(EntryKind::File) => {
                            if is_supported_book_file(entry.path.as_slice(), config) {
                                has_book = true;
                            }
                        },
                        Ok(EntryKind::Directory) => {
                            let ghost before = byte_views(children@);
                            children.push(copy_bytes(entry.path.as_slice()));
                            proof {
                                assert(byte_views(children@) =~= before.push(entry.path@));
                            }
                        },
                        Ok(EntryKind::Other) => {},
                    }
                }
            },
        }
        i = i + 1;
    }
    proof {
        assert(items@.take(items@.len() as int) =~= items@);
    }
    Ok((has_book, children))
}

/// Starts a walk at the library root: the root is the first directory to list, unless it
/// is passed over.
pub fn start_series_walk(config: &LibraryScanConfig, root: &[u8]) -> (walk: SeriesDirectoryWalk)
    ensures
        byte_views(walk.pending@) == (if passed_over(*config, root@) { Seq::<Seq<u8>>::empty() } else { seq![root@] }),
        walk.discovered@.len() == 0,
{
    let mut pending: Vec<Vec<u8>> = Vec::new();
    if !is_passed_over(config, root) {
        pending.push(copy_bytes(root));
        proof {
            assert(byte_views(pending@) =~= seq![root@]);
        }
    } else {
        proof {
            assert(byte_views(pending@) =~= Seq::<Seq<u8>>::empty());
        }
    }
    SeriesDirectoryWalk { pending, discovered: Vec::new() }
}

/// The directory that the walk needs listed next, if any is left.
pub fn next_directory(walk: &SeriesDirectoryWalk) -> (r: Option<&Vec<u8>>)
    ensures
        match r {
            Some(dir) => walk.pending@.len() > 0 && dir@ == walk.pending@.last()@,
            None => walk.pending@.len() == 0,
        },
{
    if walk.pending.len() == 0 {
        None
    } else {
        Some(&walk.pending[walk.pending.len() - 1])
    }
}

/// Hands the walk the listing of the directory it named: the directory is a series when it
/// holds a book, and its subdirectories are listed next, in listing order, each before the
/// directories that were pending. On a failure the walk is left as it was.
pub fn record_listing(walk: &mut SeriesDirectoryWalk, config: &LibraryScanConfig, listing: &DirectoryListing) -> (r: Result<(), ScanError>)
    requires
        old(walk).pending@.len() > 0,
    ensures
        match directory_visit(*config, old(walk).pending@.last()@, *listing) {
            Ok((has_book, children)) => r is Ok
                && byte_views(final(walk).pending@) == byte_views(old(walk).pending@.drop_last()) + reversed(children)
                && byte_views(final(walk).discovered@) == byte_views(old(walk).discovered@)
                    + (if has_book { seq![old(walk).pending@.last()@] } else { Seq::<Seq<u8>>::empty() }),
            Err(f) => r matches Err(e) && e@ == f
                && byte_views(final(walk).pending@) == byte_views(old(walk).pending@)
                && byte_views(final(walk).discovered@) == byte_views(old(walk).discovered@),
        },
{
    let last = walk.pending.len() - 1;
    let (has_book, children) = match visit_directory(config, walk.pending[last].as_slice(), listing) {
        Ok(v) => v,
        Err(e) => return Err(e),
    };
    let ghost old_pending = byte_views(walk.pending@);
    let ghost old_discovered = byte_views(walk.discovered@);
    let ghost cv = byte_views(children@);
    let dir = walk.pending.pop().unwrap();
    proof {
        assert(byte_views(walk.pending@) =~= old_pending.drop_last());
    }
    if has_book {
        walk.discovered.push(dir);
        proof {
            assert(byte_views(walk.discovered@) =~= old_discovered + seq![old_pending.last()]);
        }
    } else {
        proof {
            assert(byte_views(walk.discovered@) =~= old_discovered + Seq::<Seq<u8>>::empty());
        }
    }
    let mut k: usize = children.len();
    proof {
        assert(byte_views(walk.pending@) =~= old_pending.drop_last() + reversed(cv).take(0));
    }
    while k > 0
        invariant
            k <= children@.len(),
            cv == byte_views(children@),
            byte_views(walk.pending@) == old_pending.drop_last() + reversed(cv).take(children@.len() - k),
            byte_views(walk.discovered@) == old_discovered
                + (if has_book { seq![old_pending.last()] } else { Seq::<Seq<u8>>::empty() }),
        decreases k,
    {
        k = k - 1;
        let ghost before = byte_views(walk.pending@);
        walk.pending.push(copy_bytes(children[k].as_slice()));
        proof {
            assert(reversed(cv).take(children@.len() - k) =~= reversed(cv).take(children@.len() - k - 1).push(cv[k as int]));
            assert(byte_views(walk.pending@) =~= before.push(cv[k as int]));
        }
    }
    proof {
        assert(reversed(cv).take(children@.len() as int) =~= reversed(cv));
    }
    Ok(())
}

} // verus!

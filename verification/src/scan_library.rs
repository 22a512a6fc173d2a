//! Turning a snapshot of a library's directories into scanned series, books and sidecars,
//! and deciding which series need their books synchronized.
use vstd::prelude::*;
use crate::paths::{file_name_text, file_stem_text, lossy_text, utf8_lossy};
use crate::scan_discovery::{
    build_sidecars, build_sidecars_spec, book_view, book_views, is_hidden, is_hidden_path,
    is_supported_book, is_supported_book_file, metadata_updated_unix_seconds, path_file_name_utf8,
    path_file_stem_utf8, route_safe_scanner_id, scanner_id, scanner_url_key, scanner_url_key_spec,
    rooted_path, resolve_rooted_path, updated_seconds, BookView, FileTimes, LibraryScanConfig,
    ScanError, ScanFailure, ScannedBookRow, ScannedSidecarRow, SidecarCandidate, SidecarView, CandidateView,
    candidate_views,
    sidecar_row_view,
};
use crate::string_set::{insert_string, no_duplicates, string_set, contains_string};
use crate::text::{ascii_lower, chars_contain, chars_of, contains_run, lower_chars};

verus! {

/// A book the database already knows, under its stored URL.
#[derive(Clone, Debug)]
pub struct ExistingScannedBookRow {
    pub book_id: String,
    pub series_id: String,
    pub file_last_modified_unix_seconds: i64,
}

/// A series the database already knows, under its stored URL.
#[derive(Clone, Copy, Debug)]
pub struct ExistingScannedSeriesRow {
    pub file_last_modified_unix_seconds: i64,
}

/// A series found on disk, with its books.
#[derive(Clone, Debug)]
pub struct ScannedSeriesRow {
    pub series_id: String,
    pub series_name: String,
    pub series_url: String,
    pub series_last_modified_unix_seconds: i64,
    pub oneshot: bool,
    pub books: Vec<ScannedBookRow>,
}

/// The outcome of walking a library's directories.
#[derive(Clone, Debug)]
pub struct ScannedLibrary {
    pub root_available: bool,
    pub series_rows: Vec<ScannedSeriesRow>,
    pub sidecars: Vec<ScannedSidecarRow>,
    pub book_ids: Vec<String>,
    /// A set: existing books whose files changed in series that need synchronization.
    pub changed_existing_book_ids: Vec<String>,
    /// A set: series whose books must be synchronized with the database.
    pub series_ids_requiring_book_sync: Vec<String>,
    /// A set: every series found.
    pub discovered_series_ids: Vec<String>,
    /// A set: every book found.
    pub discovered_book_ids: Vec<String>,
}

/// What the file system reported for one directory entry.
#[derive(Clone, Copy, Debug)]
pub struct EntryMetadata {
    pub is_file: bool,
    pub len: u64,
    pub times: FileTimes,
}

/// One entry of a series directory; its metadata, or why it could not be read.
#[derive(Debug)]
pub struct ScanEntry {
    /// The path as the file system gives it.
    pub path: Vec<u8>,
    pub metadata: Result<EntryMetadata, String>,
}

/// A directory that holds at least one book, as the file system reported it: its
/// timestamps (or why they could not be read) and its entries in listing order (or why it
/// could not be listed; an entry that could not be read is its reason).
#[derive(Debug)]
pub struct SeriesDirectorySnapshot {
    /// The path as the file system gives it.
    pub path: Vec<u8>,
    pub times: Result<FileTimes, String>,
    pub entries: Result<Vec<Result<ScanEntry, String>>, String>,
}

/// Whether the library root exists.
#[derive(Clone, Debug)]
pub enum LibraryRootStatus {
    Available,
    Missing,
    /// The root could not be inspected, for this reason.
    Unreadable(String),
}

/// The plain values of a series row.
pub type SeriesView = (Seq<char>, Seq<char>, Seq<char>, int, bool, Seq<BookView>);

pub open spec fn series_view(row: ScannedSeriesRow) -> SeriesView {
    (row.series_id@, row.series_name@, row.series_url@, row.series_last_modified_unix_seconds as int, row.oneshot, book_views(row.books@))
}

/// The state a scan accumulates over the series directories.
#[verifier::ext_equal]
pub struct ScanState {
    pub series: Seq<SeriesView>,
    pub sidecars: Seq<SidecarView>,
    pub book_ids: Seq<Seq<char>>,
    pub changed: Set<Seq<char>>,
    /// (series id, book id) of existing books whose files changed.
    pub pairs: Seq<(Seq<char>, Seq<char>)>,
    pub sync: Set<Seq<char>>,
    pub series_ids: Set<Seq<char>>,
    pub book_set: Set<Seq<char>>,
}

/// The plain values of a scanned library.
pub struct ScannedLibraryView {
    pub root_available: bool,
    pub state: ScanState,
}

pub open spec fn empty_scan_state() -> ScanState {
    ScanState {
        series: Seq::empty(),
        sidecars: Seq::empty(),
        book_ids: Seq::empty(),
        changed: Set::empty(),
        pairs: Seq::empty(),
        sync: Set::empty(),
        series_ids: Set::empty(),
        book_set: Set::empty(),
    }
}

pub open spec fn scanned_library_view(lib: ScannedLibrary) -> ScannedLibraryView {
    ScannedLibraryView {
        root_available: lib.root_available,
        state: ScanState {
            series: lib.series_rows@.map_values(|r: ScannedSeriesRow| series_view(r)),
            sidecars: lib.sidecars@.map_values(|r: ScannedSidecarRow| sidecar_row_view(r)),
            book_ids: lib.book_ids@.map_values(|s: String| s@),
            changed: string_set(lib.changed_existing_book_ids@),
            pairs: Seq::empty(),
            sync: string_set(lib.series_ids_requiring_book_sync@),
            series_ids: string_set(lib.discovered_series_ids@),
            book_set: string_set(lib.discovered_book_ids@),
        },
    }
}

/// The index of the first entry whose key is `key`.
pub open spec fn first_key_index<T>(entries: Seq<(Seq<char>, T)>, key: Seq<char>) -> Option<int>
    decreases entries.len(),
{
    if entries.len() == 0 {
        None
    } else if entries[0].0 == key {
        Some(0)
    } else {
        match first_key_index(entries.drop_first(), key) {
            Some(i) => Some(i + 1),
            None => None,
        }
    }
}

/// The value under the first entry whose key is `key`.
pub open spec fn lookup_key<T>(entries: Seq<(Seq<char>, T)>, key: Seq<char>) -> Option<T> {
    match first_key_index(entries, key) {
        Some(i) => Some(entries[i].1),
        None => None,
    }
}

/// The plain values of a keyed list.
pub open spec fn keyed_view<T>(entries: Seq<(String, T)>) -> Seq<(Seq<char>, T)> {
    entries.map_values(|e: (String, T)| (e.0@, e.1))
}

/// Stored URLs replaced by scanner keys.
pub open spec fn rekeyed<T>(root: Seq<char>, entries: Seq<(String, T)>) -> Seq<(Seq<char>, T)> {
    entries.map_values(|e: (String, T)| (scanner_url_key_spec(root, e.0@), e.1))
}

/// The series of a book in a oneshots directory: the series it already belongs to, or a new
/// identifier derived from its path.
pub open spec fn oneshot_series_id(root: Seq<char>, books: Seq<(Seq<char>, ExistingScannedBookRow)>, book_url: Seq<char>) -> Seq<char> {
    match lookup_key(books, scanner_url_key_spec(root, book_url)) {
        Some(existing) => existing.series_id@,
        None => scanner_id(seq!['s', 'e', 'r', 'i', 'e', 's'], rooted_path(root, book_url)),
    }
}

/// Whether a series directory lies under the configured oneshots directory.
pub open spec fn is_oneshot_directory(config: LibraryScanConfig, url: Seq<char>) -> bool {
    match config.oneshots_directory {
        Some(dir) => contains_run(ascii_lower(url), ascii_lower(dir@)),
        None => false,
    }
}

/// What the entries of one series directory yield: books, the ids of existing books whose
/// files changed, (series, book) pairs of those, and the remaining sidecar candidates.
#[verifier::ext_equal]
pub struct EntryScan {
    pub books: Seq<BookView>,
    pub changed: Seq<Seq<char>>,
    pub pairs: Seq<(Seq<char>, Seq<char>)>,
    pub candidates: Seq<CandidateView>,
}

/// Everything fixed during one scan.
pub struct ScanContext {
    pub root: Seq<char>,
    pub config: LibraryScanConfig,
    pub books: Seq<(Seq<char>, ExistingScannedBookRow)>,
    pub series: Seq<(Seq<char>, ExistingScannedSeriesRow)>,
    pub existing_books: Seq<ExistingScannedBookRow>,
    pub deep_scan: bool,
}

/// One entry's effect on the directory's entry scan.
pub open spec fn scan_entry_step(
    acc: EntryScan,
    item: Result<ScanEntry, String>,
    dir: Seq<char>,
    ctx: ScanContext,
    oneshot: bool,
    regular_id: Seq<char>,
) -> Result<EntryScan, ScanFailure> {
    match item {
        Err(reason) => Err(ScanFailure::DirectoryEntry(dir, reason@)),
        Ok(entry) => {
            let path = utf8_lossy(entry.path@);
            if is_hidden(entry.path@) {
                Ok(acc)
            } else {
                match entry.metadata {
                    Err(reason) => Err(ScanFailure::EntryMetadata(path, reason@)),
                    Ok(meta) => if !meta.is_file {
                        Ok(acc)
                    } else if is_supported_book(entry.path@, ctx.config.scan_cbx, ctx.config.scan_pdf, ctx.config.scan_epub) {
                        let existing = lookup_key(ctx.books, scanner_url_key_spec(ctx.root, path));
                        let id = match existing {
                            Some(e) => e.book_id@,
                            None => scanner_id(seq!['b', 'o', 'o', 'k'], path),
                        };
                        match updated_seconds(meta.times) {
                            None => Err(ScanFailure::TimestampMissing(path)),
                            Some(None) => Err(ScanFailure::TimestampOutOfRange(path)),
                            Some(Some(seconds)) => match file_stem_text(entry.path@) {
                                None => Err(ScanFailure::NoFileStem(path)),
                                Some(name) => {
                                    let book: BookView = (id, name, path, (meta.len as i64) as int, seconds, false);
                                    match existing {
                                        Some(e) => if e.file_last_modified_unix_seconds as int != seconds {
                                            let candidate_series = if oneshot {
                                                oneshot_series_id(ctx.root, ctx.books, path)
                                            } else {
                                                regular_id
                                            };
                                            Ok(EntryScan {
                                                books: acc.books.push(book),
                                                changed: acc.changed.push(e.book_id@),
                                                pairs: acc.pairs.push((candidate_series, e.book_id@)),
                                                candidates: acc.candidates,
                                            })
                                        } else {
                                            Ok(EntryScan { books: acc.books.push(book), ..acc })
                                        },
                                        None => Ok(EntryScan { books: acc.books.push(book), ..acc }),
                                    }
                                },
                            },
                        }
                    } else {
                        Ok(EntryScan {
                            candidates: acc.candidates.push((entry.path@, meta.times)),
                            ..acc
                        })
                    },
                }
            }
        },
    }
}

/// The entry scan of a whole directory listing, or its first failure.
pub open spec fn scan_entries(
    items: Seq<Result<ScanEntry, String>>,
    dir: Seq<char>,
    ctx: ScanContext,
    oneshot: bool,
    regular_id: Seq<char>,
) -> Result<EntryScan, ScanFailure>
    decreases items.len(),
{
    if items.len() == 0 {
        Ok(EntryScan { books: Seq::empty(), changed: Seq::empty(), pairs: Seq::empty(), candidates: Seq::empty() })
    } else {
        match scan_entries(items.drop_last(), dir, ctx, oneshot, regular_id) {
            Err(e) => Err(e),
            Ok(acc) => scan_entry_step(acc, items.last(), dir, ctx, oneshot, regular_id),
        }
    }
}

/// The members of a sequence, as a set.
pub open spec fn seq_set(s: Seq<Seq<char>>) -> Set<Seq<char>> {
    Set::new(|x: Seq<char>| exists|i: int| 0 <= i < s.len() && #[trigger] s[i] == x)
}

/// The books of the given series among the (series, book) pairs.
pub open spec fn paired_books(pairs: Seq<(Seq<char>, Seq<char>)>, series_id: Seq<char>) -> Set<Seq<char>> {
    Set::new(|b: Seq<char>| exists|i: int| 0 <= i < pairs.len() && #[trigger] pairs[i] == (series_id, b))
}

/// The identifiers of a list of books.
pub open spec fn book_id_set(books: Seq<BookView>) -> Set<Seq<char>> {
    Set::new(|b: Seq<char>| exists|i: int| 0 <= i < books.len() && #[trigger] books[i].0 == b)
}

/// The identifiers of a list of books, in order.
pub open spec fn book_id_seq(books: Seq<BookView>) -> Seq<Seq<char>> {
    books.map_values(|b: BookView| b.0)
}

/// Each book of a oneshots directory becomes a series of its own.
pub open spec fn add_oneshot_series(state: ScanState, books: Seq<BookView>, ctx: ScanContext) -> ScanState
    decreases books.len(),
{
    if books.len() == 0 {
        state
    } else {
        let s = add_oneshot_series(state, books.drop_last(), ctx);
        let b = books.last();
        let series_id = oneshot_series_id(ctx.root, ctx.books, b.2);
        let existing = lookup_key(ctx.series, scanner_url_key_spec(ctx.root, b.2));
        let changed = match existing {
            Some(e) => e.file_last_modified_unix_seconds as int != b.4,
            None => false,
        };
        let sync = ctx.deep_scan || existing is None || changed;
        let row: SeriesView = (series_id, b.1, b.2, b.4, true, seq![(b.0, b.1, b.2, b.3, b.4, true)]);
        ScanState {
            sync: if sync { s.sync.insert(series_id) } else { s.sync },
            changed: if sync { s.changed.union(paired_books(s.pairs, series_id)) } else { s.changed },
            series_ids: s.series_ids.insert(series_id),
            series: s.series.push(row),
            ..s
        }
    }
}

/// The latest modification time among the books (0 for none).
pub open spec fn latest_book_seconds(books: Seq<BookView>) -> int
    decreases books.len(),
{
    if books.len() == 0 {
        0
    } else if books.len() == 1 {
        books[0].4
    } else {
        let rest = latest_book_seconds(books.drop_last());
        if books.last().4 > rest {
            books.last().4
        } else {
            rest
        }
    }
}

/// One series directory's effect on the scan.
pub open spec fn scan_directory(state: ScanState, dir: SeriesDirectorySnapshot, ctx: ScanContext) -> Result<ScanState, ScanFailure> {
    let url = utf8_lossy(dir.path@);
    let regular_id = scanner_id(seq!['s', 'e', 'r', 'i', 'e', 's'], url);
    let oneshot = is_oneshot_directory(ctx.config, url);
    match dir.times {
        Err(reason) => Err(ScanFailure::SeriesDirectoryMetadata(url, reason@)),
        Ok(times) => match updated_seconds(times) {
            None => Err(ScanFailure::TimestampMissing(url)),
            Some(None) => Err(ScanFailure::TimestampOutOfRange(url)),
            Some(Some(dir_seconds)) => match dir.entries {
                Err(reason) => Err(ScanFailure::DirectoryListing(url, reason@)),
                Ok(items) => match scan_entries(items@, url, ctx, oneshot, regular_id) {
                    Err(e) => Err(e),
                    Ok(es) => if es.books.len() == 0 {
                        Ok(state)
                    } else {
                        let latest = latest_book_seconds(es.books);
                        let series_seconds = if ctx.config.scan_force_modified_time && latest > dir_seconds {
                            latest
                        } else {
                            dir_seconds
                        };
                        let s = ScanState {
                            book_ids: state.book_ids + book_id_seq(es.books),
                            pairs: state.pairs + es.pairs,
                            book_set: state.book_set.union(book_id_set(es.books)),
                            ..state
                        };
                        if oneshot {
                            match build_sidecars_spec(url, es.books, es.candidates, false) {
                                Err(e) => Err(e),
                                Ok(rows) => Ok(add_oneshot_series(ScanState { sidecars: s.sidecars + rows, ..s }, es.books, ctx)),
                            }
                        } else {
                            let existing = lookup_key(ctx.series, scanner_url_key_spec(ctx.root, url));
                            let changed = match existing {
                                Some(e) => e.file_last_modified_unix_seconds as int != series_seconds,
                                None => false,
                            };
                            let sync = ctx.deep_scan || existing is None || changed;
                            match file_name_text(dir.path@) {
                                None => Err(ScanFailure::NoFileName(url)),
                                Some(name) => match build_sidecars_spec(url, es.books, es.candidates, true) {
                                    Err(e) => Err(e),
                                    Ok(rows) => Ok(ScanState {
                                        sync: if sync { s.sync.insert(regular_id) } else { s.sync },
                                        changed: if sync { s.changed.union(seq_set(es.changed)) } else { s.changed },
                                        series_ids: s.series_ids.insert(regular_id),
                                        sidecars: s.sidecars + rows,
                                        series: s.series.push((regular_id, name, url, series_seconds, false, es.books)),
                                        ..s
                                    }),
                                },
                            }
                        }
                    },
                },
            },
        },
    }
}

/// The scan over all series directories, or its first failure.
pub open spec fn scan_directories(dirs: Seq<SeriesDirectorySnapshot>, ctx: ScanContext) -> Result<ScanState, ScanFailure>
    decreases dirs.len(),
{
    if dirs.len() == 0 {
        Ok(empty_scan_state())
    } else {
        match scan_directories(dirs.drop_last(), ctx) {
            Err(e) => Err(e),
            Ok(state) => scan_directory(state, dirs.last(), ctx),
        }
    }
}

/// Series with an existing book that was not found: they need synchronization too.
pub open spec fn series_with_deleted_books(existing: Seq<ExistingScannedBookRow>, found: Set<Seq<char>>) -> Set<Seq<char>> {
    Set::new(|s: Seq<char>| exists|i: int| 0 <= i < existing.len() && !found.contains(#[trigger] existing[i].book_id@) && existing[i].series_id@ == s)
}

/// The books paired with any of the given series.
pub open spec fn books_paired_with_any(pairs: Seq<(Seq<char>, Seq<char>)>, series: Set<Seq<char>>) -> Set<Seq<char>> {
    Set::new(|b: Seq<char>| exists|i: int| 0 <= i < pairs.len() && series.contains(#[trigger] pairs[i].0) && pairs[i].1 == b)
}

/// The scan after accounting for deleted books.
pub open spec fn finish_scan(state: ScanState, existing: Seq<ExistingScannedBookRow>) -> ScanState {
    let deleted = series_with_deleted_books(existing, state.book_set);
    ScanState {
        sync: state.sync.union(deleted),
        changed: state.changed.union(books_paired_with_any(state.pairs, deleted)),
        ..state
    }
}

/// The outcome of a whole scan.
pub open spec fn scan_library_spec(root_status: LibraryRootStatus, root: Seq<char>, dirs: Seq<SeriesDirectorySnapshot>, ctx: ScanContext) -> Result<ScannedLibraryView, ScanFailure> {
    match root_status {
        LibraryRootStatus::Missing => Ok(ScannedLibraryView { root_available: false, state: empty_scan_state() }),
        LibraryRootStatus::Unreadable(reason) => Err(ScanFailure::RootInspection(root, reason@)),
        LibraryRootStatus::Available => match scan_directories(dirs, ctx) {
            Err(e) => Err(e),
            Ok(state) => Ok(ScannedLibraryView {
                root_available: true,
                state: ScanState { pairs: Seq::empty(), ..finish_scan(state, ctx.existing_books) },
            }),
        },
    }
}

} // verus!

verus! {

impl ExistingScannedBookRow {
    /// A copy of this row.
    pub fn duplicate(&self) -> (r: ExistingScannedBookRow)
        ensures
            r == *self,
    {
        ExistingScannedBookRow {
            book_id: self.book_id.clone(),
            series_id: self.series_id.clone(),
            file_last_modified_unix_seconds: self.file_last_modified_unix_seconds,
        }
    }
}

/// The index of the first entry stored under `key`.
pub fn find_key<T>(entries: &Vec<(String, T)>, key: &str) -> (r: Option<usize>)
    ensures
        match r {
            Some(i) => first_key_index(keyed_view(entries@), key@) == Some(i as int) && i < entries@.len(),
            None => first_key_index(keyed_view(entries@), key@) is None,
        },
{
    let ghost view = keyed_view(entries@);
    let target = String::from_str(key);
    let mut i: usize = 0;
    proof {
        assert(view.skip(0) =~= view);
    }
    while i < entries.len()
        invariant
            i <= entries@.len(),
            view == keyed_view(entries@),
            target@ == key@,
            first_key_index(view, key@) == match first_key_index(view.skip(i as int), key@) {
                Some(k) => Some(k + i),
                None => None::<int>,
            },
        decreases entries@.len() - i,
    {
        proof {
            assert(view.skip(i as int).drop_first() =~= view.skip(i + 1));
            assert(view.skip(i as int)[0] == (entries@[i as int].0@, entries@[i as int].1));
        }
        if entries[i].0 == target {
            return Some(i);
        }
        i = i + 1;
    }
    None
}

/// Existing books keyed by the scanner key of their stored URL.
pub fn rekey_existing_books(root: &str, entries: &Vec<(String, ExistingScannedBookRow)>) -> (r: Vec<(String, ExistingScannedBookRow)>)
    ensures
        keyed_view(r@) == rekeyed(root@, entries@),
{
    let mut out: Vec<(String, ExistingScannedBookRow)> = Vec::new();
    let mut i: usize = 0;
    while i < entries.len()
        invariant
            i <= entries@.len(),
            out@.len() == i,
            keyed_view(out@) == rekeyed(root@, entries@.take(i as int)),
        decreases entries@.len() - i,
    {
        let key = scanner_url_key(root, entries[i].0.as_str());
        let ghost before = out@;
        out.push((key, entries[i].1.duplicate()));
        i = i + 1;
        proof {
            assert forall|k: int| 0 <= k < i implies #[trigger] keyed_view(out@)[k] == rekeyed(root@, entries@.take(i as int))[k] by {
                if k < i - 1 {
                    assert(out@[k] == before[k]);
                    assert(keyed_view(before)[k] == rekeyed(root@, entries@.take(i - 1))[k]);
                    assert(entries@.take(i as int)[k] == entries@.take(i - 1)[k]);
                } else {
                    assert(entries@.take(i as int)[k] == entries@[i - 1]);
                }
            }
            assert(keyed_view(out@) =~= rekeyed(root@, entries@.take(i as int)));
        }
    }
    proof {
        assert(entries@.take(entries@.len() as int) =~= entries@);
    }
    out
}

/// Existing series keyed by the scanner key of their stored URL.
pub fn rekey_existing_series(root: &str, entries: &Vec<(String, ExistingScannedSeriesRow)>) -> (r: Vec<(String, ExistingScannedSeriesRow)>)
    ensures
        keyed_view(r@) == rekeyed(root@, entries@),
{
    let mut out: Vec<(String, ExistingScannedSeriesRow)> = Vec::new();
    let mut i: usize = 0;
    while i < entries.len()
        invariant
            i <= entries@.len(),
            out@.len() == i,
            keyed_view(out@) == rekeyed(root@, entries@.take(i as int)),
        decreases entries@.len() - i,
    {
        let key = scanner_url_key(root, entries[i].0.as_str());
        let ghost before = out@;
        out.push((key, entries[i].1));
        i = i + 1;
        proof {
            assert forall|k: int| 0 <= k < i implies #[trigger] keyed_view(out@)[k] == rekeyed(root@, entries@.take(i as int))[k] by {
                if k < i - 1 {
                    assert(out@[k] == before[k]);
                    assert(keyed_view(before)[k] == rekeyed(root@, entries@.take(i - 1))[k]);
                    assert(entries@.take(i as int)[k] == entries@.take(i - 1)[k]);
                } else {
                    assert(entries@.take(i as int)[k] == entries@[i - 1]);
                }
            }
            assert(keyed_view(out@) =~= rekeyed(root@, entries@.take(i as int)));
        }
    }
    proof {
        assert(entries@.take(entries@.len() as int) =~= entries@);
    }
    out
}

/// The series a book of a oneshots directory belongs to: the one recorded for its stored
/// URL, else a new identifier derived from its resolved path.
pub fn resolve_oneshot_series_id(
    existing_books_by_url: &Vec<(String, ExistingScannedBookRow)>,
    library_root: &str,
    book_url: &str,
) -> (id: String)
    ensures
        id@ == oneshot_series_id(library_root@, keyed_view(existing_books_by_url@), book_url@),
{
    let key = scanner_url_key(library_root, book_url);
    match find_key(existing_books_by_url, key.as_str()) {
        Some(i) => existing_books_by_url[i].1.series_id.clone(),
        None => {
            let resolved = resolve_rooted_path(library_root, book_url);
            proof {
                reveal_strlit("series");
                assert("series"@ =~= seq!['s', 'e', 'r', 'i', 'e', 's']);
            }
            route_safe_scanner_id("series", resolved.as_str())
        },
    }
}

/// Whether a series directory lies under the configured oneshots directory.
pub fn series_is_oneshot(config: &LibraryScanConfig, url: &str) -> (r: bool)
    ensures
        r == is_oneshot_directory(*config, url@),
{
    match &config.oneshots_directory {
        Some(dir) => {
            let lower_url = lower_chars(chars_of(url).as_slice());
            let lower_dir = lower_chars(chars_of(dir.as_str()).as_slice());
            chars_contain(lower_url.as_slice(), lower_dir.as_slice())
        },
        None => false,
    }
}

} // verus!

verus! {

/// What the entries of one series directory yield, as the scan holds it.
pub struct EntryScanOut {
    pub books: Vec<ScannedBookRow>,
    pub changed: Vec<String>,
    pub pairs: Vec<(String, String)>,
    pub candidates: Vec<SidecarCandidate>,
}

pub open spec fn pair_views(v: Seq<(String, String)>) -> Seq<(Seq<char>, Seq<char>)> {
    v.map_values(|p: (String, String)| (p.0@, p.1@))
}

pub open spec fn entry_scan_view(out: EntryScanOut) -> EntryScan {
    EntryScan {
        books: book_views(out.books@),
        changed: out.changed@.map_values(|s: String| s@),
        pairs: pair_views(out.pairs@),
        candidates: candidate_views(out.candidates@),
    }
}

/// The scan context of one scan call.
pub open spec fn scan_context(
    root: Seq<char>,
    config: LibraryScanConfig,
    books: Seq<(String, ExistingScannedBookRow)>,
    series: Seq<(String, ExistingScannedSeriesRow)>,
    deep_scan: bool,
) -> ScanContext {
    ScanContext {
        root,
        config,
        books: rekeyed(root, books),
        series: rekeyed(root, series),
        existing_books: books.map_values(|e: (String, ExistingScannedBookRow)| e.1),
        deep_scan,
    }
}

proof fn lemma_entries_failure_persists(
    items: Seq<Result<ScanEntry, String>>,
    dir: Seq<char>,
    ctx: ScanContext,
    oneshot: bool,
    regular_id: Seq<char>,
    k: int,
)
    requires
        0 <= k <= items.len(),
        scan_entries(items.take(k), dir, ctx, oneshot, regular_id) is Err,
    ensures
        scan_entries(items, dir, ctx, oneshot, regular_id) == scan_entries(items.take(k), dir, ctx, oneshot, regular_id),
    decreases items.len() - k,
{
    if k < items.len() {
        assert(items.take(k + 1).drop_last() =~= items.take(k));
        lemma_entries_failure_persists(items, dir, ctx, oneshot, regular_id, k + 1);
    } else {
        assert(items.take(k) =~= items);
    }
}

/// Scans the entries of one series directory: books (with their ids, names and times),
/// existing books whose files changed, and the remaining files as sidecar candidates.
fn scan_directory_entries(
    items: &Vec<Result<ScanEntry, String>>,
    dir: &str,
    config: &LibraryScanConfig,
    root: &str,
    keyed_books: &Vec<(String, ExistingScannedBookRow)>,
    oneshot: bool,
    regular_id: &str,
    Ghost(ctx): Ghost<ScanContext>,
) -> (r: Result<EntryScanOut, ScanError>)
    requires
        ctx.root == root@,
        ctx.config == *config,
        ctx.books == keyed_view(keyed_books@),
    ensures
        match r {
            Ok(out) => scan_entries(items@, dir@, ctx, oneshot, regular_id@) == Ok::<EntryScan, ScanFailure>(entry_scan_view(out)),
            Err(e) => scan_entries(items@, dir@, ctx, oneshot, regular_id@) == Err::<EntryScan, ScanFailure>(e@),
        },
{
    let mut out = EntryScanOut { books: Vec::new(), changed: Vec::new(), pairs: Vec::new(), candidates: Vec::new() };
    let mut i: usize = 0;
    proof {
        assert(items@.take(0) =~= Seq::<Result<ScanEntry, String>>::empty());
        assert(entry_scan_view(out) =~= EntryScan { books: Seq::empty(), changed: Seq::empty(), pairs: Seq::empty(), candidates: Seq::empty() });
        reveal_strlit("book");
        assert("book"@ =~= seq!['b', 'o', 'o', 'k']);
    }
    while i < items.len()
        invariant
            i <= items@.len(),
            ctx.root == root@,
            ctx.config == *config,
            ctx.books == keyed_view(keyed_books@),
            "book"@ == seq!['b', 'o', 'o', 'k'],
            scan_entries(items@.take(i as int), dir@, ctx, oneshot, regular_id@) == Ok::<EntryScan, ScanFailure>(entry_scan_view(out)),
        decreases items@.len() - i,
    {
        let ghost acc = entry_scan_view(out);
        proof {
            assert(items@.take(i as int + 1).drop_last() =~= items@.take(i as int));
            assert(items@.take(i as int + 1).last() == items@[i as int]);
        }
        match &items[i] {
            Err(reason) => {
                proof { lemma_entries_failure_persists(items@, dir@, ctx, oneshot, regular_id@, i as int + 1); }
                return Err(ScanError::DirectoryEntry(String::from_str(dir), reason.clone()));
            },
            Ok(entry) => {
                let bytes = entry.path.as_slice();
                if !is_hidden_path(bytes) {
                    let text = lossy_text(bytes);
                    let path = text.as_str();
                    match &entry.metadata {
                        Err(reason) => {
                            proof { lemma_entries_failure_persists(items@, dir@, ctx, oneshot, regular_id@, i as int + 1); }
                            return Err(ScanError::EntryMetadata(text.clone(), reason.clone()));
                        },
                        Ok(meta) => {
                            if meta.is_file {
                                if is_supported_book_file(bytes, config) {
                                    let key = scanner_url_key(root, path);
                                    let existing = find_key(keyed_books, key.as_str());
                                    let book_id = match existing {
                                        Some(k) => keyed_books[k].1.book_id.clone(),
                                        None => route_safe_scanner_id("book", path),
                                    };
                                    let seconds = match metadata_updated_unix_seconds(meta.times, path) {
                                        Ok(s) => s,
                                        Err(e) => {
                                            proof { lemma_entries_failure_persists(items@, dir@, ctx, oneshot, regular_id@, i as int + 1); }
                                            return Err(e);
                                        },
                                    };
                                    let book_name = match path_file_stem_utf8(bytes) {
                                        Ok(n) => n,
                                        Err(e) => {
                                            proof { lemma_entries_failure_persists(items@, dir@, ctx, oneshot, regular_id@, i as int + 1); }
                                            return Err(e);
                                        },
                                    };
                                    match existing {
                                        Some(k) => {
                                            if keyed_books[k].1.file_last_modified_unix_seconds != seconds {
                                                let candidate_series = if oneshot {
                                                    resolve_oneshot_series_id(keyed_books, root, path)
                                                } else {
                                                    String::from_str(regular_id)
                                                };
                                                let changed_id = keyed_books[k].1.book_id.clone();
                                                out.changed.push(changed_id.clone());
                                                out.pairs.push((candidate_series, changed_id));
                                            }
                                        },
                                        None => {},
                                    }
                                    out.books.push(ScannedBookRow {
                                        book_id,
                                        book_name,
                                        book_url: text.clone(),
                                        file_size: meta.len as i64,
                                        file_last_modified_unix_seconds: seconds,
                                        oneshot: false,
                                    });
                                } else {
                                    out.candidates.push(SidecarCandidate { path: entry.path.clone(), times: meta.times });
                                }
                            }
                        },
                    }
                }
            },
        }
        i = i + 1;
        proof {
            assert(entry_scan_view(out).books =~= scan_entries(items@.take(i as int), dir@, ctx, oneshot, regular_id@)->Ok_0.books);
            assert(entry_scan_view(out).changed =~= scan_entries(items@.take(i as int), dir@, ctx, oneshot, regular_id@)->Ok_0.changed);
            assert(entry_scan_view(out).pairs =~= scan_entries(items@.take(i as int), dir@, ctx, oneshot, regular_id@)->Ok_0.pairs);
            assert(entry_scan_view(out).candidates =~= scan_entries(items@.take(i as int), dir@, ctx, oneshot, regular_id@)->Ok_0.candidates);
        }
    }
    proof {
        assert(items@.take(items@.len() as int) =~= items@);
    }
    Ok(out)
}

} // verus!

verus! {

/// The state of a scan in progress.
pub struct ScanAccumulator {
    pub series_rows: Vec<ScannedSeriesRow>,
    pub sidecars: Vec<ScannedSidecarRow>,
    pub book_ids: Vec<String>,
    pub changed: Vec<String>,
    pub pairs: Vec<(String, String)>,
    pub sync: Vec<String>,
    pub series_ids: Vec<String>,
    pub book_set: Vec<String>,
}

/// Whether each id set of the scan holds every id once.
pub open spec fn sets_distinct(a: ScanAccumulator) -> bool {
    &&& no_duplicates(a.changed@)
    &&& no_duplicates(a.sync@)
    &&& no_duplicates(a.series_ids@)
    &&& no_duplicates(a.book_set@)
}

pub open spec fn accumulator_view(a: ScanAccumulator) -> ScanState {
    ScanState {
        series: a.series_rows@.map_values(|r: ScannedSeriesRow| series_view(r)),
        sidecars: a.sidecars@.map_values(|r: ScannedSidecarRow| sidecar_row_view(r)),
        book_ids: a.book_ids@.map_values(|s: String| s@),
        changed: string_set(a.changed@),
        pairs: pair_views(a.pairs@),
        sync: string_set(a.sync@),
        series_ids: string_set(a.series_ids@),
        book_set: string_set(a.book_set@),
    }
}

/// Adds to `changed` every book paired with `series_id`.
fn add_paired_books(changed: &mut Vec<String>, pairs: &Vec<(String, String)>, series_id: &str)
    requires
        no_duplicates(old(changed)@),
    ensures
        no_duplicates(final(changed)@),
        string_set(final(changed)@) == string_set(old(changed)@).union(paired_books(pair_views(pairs@), series_id@)),
{
    let target = String::from_str(series_id);
    let ghost start = string_set(changed@);
    let mut i: usize = 0;
    while i < pairs.len()
        invariant
            i <= pairs@.len(),
            target@ == series_id@,
            no_duplicates(changed@),
            string_set(changed@) == start.union(paired_books(pair_views(pairs@.take(i as int)), series_id@)),
        decreases pairs@.len() - i,
    {
        let ghost before = changed@;
        if pairs[i].0 == target {
            insert_string(changed, pairs[i].1.clone());
        }
        i = i + 1;
        proof {
            let now = pair_views(pairs@.take(i as int));
            let prev = pair_views(pairs@.take(i - 1));
            assert forall|b: Seq<char>| paired_books(now, series_id@).contains(b) <==> (paired_books(prev, series_id@).contains(b) || (pairs@[i - 1].0@ == series_id@ && pairs@[i - 1].1@ == b)) by {
                if paired_books(now, series_id@).contains(b) {
                    let k = choose|k: int| 0 <= k < now.len() && #[trigger] now[k] == (series_id@, b);
                    if k < i - 1 {
                        assert(prev[k] == now[k]);
                    }
                }
                if paired_books(prev, series_id@).contains(b) {
                    let k = choose|k: int| 0 <= k < prev.len() && #[trigger] prev[k] == (series_id@, b);
                    assert(now[k] == prev[k]);
                }
                if pairs@[i - 1].0@ == series_id@ && pairs@[i - 1].1@ == b {
                    assert(now[i - 1] == (series_id@, b));
                }
            }
            assert(string_set(changed@) =~= start.union(paired_books(now, series_id@)));
        }
    }
    proof {
        assert(pairs@.take(pairs@.len() as int) =~= pairs@);
    }
}

/// Adds every string of `items` to the set held in `set`.
fn add_strings(set: &mut Vec<String>, items: &Vec<String>)
    requires
        no_duplicates(old(set)@),
    ensures
        no_duplicates(final(set)@),
        string_set(final(set)@) == string_set(old(set)@).union(string_set(items@)),
{
    let ghost start = string_set(set@);
    let mut i: usize = 0;
    while i < items.len()
        invariant
            i <= items@.len(),
            no_duplicates(set@),
            string_set(set@) == start.union(string_set(items@.take(i as int))),
        decreases items@.len() - i,
    {
        insert_string(set, items[i].clone());
        i = i + 1;
        proof {
            let now = items@.take(i as int);
            let prev = items@.take(i - 1);
            assert forall|x: Seq<char>| string_set(now).contains(x) <==> (string_set(prev).contains(x) || x == items@[i - 1]@) by {
                if string_set(now).contains(x) {
                    let k = choose|k: int| 0 <= k < now.len() && #[trigger] now[k]@ == x;
                    if k < i - 1 {
                        assert(prev[k] == now[k]);
                    }
                }
                if string_set(prev).contains(x) {
                    let k = choose|k: int| 0 <= k < prev.len() && #[trigger] prev[k]@ == x;
                    assert(now[k] == prev[k]);
                }
                if x == items@[i - 1]@ {
                    assert(now[i - 1]@ == x);
                }
            }
            assert(string_set(set@) =~= start.union(string_set(now)));
        }
    }
    proof {
        assert(items@.take(items@.len() as int) =~= items@);
    }
}

/// Adds the ids of `books` to the sequence and to the set of found books.
fn add_book_ids(book_ids: &mut Vec<String>, book_set: &mut Vec<String>, books: &Vec<ScannedBookRow>)
    requires
        no_duplicates(old(book_set)@),
    ensures
        no_duplicates(final(book_set)@),
        final(book_ids)@.map_values(|s: String| s@) == old(book_ids)@.map_values(|s: String| s@) + book_id_seq(book_views(books@)),
        string_set(final(book_set)@) == string_set(old(book_set)@).union(book_id_set(book_views(books@))),
{
    let ghost ids0 = book_ids@.map_values(|s: String| s@);
    let ghost set0 = string_set(book_set@);
    let mut i: usize = 0;
    while i < books.len()
        invariant
            i <= books@.len(),
            no_duplicates(book_set@),
            book_ids@.map_values(|s: String| s@) == ids0 + book_id_seq(book_views(books@.take(i as int))),
            string_set(book_set@) == set0.union(book_id_set(book_views(books@.take(i as int)))),
        decreases books@.len() - i,
    {
        book_ids.push(books[i].book_id.clone());
        insert_string(book_set, books[i].book_id.clone());
        i = i + 1;
        proof {
            let now = book_views(books@.take(i as int));
            let prev = book_views(books@.take(i - 1));
            assert(now =~= prev.push(book_view(books@[i - 1])));
            assert(book_id_seq(now) =~= book_id_seq(prev).push(books@[i - 1].book_id@));
            assert(book_ids@.map_values(|s: String| s@) =~= (ids0 + book_id_seq(prev)).push(books@[i - 1].book_id@));
            assert(book_ids@.map_values(|s: String| s@) =~= ids0 + book_id_seq(now));
            assert forall|b: Seq<char>| book_id_set(now).contains(b) <==> (book_id_set(prev).contains(b) || b == books@[i - 1].book_id@) by {
                if book_id_set(now).contains(b) {
                    let k = choose|k: int| 0 <= k < now.len() && #[trigger] now[k].0 == b;
                    if k < i - 1 {
                        assert(prev[k] == now[k]);
                    }
                }
                if book_id_set(prev).contains(b) {
                    let k = choose|k: int| 0 <= k < prev.len() && #[trigger] prev[k].0 == b;
                    assert(now[k] == prev[k]);
                }
                if b == books@[i - 1].book_id@ {
                    assert(now[i - 1].0 == b);
                }
            }
            assert(string_set(book_set@) =~= set0.union(book_id_set(now)));
        }
    }
    proof {
        assert(books@.take(books@.len() as int) =~= books@);
    }
}

} // verus!

verus! {

/// Turns each book of a oneshots directory into a series of its own.
fn add_oneshot_series_rows(
    acc: &mut ScanAccumulator,
    books: &Vec<ScannedBookRow>,
    root: &str,
    keyed_books: &Vec<(String, ExistingScannedBookRow)>,
    keyed_series: &Vec<(String, ExistingScannedSeriesRow)>,
    deep_scan: bool,
    Ghost(ctx): Ghost<ScanContext>,
)
    requires
        ctx.root == root@,
        ctx.books == keyed_view(keyed_books@),
        ctx.series == keyed_view(keyed_series@),
        ctx.deep_scan == deep_scan,
        sets_distinct(*old(acc)),
    ensures
        sets_distinct(*final(acc)),
        accumulator_view(*final(acc)) == add_oneshot_series(accumulator_view(*old(acc)), book_views(books@), ctx),
{
    let ghost start = accumulator_view(*acc);
    let mut j: usize = 0;
    proof {
        assert(book_views(books@).take(0) =~= Seq::<BookView>::empty());
    }
    while j < books.len()
        invariant
            j <= books@.len(),
            ctx.root == root@,
            ctx.books == keyed_view(keyed_books@),
            ctx.series == keyed_view(keyed_series@),
            ctx.deep_scan == deep_scan,
            sets_distinct(*acc),
            accumulator_view(*acc) == add_oneshot_series(start, book_views(books@).take(j as int), ctx),
        decreases books@.len() - j,
    {
        let ghost before = accumulator_view(*acc);
        proof {
            assert(book_views(books@).take(j as int + 1).drop_last() =~= book_views(books@).take(j as int));
            assert(book_views(books@).take(j as int + 1).last() == book_view(books@[j as int]));
        }
        let book = &books[j];
        let url = book.book_url.as_str();
        let series_id = resolve_oneshot_series_id(keyed_books, root, url);
        let key = scanner_url_key(root, url);
        let existing = find_key(keyed_series, key.as_str());
        let changed = match existing {
            Some(k) => keyed_series[k].1.file_last_modified_unix_seconds != book.file_last_modified_unix_seconds,
            None => false,
        };
        let sync = deep_scan || existing.is_none() || changed;
        if sync {
            insert_string(&mut acc.sync, series_id.clone());
            add_paired_books(&mut acc.changed, &acc.pairs, series_id.as_str());
        }
        insert_string(&mut acc.series_ids, series_id.clone());
        let mut single = book.duplicate();
        single.oneshot = true;
        let row = ScannedSeriesRow {
            series_id,
            series_name: book.book_name.clone(),
            series_url: book.book_url.clone(),
            series_last_modified_unix_seconds: book.file_last_modified_unix_seconds,
            oneshot: true,
            books: vec![single],
        };
        let ghost rows_before = acc.series_rows@;
        acc.series_rows.push(row);
        j = j + 1;
        proof {
            let expected = add_oneshot_series(start, book_views(books@).take(j as int), ctx);
            assert(book_views(acc.series_rows@.last().books@) =~= seq![(book.book_id@, book.book_name@, book.book_url@, book.file_size as int, book.file_last_modified_unix_seconds as int, true)]);
            assert(accumulator_view(*acc).series =~= before.series.push(series_view(acc.series_rows@.last())));
            assert(accumulator_view(*acc).series =~= expected.series);
            assert(accumulator_view(*acc) =~= expected);
        }
    }
    proof {
        assert(book_views(books@).take(books@.len() as int) =~= book_views(books@));
    }
}

} // verus!

verus! {

fn latest_seconds(books: &Vec<ScannedBookRow>) -> (r: i64)
    ensures
        r as int == latest_book_seconds(book_views(books@)),
{
    let ghost views = book_views(books@);
    if books.len() == 0 {
        return 0;
    }
    let mut latest = books[0].file_last_modified_unix_seconds;
    let mut i: usize = 1;
    proof {
        assert(views.take(1).len() == 1);
    }
    while i < books.len()
        invariant
            1 <= i <= books@.len(),
            views == book_views(books@),
            latest as int == latest_book_seconds(views.take(i as int)),
        decreases books@.len() - i,
    {
        proof {
            assert(views.take(i as int + 1).drop_last() =~= views.take(i as int));
        }
        if books[i].file_last_modified_unix_seconds > latest {
            latest = books[i].file_last_modified_unix_seconds;
        }
        i = i + 1;
    }
    proof {
        assert(views.take(books@.len() as int) =~= views);
    }
    latest
}

/// Processes one series directory of the scan.
fn process_series_directory(
    acc: &mut ScanAccumulator,
    dir: &SeriesDirectorySnapshot,
    config: &LibraryScanConfig,
    root: &str,
    keyed_books: &Vec<(String, ExistingScannedBookRow)>,
    keyed_series: &Vec<(String, ExistingScannedSeriesRow)>,
    deep_scan: bool,
    Ghost(ctx): Ghost<ScanContext>,
) -> (r: Result<(), ScanError>)
    requires
        ctx.root == root@,
        ctx.config == *config,
        ctx.books == keyed_view(keyed_books@),
        ctx.series == keyed_view(keyed_series@),
        ctx.deep_scan == deep_scan,
        sets_distinct(*old(acc)),
    ensures
        sets_distinct(*final(acc)),
        match r {
            Ok(()) => scan_directory(accumulator_view(*old(acc)), *dir, ctx) == Ok::<ScanState, ScanFailure>(accumulator_view(*final(acc))),
            Err(e) => scan_directory(accumulator_view(*old(acc)), *dir, ctx) == Err::<ScanState, ScanFailure>(e@),
        },
{
    let url_text = lossy_text(dir.path.as_slice());
    let url = url_text.as_str();
    proof {
        reveal_strlit("series");
        assert("series"@ =~= seq!['s', 'e', 'r', 'i', 'e', 's']);
    }
    let regular_id = route_safe_scanner_id("series", url);
    let oneshot = series_is_oneshot(config, url);
    let times = match &dir.times {
        Ok(t) => *t,
        Err(reason) => return Err(ScanError::SeriesDirectoryMetadata(url_text.clone(), reason.clone())),
    };
    let dir_seconds = metadata_updated_unix_seconds(times, url)?;
    let items = match &dir.entries {
        Ok(items) => items,
        Err(reason) => return Err(ScanError::DirectoryListing(url_text.clone(), reason.clone())),
    };
    let mut es = scan_directory_entries(items, url, config, root, keyed_books, oneshot, regular_id.as_str(), Ghost(ctx))?;
    if es.books.len() == 0 {
        return Ok(());
    }
    let latest = latest_seconds(&es.books);
    let series_seconds = if config.scan_force_modified_time && latest > dir_seconds {
        latest
    } else {
        dir_seconds
    };
    let ghost old_view = accumulator_view(*acc);
    add_book_ids(&mut acc.book_ids, &mut acc.book_set, &es.books);
    let ghost old_pairs = acc.pairs@;
    let ghost es_pairs = es.pairs@;
    acc.pairs.append(&mut es.pairs);
    proof {
        assert(pair_views(acc.pairs@) =~= pair_views(old_pairs) + pair_views(es_pairs));
    }
    let ghost mid = accumulator_view(*acc);
    if oneshot {
        let mut rows = build_sidecars(url, &es.books, &es.candidates, false)?;
        let ghost old_sidecars = acc.sidecars@;
        let ghost new_rows = rows@;
        acc.sidecars.append(&mut rows);
        proof {
            assert(acc.sidecars@.map_values(|r: ScannedSidecarRow| sidecar_row_view(r)) =~= old_sidecars.map_values(|r: ScannedSidecarRow| sidecar_row_view(r)) + new_rows.map_values(|r: ScannedSidecarRow| sidecar_row_view(r)));
        }
        add_oneshot_series_rows(acc, &es.books, root, keyed_books, keyed_series, deep_scan, Ghost(ctx));
        return Ok(());
    }
    let key = scanner_url_key(root, url);
    let existing = find_key(keyed_series, key.as_str());
    let changed = match existing {
        Some(k) => keyed_series[k].1.file_last_modified_unix_seconds != series_seconds,
        None => false,
    };
    let sync = deep_scan || existing.is_none() || changed;
    let series_name = path_file_name_utf8(dir.path.as_slice())?;
    let mut rows = build_sidecars(url, &es.books, &es.candidates, true)?;
    if sync {
        insert_string(&mut acc.sync, regular_id.clone());
        add_strings(&mut acc.changed, &es.changed);
        proof {
            let views = es.changed@.map_values(|s: String| s@);
            assert forall|x: Seq<char>| string_set(es.changed@).contains(x) <==> seq_set(views).contains(x) by {
                if string_set(es.changed@).contains(x) {
                    let k = choose|k: int| 0 <= k < es.changed@.len() && #[trigger] es.changed@[k]@ == x;
                    assert(views[k] == x);
                }
                if seq_set(views).contains(x) {
                    let k = choose|k: int| 0 <= k < views.len() && #[trigger] views[k] == x;
                    assert(es.changed@[k]@ == x);
                }
            }
            assert(string_set(es.changed@) =~= seq_set(views));
        }
    }
    insert_string(&mut acc.series_ids, regular_id.clone());
    let ghost old_sidecars = acc.sidecars@;
    let ghost new_rows = rows@;
    acc.sidecars.append(&mut rows);
    let ghost books_view = book_views(es.books@);
    let row = ScannedSeriesRow {
        series_id: regular_id,
        series_name,
        series_url: url_text.clone(),
        series_last_modified_unix_seconds: series_seconds,
        oneshot: false,
        books: es.books,
    };
    let ghost rows_before = acc.series_rows@;
    acc.series_rows.push(row);
    proof {
        assert(acc.sidecars@.map_values(|r: ScannedSidecarRow| sidecar_row_view(r)) =~= old_sidecars.map_values(|r: ScannedSidecarRow| sidecar_row_view(r)) + new_rows.map_values(|r: ScannedSidecarRow| sidecar_row_view(r)));
        assert(acc.series_rows@.map_values(|r: ScannedSeriesRow| series_view(r)) =~= rows_before.map_values(|r: ScannedSeriesRow| series_view(r)).push(series_view(acc.series_rows@.last())));
        let expected = scan_directory(old_view, *dir, ctx)->Ok_0;
        assert(accumulator_view(*acc) =~= expected);
    }
    Ok(())
}

} // verus!

verus! {

/// The scan of a library whose root does not exist: nothing found, root unavailable.
pub fn unavailable_scanned_library() -> (lib: ScannedLibrary)
    ensures
        scanned_library_view(lib) == (ScannedLibraryView { root_available: false, state: empty_scan_state() }),
        lib.changed_existing_book_ids@.len() == 0 && lib.series_ids_requiring_book_sync@.len() == 0
            && lib.discovered_series_ids@.len() == 0 && lib.discovered_book_ids@.len() == 0,
{
    let lib = ScannedLibrary {
        root_available: false,
        series_rows: Vec::new(),
        sidecars: Vec::new(),
        book_ids: Vec::new(),
        changed_existing_book_ids: Vec::new(),
        series_ids_requiring_book_sync: Vec::new(),
        discovered_series_ids: Vec::new(),
        discovered_book_ids: Vec::new(),
    };
    proof {
        assert(string_set(lib.changed_existing_book_ids@) =~= Set::empty());
        assert(string_set(lib.series_ids_requiring_book_sync@) =~= Set::empty());
        assert(string_set(lib.discovered_series_ids@) =~= Set::empty());
        assert(string_set(lib.discovered_book_ids@) =~= Set::empty());
        assert(scanned_library_view(lib).state =~= empty_scan_state());
    }
    lib
}

proof fn lemma_directories_failure_persists(dirs: Seq<SeriesDirectorySnapshot>, ctx: ScanContext, k: int)
    requires
        0 <= k <= dirs.len(),
        scan_directories(dirs.take(k), ctx) is Err,
    ensures
        scan_directories(dirs, ctx) == scan_directories(dirs.take(k), ctx),
    decreases dirs.len() - k,
{
    if k < dirs.len() {
        assert(dirs.take(k + 1).drop_last() =~= dirs.take(k));
        lemma_directories_failure_persists(dirs, ctx, k + 1);
    } else {
        assert(dirs.take(k) =~= dirs);
    }
}

/// Marks for synchronization every series that had an existing book which was not found.
fn account_for_deleted_books(acc: &mut ScanAccumulator, existing: &Vec<(String, ExistingScannedBookRow)>)
    requires
        sets_distinct(*old(acc)),
    ensures
        sets_distinct(*final(acc)),
        accumulator_view(*final(acc)) == finish_scan(accumulator_view(*old(acc)), existing@.map_values(|e: (String, ExistingScannedBookRow)| e.1)),
{
    let ghost start = accumulator_view(*acc);
    let ghost rows = existing@.map_values(|e: (String, ExistingScannedBookRow)| e.1);
    let mut i: usize = 0;
    proof {
        assert(series_with_deleted_books(rows.take(0), start.book_set) =~= Set::empty());
        assert(books_paired_with_any(start.pairs, Set::empty()) =~= Set::empty());
        assert(start.sync.union(Set::empty()) =~= start.sync);
        assert(start.changed.union(Set::empty()) =~= start.changed);
    }
    while i < existing.len()
        invariant
            i <= existing@.len(),
            rows == existing@.map_values(|e: (String, ExistingScannedBookRow)| e.1),
            sets_distinct(*acc),
            accumulator_view(*acc).book_set == start.book_set,
            accumulator_view(*acc).pairs == start.pairs,
            accumulator_view(*acc).series == start.series,
            accumulator_view(*acc).sidecars == start.sidecars,
            accumulator_view(*acc).book_ids == start.book_ids,
            accumulator_view(*acc).series_ids == start.series_ids,
            accumulator_view(*acc).sync == start.sync.union(series_with_deleted_books(rows.take(i as int), start.book_set)),
            accumulator_view(*acc).changed == start.changed.union(books_paired_with_any(start.pairs, series_with_deleted_books(rows.take(i as int), start.book_set))),
        decreases existing@.len() - i,
    {
        let row = &existing[i].1;
        let found = contains_string(&acc.book_set, row.book_id.as_str());
        let ghost d_before = series_with_deleted_books(rows.take(i as int), start.book_set);
        if !found {
            insert_string(&mut acc.sync, row.series_id.clone());
            add_paired_books(&mut acc.changed, &acc.pairs, row.series_id.as_str());
        }
        i = i + 1;
        proof {
            let d_now = series_with_deleted_books(rows.take(i as int), start.book_set);
            assert(rows[i - 1] == existing@[i - 1].1);
            assert forall|s: Seq<char>| d_now.contains(s) <==> (d_before.contains(s) || (!found && s == existing@[i - 1].1.series_id@)) by {
                if d_now.contains(s) {
                    let k = choose|k: int| 0 <= k < rows.take(i as int).len() && !start.book_set.contains(#[trigger] rows.take(i as int)[k].book_id@) && rows.take(i as int)[k].series_id@ == s;
                    if k < i - 1 {
                        assert(rows.take(i - 1)[k] == rows.take(i as int)[k]);
                    }
                }
                if d_before.contains(s) {
                    let k = choose|k: int| 0 <= k < rows.take(i - 1).len() && !start.book_set.contains(#[trigger] rows.take(i - 1)[k].book_id@) && rows.take(i - 1)[k].series_id@ == s;
                    assert(rows.take(i as int)[k] == rows.take(i - 1)[k]);
                }
                if !found && s == existing@[i - 1].1.series_id@ {
                    assert(rows.take(i as int)[i - 1] == rows[i - 1]);
                }
            }
            if found {
                assert(d_now =~= d_before);
            } else {
                let sid = existing@[i - 1].1.series_id@;
                assert(d_now =~= d_before.insert(sid));
                assert forall|b: Seq<char>| books_paired_with_any(start.pairs, d_now).contains(b) <==> (books_paired_with_any(start.pairs, d_before).contains(b) || paired_books(start.pairs, sid).contains(b)) by {
                    if books_paired_with_any(start.pairs, d_now).contains(b) {
                        let k = choose|k: int| 0 <= k < start.pairs.len() && d_now.contains(#[trigger] start.pairs[k].0) && start.pairs[k].1 == b;
                        if start.pairs[k].0 == sid {
                            assert(start.pairs[k] == (sid, b));
                        }
                    }
                    if paired_books(start.pairs, sid).contains(b) {
                        let k = choose|k: int| 0 <= k < start.pairs.len() && #[trigger] start.pairs[k] == (sid, b);
                        assert(d_now.contains(start.pairs[k].0));
                    }
                }
                assert(books_paired_with_any(start.pairs, d_now) =~= books_paired_with_any(start.pairs, d_before).union(paired_books(start.pairs, sid)));
            }
            assert(accumulator_view(*acc).sync =~= start.sync.union(d_now));
            assert(accumulator_view(*acc).changed =~= start.changed.union(books_paired_with_any(start.pairs, d_now)));
        }
    }
    proof {
        assert(rows.take(existing@.len() as int) =~= rows);
        assert(accumulator_view(*acc) =~= finish_scan(start, rows));
    }
}

} // verus!

verus! {

/// Builds the scanned view of a library from a snapshot of its series directories (in the
/// order they were found), the books and series the database already holds (keyed by
/// their stored URLs), and whether the scan is deep.
///
/// A missing root yields an unavailable library; an unreadable root, or any directory,
/// entry, timestamp or name that cannot be read, fails the scan with the first failure.
/// Books are the files a scan configuration supports; the other non-hidden files become
/// sidecars. A series needs book synchronization when the scan is deep, when it is new,
/// when its modification time changed, or when one of its existing books was not found.
pub fn build_scanned_library(
    scan_config: &LibraryScanConfig,
    root: &str,
    root_status: &LibraryRootStatus,
    existing_books_by_url: &Vec<(String, ExistingScannedBookRow)>,
    existing_series_by_url: &Vec<(String, ExistingScannedSeriesRow)>,
    deep_scan: bool,
    series_directories: &Vec<SeriesDirectorySnapshot>,
) -> (r: Result<ScannedLibrary, ScanError>)
    ensures
        match r {
            Ok(lib) => scan_library_spec(*root_status, root@, series_directories@, scan_context(root@, *scan_config, existing_books_by_url@, existing_series_by_url@, deep_scan))
                == Ok::<ScannedLibraryView, ScanFailure>(scanned_library_view(lib)),
            Err(e) => scan_library_spec(*root_status, root@, series_directories@, scan_context(root@, *scan_config, existing_books_by_url@, existing_series_by_url@, deep_scan))
                == Err::<ScannedLibraryView, ScanFailure>(e@),
        },
        r matches Ok(lib) ==> no_duplicates(lib.changed_existing_book_ids@) && no_duplicates(lib.series_ids_requiring_book_sync@)
            && no_duplicates(lib.discovered_series_ids@) && no_duplicates(lib.discovered_book_ids@),
{
    let ghost ctx = scan_context(root@, *scan_config, existing_books_by_url@, existing_series_by_url@, deep_scan);
    match root_status {
        LibraryRootStatus::Missing => return Ok(unavailable_scanned_library()),
        LibraryRootStatus::Unreadable(reason) => return Err(ScanError::RootInspection(String::from_str(root), reason.clone())),
        LibraryRootStatus::Available => {},
    }
    let keyed_books = rekey_existing_books(root, existing_books_by_url);
    let keyed_series = rekey_existing_series(root, existing_series_by_url);
    let mut acc = ScanAccumulator {
        series_rows: Vec::new(),
        sidecars: Vec::new(),
        book_ids: Vec::new(),
        changed: Vec::new(),
        pairs: Vec::new(),
        sync: Vec::new(),
        series_ids: Vec::new(),
        book_set: Vec::new(),
    };
    proof {
        assert(string_set(acc.changed@) =~= Set::empty());
        assert(string_set(acc.sync@) =~= Set::empty());
        assert(string_set(acc.series_ids@) =~= Set::empty());
        assert(string_set(acc.book_set@) =~= Set::empty());
        assert(accumulator_view(acc) =~= empty_scan_state());
        assert(series_directories@.take(0) =~= Seq::<SeriesDirectorySnapshot>::empty());
    }
    let mut i: usize = 0;
    while i < series_directories.len()
        invariant
            i <= series_directories@.len(),
            *root_status is Available,
            ctx == scan_context(root@, *scan_config, existing_books_by_url@, existing_series_by_url@, deep_scan),
            ctx.books == keyed_view(keyed_books@),
            ctx.series == keyed_view(keyed_series@),
            scan_directories(series_directories@.take(i as int), ctx) == Ok::<ScanState, ScanFailure>(accumulator_view(acc)),
            sets_distinct(acc),
        decreases series_directories@.len() - i,
    {
        proof {
            assert(series_directories@.take(i as int + 1).drop_last() =~= series_directories@.take(i as int));
            assert(series_directories@.take(i as int + 1).last() == series_directories@[i as int]);
        }
        match process_series_directory(&mut acc, &series_directories[i], scan_config, root, &keyed_books, &keyed_series, deep_scan, Ghost(ctx)) {
            Ok(()) => {},
            Err(e) => {
                proof {
                    assert(scan_directories(series_directories@.take(i as int + 1), ctx) == Err::<ScanState, ScanFailure>(e@));
                    lemma_directories_failure_persists(series_directories@, ctx, i as int + 1);
                }
                return Err(e);
            },
        }
        i = i + 1;
    }
    proof {
        assert(series_directories@.take(series_directories@.len() as int) =~= series_directories@);
    }
    account_for_deleted_books(&mut acc, existing_books_by_url);
    let lib = ScannedLibrary {
        root_available: true,
        series_rows: acc.series_rows,
        sidecars: acc.sidecars,
        book_ids: acc.book_ids,
        changed_existing_book_ids: acc.changed,
        series_ids_requiring_book_sync: acc.sync,
        discovered_series_ids: acc.series_ids,
        discovered_book_ids: acc.book_set,
    };
    proof {
        let expected = scan_library_spec(*root_status, root@, series_directories@, ctx)->Ok_0;
        assert(scanned_library_view(lib).state =~= expected.state);
    }
    Ok(lib)
}

} // verus!

//! The tasks queued after a library scan, and the order in which they are queued.
use vstd::prelude::*;
use crate::ordering::{sorted_listing, sorted_unique_strings, views};
use crate::scan_discovery::{ScannedBookRow, ScannedSidecarRow, ScannedSidecarSource, ScannedSidecarType};
use crate::scan_library::ScannedSeriesRow;
use crate::string_set::{
    contains_string, lemma_string_set_push, lemma_string_set_take_all, lemma_string_set_take_next,
    string_set,
};

verus! {

/// The kinds of task that a scan queues.
#[derive(Clone, Copy, Debug, PartialEq, Eq)]
pub enum FollowUpTaskKind {
    AnalyzeBook,
    HashBook,
    HashBookKoreader,
    FindBooksWithMissingPageHash,
    FindDuplicatePagesToDelete,
    RepairExtension,
    FindBooksToConvert,
    RefreshSeriesMetadata,
    RefreshBookMetadata,
    RefreshSeriesLocalArtwork,
    RefreshBookLocalArtwork,
}

/// The priority of analysis and metadata refreshes.
pub const DEFAULT_PRIORITY: i32 = 4;
/// The priority of extension repairs.
pub const LOW_PRIORITY: i32 = 2;
/// The priority of hashing, duplicate search and conversion.
pub const LOWEST_PRIORITY: i32 = 0;

/// A task to queue: what it does, the book, series or library it is about, its priority, the
/// group whose tasks run one at a time, and for a book metadata refresh the capabilities to
/// refresh (all of them when the list is empty).
#[derive(Clone, Debug)]
pub struct FollowUpTask {
    pub kind: FollowUpTaskKind,
    pub subject: String,
    pub priority: i32,
    pub group: Option<String>,
    pub capabilities: Vec<String>,
}

/// A task as plain values.
pub struct FollowUpTaskView {
    pub kind: FollowUpTaskKind,
    pub subject: Seq<char>,
    pub priority: int,
    pub group: Option<Seq<char>>,
    pub capabilities: Seq<Seq<char>>,
}

impl View for FollowUpTask {
    type V = FollowUpTaskView;

    open spec fn view(&self) -> FollowUpTaskView {
        FollowUpTaskView {
            kind: self.kind,
            subject: self.subject@,
            priority: self.priority as int,
            group: match self.group {
                Some(g) => Some(g@),
                None => None,
            },
            capabilities: views(self.capabilities@),
        }
    }
}

pub open spec fn task_views(v: Seq<FollowUpTask>) -> Seq<FollowUpTaskView> {
    v.map_values(|t: FollowUpTask| t@)
}

/// A task without capabilities.
pub open spec fn task(kind: FollowUpTaskKind, subject: Seq<char>, priority: int, group: Option<Seq<char>>) -> FollowUpTaskView {
    FollowUpTaskView { kind, subject, priority, group, capabilities: Seq::empty() }
}

/// A request to refresh some of a book's metadata, made while a scan was persisted.
#[derive(Clone, Debug)]
pub struct BookMetadataRefreshRequest {
    pub book_id: String,
    pub series_id: String,
    pub capabilities: Vec<String>,
}

/// Which hashes the library keeps.
#[derive(Clone, Copy, Debug)]
pub struct LibraryHashingFlags {
    pub hash_files: bool,
    pub hash_koreader: bool,
    pub hash_pages: bool,
}

/// Which maintenance the library asks for after a scan.
#[derive(Clone, Copy, Debug)]
pub struct LibraryMaintenanceFlags {
    pub repair_extensions: bool,
    pub convert_to_cbz: bool,
}

/// A book whose file extension does not match its content.
#[derive(Clone, Debug)]
pub struct ExtensionRepairBook {
    pub book_id: String,
    pub series_id: String,
}

/// What the planner works from: the scan's outcome and what the database reported for the
/// library.
#[derive(Clone, Debug)]
pub struct FollowUpInputs {
    pub library_id: String,
    /// The series found, with their books, in scan order.
    pub series_rows: Vec<ScannedSeriesRow>,
    /// The books among those scanned whose media must be analyzed.
    pub analyzable_book_ids: Vec<String>,
    pub hashing: LibraryHashingFlags,
    /// Books without a file hash (read only when files are hashed).
    pub books_missing_file_hash: Vec<String>,
    /// Books without a KOReader hash (read only when those are kept).
    pub books_missing_koreader_hash: Vec<String>,
    pub maintenance: LibraryMaintenanceFlags,
    /// Books whose extension must be repaired (read only when repairs are on).
    pub extension_repair_books: Vec<ExtensionRepairBook>,
    pub changed_series_ids: Vec<String>,
    pub book_metadata_refreshes: Vec<BookMetadataRefreshRequest>,
    pub renumbered_book_ids: Vec<String>,
    /// The sidecars the scan found, in scan order.
    pub sidecars: Vec<ScannedSidecarRow>,
    /// The URLs of the sidecars that are new or changed since the last scan.
    pub changed_sidecar_urls: Vec<String>,
}

/// Analysis tasks for the analyzable books of one series, in book order.
pub open spec fn book_analysis_tasks(series_id: Seq<char>, books: Seq<crate::scan_discovery::ScannedBookRow>, analyzable: Set<Seq<char>>) -> Seq<FollowUpTaskView>
    decreases books.len(),
{
    if books.len() == 0 {
        Seq::empty()
    } else {
        let rest = book_analysis_tasks(series_id, books.drop_last(), analyzable);
        if analyzable.contains(books.last().book_id@) {
            rest.push(task(FollowUpTaskKind::AnalyzeBook, books.last().book_id@, DEFAULT_PRIORITY as int, Some(series_id)))
        } else {
            rest
        }
    }
}

/// Analysis tasks for every analyzable book, series by series, grouped by series.
pub open spec fn analysis_tasks(rows: Seq<ScannedSeriesRow>, analyzable: Set<Seq<char>>) -> Seq<FollowUpTaskView>
    decreases rows.len(),
{
    if rows.len() == 0 {
        Seq::empty()
    } else {
        analysis_tasks(rows.drop_last(), analyzable)
            + book_analysis_tasks(rows.last().series_id@, rows.last().books@, analyzable)
    }
}

/// One task of `kind` per subject, in order, ungrouped.
pub open spec fn subject_tasks(kind: FollowUpTaskKind, subjects: Seq<Seq<char>>, priority: int) -> Seq<FollowUpTaskView> {
    Seq::new(subjects.len(), |i: int| task(kind, subjects[i], priority, None))
}

/// Extension repairs, grouped by the book's series.
pub open spec fn repair_tasks(books: Seq<ExtensionRepairBook>) -> Seq<FollowUpTaskView> {
    Seq::new(books.len(), |i: int| task(FollowUpTaskKind::RepairExtension, books[i].book_id@, LOW_PRIORITY as int, Some(books[i].series_id@)))
}

/// Series metadata refreshes, each grouped by its own series.
pub open spec fn series_refresh_tasks(ids: Seq<Seq<char>>) -> Seq<FollowUpTaskView> {
    Seq::new(ids.len(), |i: int| task(FollowUpTaskKind::RefreshSeriesMetadata, ids[i], DEFAULT_PRIORITY as int, Some(ids[i])))
}

/// The books that some refresh request names.
pub open spec fn refreshed_book_ids(refreshes: Seq<BookMetadataRefreshRequest>) -> Set<Seq<char>> {
    Set::new(|b: Seq<char>| exists|i: int| 0 <= i < refreshes.len() && #[trigger] refreshes[i].book_id@ == b)
}

/// The capabilities that the requests for `book_id` name together.
pub open spec fn requested_capabilities(refreshes: Seq<BookMetadataRefreshRequest>, book_id: Seq<char>) -> Set<Seq<char>> {
    Set::new(|c: Seq<char>| exists|i: int| 0 <= i < refreshes.len() && #[trigger] refreshes[i].book_id@ == book_id
        && string_set(refreshes[i].capabilities@).contains(c))
}

/// Whether `book_id` is among the books of `row`.
pub open spec fn series_has_book(row: ScannedSeriesRow, book_id: Seq<char>) -> bool {
    exists|j: int| 0 <= j < row.books@.len() && #[trigger] row.books@[j].book_id@ == book_id
}

/// The series of the last row that holds `book_id`.
pub open spec fn last_series_of(rows: Seq<ScannedSeriesRow>, book_id: Seq<char>) -> Option<Seq<char>>
    decreases rows.len(),
{
    if rows.len() == 0 {
        None
    } else if series_has_book(rows.last(), book_id) {
        Some(rows.last().series_id@)
    } else {
        last_series_of(rows.drop_last(), book_id)
    }
}

/// The metadata refresh of one book: its requested capabilities, sorted and each once, and
/// the book's series as group when the scan saw the book.
pub open spec fn book_refresh_task(book_id: Seq<char>, refreshes: Seq<BookMetadataRefreshRequest>, rows: Seq<ScannedSeriesRow>) -> FollowUpTaskView {
    FollowUpTaskView {
        kind: FollowUpTaskKind::RefreshBookMetadata,
        subject: book_id,
        priority: DEFAULT_PRIORITY as int,
        group: last_series_of(rows, book_id),
        capabilities: sorted_listing(requested_capabilities(refreshes, book_id)),
    }
}

/// The books to refresh: those with a request and those renumbered, in increasing order.
pub open spec fn books_to_refresh(refreshes: Seq<BookMetadataRefreshRequest>, renumbered: Seq<String>) -> Seq<Seq<char>> {
    sorted_listing(refreshed_book_ids(refreshes).union(string_set(renumbered)))
}

pub open spec fn book_refresh_tasks(refreshes: Seq<BookMetadataRefreshRequest>, renumbered: Seq<String>, rows: Seq<ScannedSeriesRow>) -> Seq<FollowUpTaskView> {
    let keys = books_to_refresh(refreshes, renumbered);
    Seq::new(keys.len(), |i: int| book_refresh_task(keys[i], refreshes, rows))
}

/// The whole plan, in queue order: analysis; file hashes and KOReader hashes when kept;
/// the search for missing page hashes when page hashes are kept; the search for duplicate
/// pages; extension repairs and the search for books to convert when asked for; series
/// refreshes in increasing order of id; book metadata refreshes in increasing order of id.
pub open spec fn follow_up_plan(inputs: FollowUpInputs) -> Seq<FollowUpTaskView> {
    let library = inputs.library_id@;
    analysis_tasks(inputs.series_rows@, string_set(inputs.analyzable_book_ids@))
        + (if inputs.hashing.hash_files {
            subject_tasks(FollowUpTaskKind::HashBook, views(inputs.books_missing_file_hash@), LOWEST_PRIORITY as int)
        } else {
            Seq::empty()
        })
        + (if inputs.hashing.hash_koreader {
            subject_tasks(FollowUpTaskKind::HashBookKoreader, views(inputs.books_missing_koreader_hash@), LOWEST_PRIORITY as int)
        } else {
            Seq::empty()
        })
        + (if inputs.hashing.hash_pages {
            seq![task(FollowUpTaskKind::FindBooksWithMissingPageHash, library, LOWEST_PRIORITY as int, None)]
        } else {
            Seq::empty()
        })
        + seq![task(FollowUpTaskKind::FindDuplicatePagesToDelete, library, LOWEST_PRIORITY as int, None)]
        + (if inputs.maintenance.repair_extensions {
            repair_tasks(inputs.extension_repair_books@)
        } else {
            Seq::empty()
        })
        + (if inputs.maintenance.convert_to_cbz {
            seq![task(FollowUpTaskKind::FindBooksToConvert, library, LOWEST_PRIORITY as int, None)]
        } else {
            Seq::empty()
        })
        + series_refresh_tasks(sorted_listing(string_set(inputs.changed_series_ids@)))
        + book_refresh_tasks(inputs.book_metadata_refreshes@, inputs.renumbered_book_ids@, inputs.series_rows@)
        + sidecar_refresh_tasks(inputs.series_rows@, inputs.sidecars@, string_set(inputs.changed_sidecar_urls@))
}

/// The id of the first series whose URL is `url`.
pub open spec fn series_with_url(rows: Seq<ScannedSeriesRow>, url: Seq<char>) -> Option<Seq<char>>
    decreases rows.len(),
{
    if rows.len() == 0 {
        None
    } else if rows[0].series_url@ == url {
        Some(rows[0].series_id@)
    } else {
        series_with_url(rows.skip(1), url)
    }
}

/// The id of the first book whose URL is `url`.
pub open spec fn book_in_row(books: Seq<ScannedBookRow>, url: Seq<char>) -> Option<Seq<char>>
    decreases books.len(),
{
    if books.len() == 0 {
        None
    } else if books[0].book_url@ == url {
        Some(books[0].book_id@)
    } else {
        book_in_row(books.skip(1), url)
    }
}

/// The first book (series by series) whose URL is `url`, with its series.
pub open spec fn book_with_url(rows: Seq<ScannedSeriesRow>, url: Seq<char>) -> Option<(Seq<char>, Seq<char>)>
    decreases rows.len(),
{
    if rows.len() == 0 {
        None
    } else {
        match book_in_row(rows[0].books@, url) {
            Some(b) => Some((b, rows[0].series_id@)),
            None => book_with_url(rows.skip(1), url),
        }
    }
}

/// The refresh that a changed sidecar asks for: a series sidecar refreshes the series whose
/// URL is the sidecar's parent (its local artwork or its metadata), a book sidecar the book
/// whose URL is the parent; none when the scan found no such series or book.
pub open spec fn sidecar_task(rows: Seq<ScannedSeriesRow>, s: ScannedSidecarRow) -> Option<FollowUpTaskView> {
    match s.source {
        ScannedSidecarSource::Series => match series_with_url(rows, s.parent_url@) {
            Some(id) => Some(task(
                if s.sidecar_type == ScannedSidecarType::Artwork {
                    FollowUpTaskKind::RefreshSeriesLocalArtwork
                } else {
                    FollowUpTaskKind::RefreshSeriesMetadata
                },
                id, DEFAULT_PRIORITY as int, Some(id))),
            None => None,
        },
        ScannedSidecarSource::Book => match book_with_url(rows, s.parent_url@) {
            Some((book_id, series_id)) => Some(task(
                if s.sidecar_type == ScannedSidecarType::Artwork {
                    FollowUpTaskKind::RefreshBookLocalArtwork
                } else {
                    FollowUpTaskKind::RefreshBookMetadata
                },
                book_id, DEFAULT_PRIORITY as int, Some(series_id))),
            None => None,
        },
    }
}

/// The refreshes of the changed sidecars, in sidecar order.
pub open spec fn sidecar_refresh_tasks(rows: Seq<ScannedSeriesRow>, sidecars: Seq<ScannedSidecarRow>, changed: Set<Seq<char>>) -> Seq<FollowUpTaskView>
    decreases sidecars.len(),
{
    if sidecars.len() == 0 {
        Seq::empty()
    } else {
        let rest = sidecar_refresh_tasks(rows, sidecars.drop_last(), changed);
        if changed.contains(sidecars.last().url@) {
            match sidecar_task(rows, sidecars.last()) {
                Some(t) => rest.push(t),
                None => rest,
            }
        } else {
            rest
        }
    }
}

fn find_series_with_url(rows: &Vec<ScannedSeriesRow>, url: &String) -> (r: Option<String>)
    ensures
        match r {
            Some(id) => series_with_url(rows@, url@) == Some(id@),
            None => series_with_url(rows@, url@) is None,
        },
{
    let mut i: usize = 0;
    proof {
        assert(rows@.skip(0) =~= rows@);
    }
    while i < rows.len()
        invariant
            i <= rows@.len(),
            series_with_url(rows@, url@) == series_with_url(rows@.skip(i as int), url@),
        decreases rows@.len() - i,
    {
        proof {
            assert(rows@.skip(i as int)[0] == rows@[i as int]);
            assert(rows@.skip(i as int).skip(1) =~= rows@.skip(i + 1));
        }
        if rows[i].series_url == *url {
            return Some(rows[i].series_id.clone());
        }
        i += 1;
    }
    None
}

fn find_book_in_row(books: &Vec<ScannedBookRow>, url: &String) -> (r: Option<String>)
    ensures
        match r {
            Some(id) => book_in_row(books@, url@) == Some(id@),
            None => book_in_row(books@, url@) is None,
        },
{
    let mut i: usize = 0;
    proof {
        assert(books@.skip(0) =~= books@);
    }
    while i < books.len()
        invariant
            i <= books@.len(),
            book_in_row(books@, url@) == book_in_row(books@.skip(i as int), url@),
        decreases books@.len() - i,
    {
        proof {
            assert(books@.skip(i as int)[0] == books@[i as int]);
            assert(books@.skip(i as int).skip(1) =~= books@.skip(i + 1));
        }
        if books[i].book_url == *url {
            return Some(books[i].book_id.clone());
        }
        i += 1;
    }
    None
}

fn find_book_with_url(rows: &Vec<ScannedSeriesRow>, url: &String) -> (r: Option<(String, String)>)
    ensures
        match r {
            Some(p) => book_with_url(rows@, url@) == Some((p.0@, p.1@)),
            None => book_with_url(rows@, url@) is None,
        },
{
    let mut i: usize = 0;
    proof {
        assert(rows@.skip(0) =~= rows@);
    }
    while i < rows.len()
        invariant
            i <= rows@.len(),
            book_with_url(rows@, url@) == book_with_url(rows@.skip(i as int), url@),
        decreases rows@.len() - i,
    {
        proof {
            assert(rows@.skip(i as int)[0] == rows@[i as int]);
            assert(rows@.skip(i as int).skip(1) =~= rows@.skip(i + 1));
        }
        if let Some(b) = find_book_in_row(&rows[i].books, url) {
            return Some((b, rows[i].series_id.clone()));
        }
        i += 1;
    }
    None
}

fn sidecar_refresh(rows: &Vec<ScannedSeriesRow>, s: &ScannedSidecarRow) -> (r: Option<FollowUpTask>)
    ensures
        match r {
            Some(t) => sidecar_task(rows@, *s) == Some(t@),
            None => sidecar_task(rows@, *s) is None,
        },
{
    let artwork = match s.sidecar_type {
        ScannedSidecarType::Artwork => true,
        ScannedSidecarType::Metadata => false,
    };
    match s.source {
        ScannedSidecarSource::Series => match find_series_with_url(rows, &s.parent_url) {
            Some(id) => {
                let kind = if artwork { FollowUpTaskKind::RefreshSeriesLocalArtwork } else { FollowUpTaskKind::RefreshSeriesMetadata };
                let group = id.clone();
                Some(plain_task(kind, id, DEFAULT_PRIORITY, Some(group)))
            },
            None => None,
        },
        ScannedSidecarSource::Book => match find_book_with_url(rows, &s.parent_url) {
            Some((book_id, series_id)) => {
                let kind = if artwork { FollowUpTaskKind::RefreshBookLocalArtwork } else { FollowUpTaskKind::RefreshBookMetadata };
                Some(plain_task(kind, book_id, DEFAULT_PRIORITY, Some(series_id)))
            },
            None => None,
        },
    }
}

fn push_sidecar_refresh_tasks(out: &mut Vec<FollowUpTask>, rows: &Vec<ScannedSeriesRow>, sidecars: &Vec<ScannedSidecarRow>, changed: &Vec<String>)
    ensures
        task_views(final(out)@) == task_views(old(out)@) + sidecar_refresh_tasks(rows@, sidecars@, string_set(changed@)),
{
    let ghost start = task_views(out@);
    let ghost ch = string_set(changed@);
    let mut i: usize = 0;
    proof {
        assert(sidecars@.take(0) =~= Seq::<ScannedSidecarRow>::empty());
        assert(task_views(out@) =~= start + sidecar_refresh_tasks(rows@, sidecars@.take(0), ch));
    }
    while i < sidecars.len()
        invariant
            i <= sidecars@.len(),
            ch == string_set(changed@),
            task_views(out@) == start + sidecar_refresh_tasks(rows@, sidecars@.take(i as int), ch),
        decreases sidecars@.len() - i,
    {
        proof {
            assert(sidecars@.take(i + 1).drop_last() =~= sidecars@.take(i as int));
            assert(sidecars@.take(i + 1).last() == sidecars@[i as int]);
        }
        let ghost before = task_views(out@);
        if contains_string(changed, sidecars[i].url.as_str()) {
            if let Some(t) = sidecar_refresh(rows, &sidecars[i]) {
                push_task(out, t);
                proof {
                    assert(task_views(out@) =~= start + sidecar_refresh_tasks(rows@, sidecars@.take(i + 1), ch));
                }
            }
        }
        i += 1;
    }
    proof {
        assert(sidecars@.take(sidecars@.len() as int) =~= sidecars@);
    }
}

fn push_task(out: &mut Vec<FollowUpTask>, t: FollowUpTask)
    ensures
        task_views(final(out)@) == task_views(old(out)@).push(t@),
{
    out.push(t);
    proof {
        assert(task_views(final(out)@) =~= task_views(old(out)@).push(t@));
    }
}

fn plain_task(kind: FollowUpTaskKind, subject: String, priority: i32, group: Option<String>) -> (t: FollowUpTask)
    ensures
        t@ == task(kind, subject@, priority as int, match group {
            Some(g) => Some(g@),
            None => None,
        }),
{
    let t = FollowUpTask { kind, subject, priority, group, capabilities: Vec::new() };
    proof {
        assert(views(t.capabilities@) =~= Seq::<Seq<char>>::empty());
    }
    t
}

fn push_analysis_tasks(out: &mut Vec<FollowUpTask>, rows: &Vec<ScannedSeriesRow>, analyzable: &Vec<String>)
    ensures
        task_views(final(out)@) == task_views(old(out)@) + analysis_tasks(rows@, string_set(analyzable@)),
{
    let ghost a = string_set(analyzable@);
    let ghost base = task_views(out@);
    let mut i: usize = 0;
    proof {
        assert(rows@.take(0) =~= Seq::<ScannedSeriesRow>::empty());
        assert(base + analysis_tasks(rows@.take(0), a) =~= base);
    }
    while i < rows.len()
        invariant
            i <= rows@.len(),
            a == string_set(analyzable@),
            task_views(out@) == base + analysis_tasks(rows@.take(i as int), a),
        decreases rows@.len() - i,
    {
        let series = &rows[i];
        let ghost before = task_views(out@);
        let mut j: usize = 0;
        proof {
            assert(series.books@.take(0) =~= Seq::<crate::scan_discovery::ScannedBookRow>::empty());
            assert(before + book_analysis_tasks(series.series_id@, series.books@.take(0), a) =~= before);
        }
        while j < series.books.len()
            invariant
                j <= series.books@.len(),
                *series == rows@[i as int],
                a == string_set(analyzable@),
                task_views(out@) == before + book_analysis_tasks(series.series_id@, series.books@.take(j as int), a),
            decreases series.books@.len() - j,
        {
            let book = &series.books[j];
            proof {
                assert(series.books@.take(j + 1).drop_last() =~= series.books@.take(j as int));
            }
            if contains_string(analyzable, book.book_id.as_str()) {
                let t = plain_task(FollowUpTaskKind::AnalyzeBook, book.book_id.clone(), DEFAULT_PRIORITY, Some(series.series_id.clone()));
                push_task(out, t);
                proof {
                    assert(task_views(out@) =~= before + book_analysis_tasks(series.series_id@, series.books@.take(j + 1), a));
                }
            }
            j += 1;
        }
        proof {
            assert(series.books@.take(series.books@.len() as int) =~= series.books@);
            assert(rows@.take(i + 1).drop_last() =~= rows@.take(i as int));
            assert(task_views(out@) =~= base + analysis_tasks(rows@.take(i + 1), a));
        }
        i += 1;
    }
    proof {
        assert(rows@.take(rows@.len() as int) =~= rows@);
    }
}

fn push_subject_tasks(out: &mut Vec<FollowUpTask>, kind: FollowUpTaskKind, subjects: &Vec<String>, priority: i32)
    ensures
        task_views(final(out)@) == task_views(old(out)@) + subject_tasks(kind, views(subjects@), priority as int),
{
    let ghost base = task_views(out@);
    let mut i: usize = 0;
    while i < subjects.len()
        invariant
            i <= subjects@.len(),
            task_views(out@) == base + subject_tasks(kind, views(subjects@.take(i as int)), priority as int),
        decreases subjects@.len() - i,
    {
        let t = plain_task(kind, subjects[i].clone(), priority, None);
        push_task(out, t);
        proof {
            assert(subject_tasks(kind, views(subjects@.take(i + 1)), priority as int)
                =~= subject_tasks(kind, views(subjects@.take(i as int)), priority as int).push(t@));
            assert(task_views(out@) =~= base + subject_tasks(kind, views(subjects@.take(i + 1)), priority as int));
        }
        i += 1;
    }
    proof {
        assert(subjects@.take(subjects@.len() as int) =~= subjects@);
    }
}

fn push_repair_tasks(out: &mut Vec<FollowUpTask>, books: &Vec<ExtensionRepairBook>)
    ensures
        task_views(final(out)@) == task_views(old(out)@) + repair_tasks(books@),
{
    let ghost base = task_views(out@);
    let mut i: usize = 0;
    while i < books.len()
        invariant
            i <= books@.len(),
            task_views(out@) == base + repair_tasks(books@.take(i as int)),
        decreases books@.len() - i,
    {
        let t = plain_task(FollowUpTaskKind::RepairExtension, books[i].book_id.clone(), LOW_PRIORITY, Some(books[i].series_id.clone()));
        push_task(out, t);
        proof {
            assert(repair_tasks(books@.take(i + 1)) =~= repair_tasks(books@.take(i as int)).push(t@));
            assert(task_views(out@) =~= base + repair_tasks(books@.take(i + 1)));
        }
        i += 1;
    }
    proof {
        assert(books@.take(books@.len() as int) =~= books@);
    }
}

fn push_series_refresh_tasks(out: &mut Vec<FollowUpTask>, ids: &Vec<String>)
    ensures
        task_views(final(out)@) == task_views(old(out)@) + series_refresh_tasks(views(ids@)),
{
    let ghost base = task_views(out@);
    let mut i: usize = 0;
    while i < ids.len()
        invariant
            i <= ids@.len(),
            task_views(out@) == base + series_refresh_tasks(views(ids@.take(i as int))),
        decreases ids@.len() - i,
    {
        let t = plain_task(FollowUpTaskKind::RefreshSeriesMetadata, ids[i].clone(), DEFAULT_PRIORITY, Some(ids[i].clone()));
        push_task(out, t);
        proof {
            assert(series_refresh_tasks(views(ids@.take(i + 1))) =~= series_refresh_tasks(views(ids@.take(i as int))).push(t@));
            assert(task_views(out@) =~= base + series_refresh_tasks(views(ids@.take(i + 1))));
        }
        i += 1;
    }
    proof {
        assert(ids@.take(ids@.len() as int) =~= ids@);
    }
}

/// Every book id of the refresh requests, then every renumbered book id.
fn refresh_keys(refreshes: &Vec<BookMetadataRefreshRequest>, renumbered: &Vec<String>) -> (keys: Vec<String>)
    ensures
        string_set(keys@) == refreshed_book_ids(refreshes@).union(string_set(renumbered@)),
{
    let mut keys: Vec<String> = Vec::new();
    let mut i: usize = 0;
    proof {
        assert(string_set(keys@) =~= refreshed_book_ids(refreshes@.take(0)));
    }
    while i < refreshes.len()
        invariant
            i <= refreshes@.len(),
            string_set(keys@) == refreshed_book_ids(refreshes@.take(i as int)),
        decreases refreshes@.len() - i,
    {
        let ghost prev = keys@;
        keys.push(refreshes[i].book_id.clone());
        proof {
            lemma_string_set_push(prev, refreshes@[i as int].book_id);
            let p = refreshes@.take(i + 1);
            assert forall|b: Seq<char>| refreshed_book_ids(p).contains(b) <==> refreshed_book_ids(refreshes@.take(i as int)).insert(refreshes@[i as int].book_id@).contains(b) by {
                if refreshed_book_ids(p).contains(b) {
                    let k = choose|k: int| 0 <= k < p.len() && #[trigger] p[k].book_id@ == b;
                    if k < i {
                        assert(refreshes@.take(i as int)[k].book_id@ == b);
                    }
                }
                if refreshed_book_ids(refreshes@.take(i as int)).contains(b) {
                    let k = choose|k: int| 0 <= k < refreshes@.take(i as int).len() && #[trigger] refreshes@.take(i as int)[k].book_id@ == b;
                    assert(p[k].book_id@ == b);
                }
                if b == refreshes@[i as int].book_id@ {
                    assert(p[i as int].book_id@ == b);
                }
            }
            assert(refreshed_book_ids(p) =~= refreshed_book_ids(refreshes@.take(i as int)).insert(refreshes@[i as int].book_id@));
        }
        i += 1;
    }
    proof {
        assert(refreshes@.take(refreshes@.len() as int) =~= refreshes@);
    }
    let ghost first = keys@;
    let mut j: usize = 0;
    proof {
        assert(string_set(renumbered@.take(0)) =~= Set::<Seq<char>>::empty());
        assert(string_set(keys@) =~= string_set(first).union(string_set(renumbered@.take(0))));
    }
    while j < renumbered.len()
        invariant
            j <= renumbered@.len(),
            string_set(first) == refreshed_book_ids(refreshes@),
            string_set(keys@) == string_set(first).union(string_set(renumbered@.take(j as int))),
        decreases renumbered@.len() - j,
    {
        let ghost prev = keys@;
        keys.push(renumbered[j].clone());
        proof {
            lemma_string_set_push(prev, renumbered@[j as int]);
            lemma_string_set_take_next(renumbered@, j as int);
            assert(string_set(keys@) =~= string_set(first).union(string_set(renumbered@.take(j + 1))));
        }
        j += 1;
    }
    proof {
        lemma_string_set_take_all(renumbered@);
    }
    keys
}

/// Every capability named by the requests for `book_id`.
fn requested_capability_list(refreshes: &Vec<BookMetadataRefreshRequest>, book_id: &String) -> (caps: Vec<String>)
    ensures
        string_set(caps@) == requested_capabilities(refreshes@, book_id@),
{
    let mut caps: Vec<String> = Vec::new();
    let mut i: usize = 0;
    proof {
        assert(string_set(caps@) =~= requested_capabilities(refreshes@.take(0), book_id@));
    }
    while i < refreshes.len()
        invariant
            i <= refreshes@.len(),
            string_set(caps@) == requested_capabilities(refreshes@.take(i as int), book_id@),
        decreases refreshes@.len() - i,
    {
        let request = &refreshes[i];
        let ghost before = caps@;
        if request.book_id == *book_id {
            let mut j: usize = 0;
            proof {
                assert(string_set(request.capabilities@.take(0)) =~= Set::<Seq<char>>::empty());
                assert(string_set(caps@) =~= string_set(before).union(string_set(request.capabilities@.take(0))));
            }
            while j < request.capabilities.len()
                invariant
                    j <= request.capabilities@.len(),
                    string_set(caps@) == string_set(before).union(string_set(request.capabilities@.take(j as int))),
                decreases request.capabilities@.len() - j,
            {
                let ghost prev = caps@;
                caps.push(request.capabilities[j].clone());
                proof {
                    lemma_string_set_push(prev, request.capabilities@[j as int]);
                    lemma_string_set_take_next(request.capabilities@, j as int);
                    assert(string_set(caps@) =~= string_set(before).union(string_set(request.capabilities@.take(j + 1))));
                }
                j += 1;
            }
            proof {
                lemma_string_set_take_all(request.capabilities@);
            }
        }
        proof {
            let p = refreshes@.take(i + 1);
            let q = refreshes@.take(i as int);
            let added = if request.book_id@ == book_id@ { string_set(request.capabilities@) } else { Set::empty() };
            assert(string_set(caps@) =~= string_set(before).union(added));
            assert forall|c: Seq<char>| requested_capabilities(p, book_id@).contains(c) <==> requested_capabilities(q, book_id@).union(added).contains(c) by {
                if requested_capabilities(p, book_id@).contains(c) {
                    let k = choose|k: int| 0 <= k < p.len() && #[trigger] p[k].book_id@ == book_id@ && string_set(p[k].capabilities@).contains(c);
                    if k < i {
                        assert(q[k].book_id@ == book_id@ && string_set(q[k].capabilities@).contains(c));
                    }
                }
                if requested_capabilities(q, book_id@).contains(c) {
                    let k = choose|k: int| 0 <= k < q.len() && #[trigger] q[k].book_id@ == book_id@ && string_set(q[k].capabilities@).contains(c);
                    assert(p[k].book_id@ == book_id@ && string_set(p[k].capabilities@).contains(c));
                }
                if added.contains(c) {
                    assert(p[i as int] == *request);
                    assert(p[i as int].book_id@ == book_id@ && string_set(p[i as int].capabilities@).contains(c));
                }
            }
            assert(requested_capabilities(p, book_id@) =~= requested_capabilities(q, book_id@).union(added));
        }
        i += 1;
    }
    proof {
        assert(refreshes@.take(refreshes@.len() as int) =~= refreshes@);
    }
    caps
}

/// Whether `book_id` is among the books of `row`.
fn row_has_book(row: &ScannedSeriesRow, book_id: &String) -> (r: bool)
    ensures
        r == series_has_book(*row, book_id@),
{
    let mut j: usize = 0;
    while j < row.books.len()
        invariant
            j <= row.books@.len(),
            forall|k: int| 0 <= k < j ==> #[trigger] row.books@[k].book_id@ != book_id@,
        decreases row.books@.len() - j,
    {
        if row.books[j].book_id == *book_id {
            return true;
        }
        j += 1;
    }
    false
}

/// The series of the last scanned row that holds `book_id`.
fn series_of_book(rows: &Vec<ScannedSeriesRow>, book_id: &String) -> (group: Option<String>)
    ensures
        match group {
            Some(g) => last_series_of(rows@, book_id@) == Some(g@),
            None => last_series_of(rows@, book_id@) is None,
        },
{
    let mut found: Option<String> = None;
    let mut i: usize = 0;
    while i < rows.len()
        invariant
            i <= rows@.len(),
            match found {
                Some(g) => last_series_of(rows@.take(i as int), book_id@) == Some(g@),
                None => last_series_of(rows@.take(i as int), book_id@) is None,
            },
        decreases rows@.len() - i,
    {
        proof {
            assert(rows@.take(i + 1).drop_last() =~= rows@.take(i as int));
        }
        if row_has_book(&rows[i], book_id) {
            found = Some(rows[i].series_id.clone());
        }
        i += 1;
    }
    proof {
        assert(rows@.take(rows@.len() as int) =~= rows@);
    }
    found
}

fn push_book_refresh_tasks(
    out: &mut Vec<FollowUpTask>,
    refreshes: &Vec<BookMetadataRefreshRequest>,
    renumbered: &Vec<String>,
    rows: &Vec<ScannedSeriesRow>,
)
    ensures
        task_views(final(out)@) == task_views(old(out)@) + book_refresh_tasks(refreshes@, renumbered@, rows@),
{
    let all_keys = refresh_keys(refreshes, renumbered);
    let keys = sorted_unique_strings(&all_keys);
    let ghost base = task_views(out@);
    let ghost listing = books_to_refresh(refreshes@, renumbered@);
    assert(views(keys@) == listing);
    let mut i: usize = 0;
    while i < keys.len()
        invariant
            i <= keys@.len(),
            views(keys@) == listing,
            listing == books_to_refresh(refreshes@, renumbered@),
            task_views(out@) == base + Seq::new(i as nat, |k: int| book_refresh_task(listing[k], refreshes@, rows@)),
        decreases keys@.len() - i,
    {
        let book_id = &keys[i];
        let caps = requested_capability_list(refreshes, book_id);
        let sorted_caps = sorted_unique_strings(&caps);
        let group = series_of_book(rows, book_id);
        let t = FollowUpTask {
            kind: FollowUpTaskKind::RefreshBookMetadata,
            subject: book_id.clone(),
            priority: DEFAULT_PRIORITY,
            group,
            capabilities: sorted_caps,
        };
        proof {
            assert(listing[i as int] == keys@[i as int]@);
            assert(t@ == book_refresh_task(listing[i as int], refreshes@, rows@));
        }
        push_task(out, t);
        proof {
            assert(task_views(out@) =~= base + Seq::new((i + 1) as nat, |k: int| book_refresh_task(listing[k], refreshes@, rows@)));
        }
        i += 1;
    }
    proof {
        assert(Seq::new(keys@.len() as nat, |k: int| book_refresh_task(listing[k], refreshes@, rows@))
            =~= book_refresh_tasks(refreshes@, renumbered@, rows@));
    }
}

/// Plans the tasks that follow a scan (see [`follow_up_plan`]).
pub fn plan_scan_follow_ups(inputs: &FollowUpInputs) -> (tasks: Vec<FollowUpTask>)
    ensures
        task_views(tasks@) == follow_up_plan(*inputs),
{
    let mut tasks: Vec<FollowUpTask> = Vec::new();
    let ghost s0 = task_views(tasks@);
    push_analysis_tasks(&mut tasks, &inputs.series_rows, &inputs.analyzable_book_ids);
    let ghost s1 = task_views(tasks@);
    if inputs.hashing.hash_files {
        push_subject_tasks(&mut tasks, FollowUpTaskKind::HashBook, &inputs.books_missing_file_hash, LOWEST_PRIORITY);
    }
    let ghost s2 = task_views(tasks@);
    if inputs.hashing.hash_koreader {
        push_subject_tasks(&mut tasks, FollowUpTaskKind::HashBookKoreader, &inputs.books_missing_koreader_hash, LOWEST_PRIORITY);
    }
    let ghost s3 = task_views(tasks@);
    if inputs.hashing.hash_pages {
        let t = plain_task(FollowUpTaskKind::FindBooksWithMissingPageHash, inputs.library_id.clone(), LOWEST_PRIORITY, None);
        push_task(&mut tasks, t);
    }
    let ghost s4 = task_views(tasks@);
    let t = plain_task(FollowUpTaskKind::FindDuplicatePagesToDelete, inputs.library_id.clone(), LOWEST_PRIORITY, None);
    push_task(&mut tasks, t);
    let ghost s5 = task_views(tasks@);
    if inputs.maintenance.repair_extensions {
        push_repair_tasks(&mut tasks, &inputs.extension_repair_books);
    }
    let ghost s6 = task_views(tasks@);
    if inputs.maintenance.convert_to_cbz {
        let t = plain_task(FollowUpTaskKind::FindBooksToConvert, inputs.library_id.clone(), LOWEST_PRIORITY, None);
        push_task(&mut tasks, t);
    }
    let ghost s7 = task_views(tasks@);
    let series_ids = sorted_unique_strings(&inputs.changed_series_ids);
    push_series_refresh_tasks(&mut tasks, &series_ids);
    let ghost s8 = task_views(tasks@);
    push_book_refresh_tasks(&mut tasks, &inputs.book_metadata_refreshes, &inputs.renumbered_book_ids, &inputs.series_rows);
    let ghost s9 = task_views(tasks@);
    push_sidecar_refresh_tasks(&mut tasks, &inputs.series_rows, &inputs.sidecars, &inputs.changed_sidecar_urls);
    proof {
        let library = inputs.library_id@;
        assert(s0 =~= Seq::<FollowUpTaskView>::empty());
        let p1 = analysis_tasks(inputs.series_rows@, string_set(inputs.analyzable_book_ids@));
        let p2 = if inputs.hashing.hash_files {
            subject_tasks(FollowUpTaskKind::HashBook, views(inputs.books_missing_file_hash@), LOWEST_PRIORITY as int)
        } else {
            Seq::empty()
        };
        let p3 = if inputs.hashing.hash_koreader {
            subject_tasks(FollowUpTaskKind::HashBookKoreader, views(inputs.books_missing_koreader_hash@), LOWEST_PRIORITY as int)
        } else {
            Seq::empty()
        };
        let p4 = if inputs.hashing.hash_pages {
            seq![task(FollowUpTaskKind::FindBooksWithMissingPageHash, library, LOWEST_PRIORITY as int, None)]
        } else {
            Seq::empty()
        };
        let p5 = seq![task(FollowUpTaskKind::FindDuplicatePagesToDelete, library, LOWEST_PRIORITY as int, None)];
        let p6 = if inputs.maintenance.repair_extensions {
            repair_tasks(inputs.extension_repair_books@)
        } else {
            Seq::empty()
        };
        let p7 = if inputs.maintenance.convert_to_cbz {
            seq![task(FollowUpTaskKind::FindBooksToConvert, library, LOWEST_PRIORITY as int, None)]
        } else {
            Seq::empty()
        };
        let p8 = series_refresh_tasks(sorted_listing(string_set(inputs.changed_series_ids@)));
        let p9 = book_refresh_tasks(inputs.book_metadata_refreshes@, inputs.renumbered_book_ids@, inputs.series_rows@);
        assert(s1 =~= p1);
        assert(s2 =~= s1 + p2);
        assert(s3 =~= s2 + p3);
        assert(s4 =~= s3 + p4);
        assert(s5 =~= s4 + p5);
        assert(s6 =~= s5 + p6);
        assert(s7 =~= s6 + p7);
        assert(s8 =~= s7 + p8);
        let p10 = sidecar_refresh_tasks(inputs.series_rows@, inputs.sidecars@, string_set(inputs.changed_sidecar_urls@));
        assert(s9 =~= s8 + p9);
        assert(task_views(tasks@) =~= s9 + p10);
        assert(task_views(tasks@) =~= p1 + p2 + p3 + p4 + p5 + p6 + p7 + p8 + p9 + p10);
    }
    tasks
}


/// Whether no task of `s` is an analysis.
pub open spec fn no_analysis(s: Seq<FollowUpTaskView>) -> bool {
    forall|k: int| 0 <= k < s.len() ==> (#[trigger] s[k]).kind != FollowUpTaskKind::AnalyzeBook
}

proof fn lemma_sidecar_tasks_no_analysis(rows: Seq<ScannedSeriesRow>, sidecars: Seq<ScannedSidecarRow>, changed: Set<Seq<char>>)
    ensures
        no_analysis(sidecar_refresh_tasks(rows, sidecars, changed)),
    decreases sidecars.len(),
{
    if sidecars.len() > 0 {
        lemma_sidecar_tasks_no_analysis(rows, sidecars.drop_last(), changed);
        let rest = sidecar_refresh_tasks(rows, sidecars.drop_last(), changed);
        match sidecar_task(rows, sidecars.last()) {
            Some(t) => {
                assert(t.kind != FollowUpTaskKind::AnalyzeBook);
                assert forall|k: int| 0 <= k < rest.len() + 1 implies (#[trigger] rest.push(t)[k]).kind != FollowUpTaskKind::AnalyzeBook by {
                    if k < rest.len() {
                        assert(rest.push(t)[k] == rest[k]);
                    }
                }
            },
            None => {},
        }
    }
}

proof fn lemma_book_analysis_tasks(series_id: Seq<char>, books: Seq<ScannedBookRow>, analyzable: Set<Seq<char>>)
    ensures
        forall|k: int| 0 <= k < book_analysis_tasks(series_id, books, analyzable).len() ==> exists|b: int|
            0 <= b < books.len() && analyzable.contains(books[b].book_id@)
            && #[trigger] book_analysis_tasks(series_id, books, analyzable)[k]
                == task(FollowUpTaskKind::AnalyzeBook, books[b].book_id@, DEFAULT_PRIORITY as int, Some(series_id)),
        forall|b: int| 0 <= b < books.len() && analyzable.contains(#[trigger] books[b].book_id@)
            ==> book_analysis_tasks(series_id, books, analyzable).contains(
                task(FollowUpTaskKind::AnalyzeBook, books[b].book_id@, DEFAULT_PRIORITY as int, Some(series_id))),
    decreases books.len(),
{
    if books.len() > 0 {
        let init = books.drop_last();
        lemma_book_analysis_tasks(series_id, init, analyzable);
        let rest = book_analysis_tasks(series_id, init, analyzable);
        let all = book_analysis_tasks(series_id, books, analyzable);
        assert forall|k: int| 0 <= k < all.len() implies exists|b: int|
            0 <= b < books.len() && analyzable.contains(books[b].book_id@)
            && #[trigger] all[k] == task(FollowUpTaskKind::AnalyzeBook, books[b].book_id@, DEFAULT_PRIORITY as int, Some(series_id)) by {
            if k < rest.len() {
                assert(all[k] == rest[k]);
                let b = choose|b: int| 0 <= b < init.len() && analyzable.contains(init[b].book_id@)
                    && #[trigger] rest[k] == task(FollowUpTaskKind::AnalyzeBook, init[b].book_id@, DEFAULT_PRIORITY as int, Some(series_id));
                assert(books[b] == init[b]);
            } else {
                assert(books[books.len() - 1] == books.last());
            }
        }
        assert forall|b: int| 0 <= b < books.len() && analyzable.contains(#[trigger] books[b].book_id@)
            implies all.contains(task(FollowUpTaskKind::AnalyzeBook, books[b].book_id@, DEFAULT_PRIORITY as int, Some(series_id))) by {
            let t = task(FollowUpTaskKind::AnalyzeBook, books[b].book_id@, DEFAULT_PRIORITY as int, Some(series_id));
            if b < init.len() {
                assert(init[b] == books[b]);
                assert(analyzable.contains(init[b].book_id@));
                let k = choose|k: int| 0 <= k < rest.len() && rest[k] == t;
                assert(all[k] == rest[k]);
            } else {
                assert(all[rest.len() as int] == t);
            }
        }
    }
}

proof fn lemma_analysis_tasks(rows: Seq<ScannedSeriesRow>, analyzable: Set<Seq<char>>)
    ensures
        forall|k: int| 0 <= k < analysis_tasks(rows, analyzable).len() ==> exists|r: int, b: int|
            0 <= r < rows.len() && 0 <= b < rows[r].books@.len() && analyzable.contains(rows[r].books@[b].book_id@)
            && #[trigger] analysis_tasks(rows, analyzable)[k]
                == task(FollowUpTaskKind::AnalyzeBook, rows[r].books@[b].book_id@, DEFAULT_PRIORITY as int, Some(rows[r].series_id@)),
        forall|r: int, b: int| 0 <= r < rows.len() && 0 <= b < rows[r].books@.len() && analyzable.contains(#[trigger] rows[r].books@[b].book_id@)
            ==> analysis_tasks(rows, analyzable).contains(
                task(FollowUpTaskKind::AnalyzeBook, rows[r].books@[b].book_id@, DEFAULT_PRIORITY as int, Some(rows[r].series_id@))),
    decreases rows.len(),
{
    if rows.len() > 0 {
        let init = rows.drop_last();
        let last = rows.last();
        lemma_analysis_tasks(init, analyzable);
        lemma_book_analysis_tasks(last.series_id@, last.books@, analyzable);
        let a = analysis_tasks(init, analyzable);
        let bt = book_analysis_tasks(last.series_id@, last.books@, analyzable);
        let all = analysis_tasks(rows, analyzable);
        assert(all == a + bt);
        assert forall|k: int| 0 <= k < all.len() implies exists|r: int, b: int|
            0 <= r < rows.len() && 0 <= b < rows[r].books@.len() && analyzable.contains(rows[r].books@[b].book_id@)
            && #[trigger] all[k] == task(FollowUpTaskKind::AnalyzeBook, rows[r].books@[b].book_id@, DEFAULT_PRIORITY as int, Some(rows[r].series_id@)) by {
            if k < a.len() {
                assert(all[k] == a[k]);
                let (r, b) = choose|r: int, b: int| 0 <= r < init.len() && 0 <= b < init[r].books@.len() && analyzable.contains(init[r].books@[b].book_id@)
                    && #[trigger] a[k] == task(FollowUpTaskKind::AnalyzeBook, init[r].books@[b].book_id@, DEFAULT_PRIORITY as int, Some(init[r].series_id@));
                assert(rows[r] == init[r]);
            } else {
                assert(all[k] == bt[k - a.len()]);
                let b = choose|b: int| 0 <= b < last.books@.len() && analyzable.contains(last.books@[b].book_id@)
                    && #[trigger] bt[k - a.len()] == task(FollowUpTaskKind::AnalyzeBook, last.books@[b].book_id@, DEFAULT_PRIORITY as int, Some(last.series_id@));
                assert(rows[rows.len() - 1] == last);
            }
        }
        assert forall|r: int, b: int| 0 <= r < rows.len() && 0 <= b < rows[r].books@.len() && analyzable.contains(#[trigger] rows[r].books@[b].book_id@)
            implies all.contains(task(FollowUpTaskKind::AnalyzeBook, rows[r].books@[b].book_id@, DEFAULT_PRIORITY as int, Some(rows[r].series_id@))) by {
            let t = task(FollowUpTaskKind::AnalyzeBook, rows[r].books@[b].book_id@, DEFAULT_PRIORITY as int, Some(rows[r].series_id@));
            if r < init.len() {
                assert(init[r] == rows[r]);
                assert(analyzable.contains(init[r].books@[b].book_id@));
                let k = choose|k: int| 0 <= k < a.len() && a[k] == t;
                assert(all[k] == a[k]);
            } else {
                assert(rows[r] == last);
                assert(analyzable.contains(last.books@[b].book_id@));
                let k = choose|k: int| 0 <= k < bt.len() && bt[k] == t;
                assert(all[a.len() + k] == bt[k]);
            }
        }
    }
}

/// Each scanned book's id with the id of the series that holds it, series by series and in
/// book order.
pub open spec fn scanned_book_slots(rows: Seq<ScannedSeriesRow>) -> Seq<(Seq<char>, Seq<char>)>
    decreases rows.len(),
{
    if rows.len() == 0 {
        Seq::empty()
    } else {
        scanned_book_slots(rows.drop_last()) + book_slots_of(rows.last().series_id@, rows.last().books@)
    }
}

pub open spec fn book_slots_of(series_id: Seq<char>, books: Seq<ScannedBookRow>) -> Seq<(Seq<char>, Seq<char>)> {
    books.map_values(|b: ScannedBookRow| (b.book_id@, series_id))
}

/// The analysis of a scanned book (id, series) when it is analyzable, grouped by the series.
pub open spec fn analysis_of(analyzable: Set<Seq<char>>) -> spec_fn((Seq<char>, Seq<char>)) -> Option<FollowUpTaskView> {
    |slot: (Seq<char>, Seq<char>)| if analyzable.contains(slot.0) {
        Some(task(FollowUpTaskKind::AnalyzeBook, slot.0, DEFAULT_PRIORITY as int, Some(slot.1)))
    } else {
        None
    }
}

proof fn lemma_filter_map_concat<A, B>(a: Seq<A>, b: Seq<A>, f: spec_fn(A) -> Option<B>)
    ensures
        (a + b).filter_map(f) == a.filter_map(f) + b.filter_map(f),
    decreases b.len(),
{
    if b.len() == 0 {
        assert(a + b =~= a);
        assert(a.filter_map(f) + b.filter_map(f) =~= a.filter_map(f));
    } else {
        lemma_filter_map_concat(a, b.drop_last(), f);
        assert((a + b).drop_last() =~= a + b.drop_last());
        assert((a + b).last() == b.last());
        match f(b.last()) {
            Some(x) => {
                assert(a.filter_map(f) + b.filter_map(f) =~= a.filter_map(f) + b.drop_last().filter_map(f) + seq![x]);
            },
            None => {},
        }
    }
}

proof fn lemma_book_analysis_filter_map(series_id: Seq<char>, books: Seq<ScannedBookRow>, analyzable: Set<Seq<char>>)
    ensures
        book_analysis_tasks(series_id, books, analyzable) == book_slots_of(series_id, books).filter_map(analysis_of(analyzable)),
    decreases books.len(),
{
    if books.len() > 0 {
        lemma_book_analysis_filter_map(series_id, books.drop_last(), analyzable);
        let slots = book_slots_of(series_id, books);
        assert(slots.drop_last() =~= book_slots_of(series_id, books.drop_last()));
        assert(slots.last() == (books.last().book_id@, series_id));
        let rest = book_analysis_tasks(series_id, books.drop_last(), analyzable);
        if analyzable.contains(books.last().book_id@) {
            assert(rest.push(task(FollowUpTaskKind::AnalyzeBook, books.last().book_id@, DEFAULT_PRIORITY as int, Some(series_id)))
                =~= rest + seq![task(FollowUpTaskKind::AnalyzeBook, books.last().book_id@, DEFAULT_PRIORITY as int, Some(series_id))]);
        }
    }
}

proof fn lemma_analysis_filter_map(rows: Seq<ScannedSeriesRow>, analyzable: Set<Seq<char>>)
    ensures
        analysis_tasks(rows, analyzable) == scanned_book_slots(rows).filter_map(analysis_of(analyzable)),
    decreases rows.len(),
{
    if rows.len() > 0 {
        lemma_analysis_filter_map(rows.drop_last(), analyzable);
        lemma_book_analysis_filter_map(rows.last().series_id@, rows.last().books@, analyzable);
        lemma_filter_map_concat(scanned_book_slots(rows.drop_last()), book_slots_of(rows.last().series_id@, rows.last().books@), analysis_of(analyzable));
    }
}

/// The analyses that follow a scan are exactly those of the scanned books that need one:
/// every analysis task of the plan names an analyzable book that the scan found and is
/// grouped by a series that holds it, and every such book is analyzed, grouped by its series.
/// The analyses open the plan, one per analyzable book, series by series in book order.
pub proof fn law_analysis_covers_the_analyzable_books(inputs: FollowUpInputs)
    ensures
        forall|k: int| 0 <= k < follow_up_plan(inputs).len()
            && (#[trigger] follow_up_plan(inputs)[k]).kind == FollowUpTaskKind::AnalyzeBook
            ==> exists|r: int, b: int| 0 <= r < inputs.series_rows@.len() && 0 <= b < inputs.series_rows@[r].books@.len()
                && string_set(inputs.analyzable_book_ids@).contains(inputs.series_rows@[r].books@[b].book_id@)
                && follow_up_plan(inputs)[k] == task(FollowUpTaskKind::AnalyzeBook, inputs.series_rows@[r].books@[b].book_id@,
                    DEFAULT_PRIORITY as int, Some(inputs.series_rows@[r].series_id@)),
        forall|r: int, b: int| 0 <= r < inputs.series_rows@.len() && 0 <= b < inputs.series_rows@[r].books@.len()
            && string_set(inputs.analyzable_book_ids@).contains(#[trigger] inputs.series_rows@[r].books@[b].book_id@)
            ==> follow_up_plan(inputs).contains(task(FollowUpTaskKind::AnalyzeBook, inputs.series_rows@[r].books@[b].book_id@,
                DEFAULT_PRIORITY as int, Some(inputs.series_rows@[r].series_id@))),
        ({
            let expected = scanned_book_slots(inputs.series_rows@).filter_map(analysis_of(string_set(inputs.analyzable_book_ids@)));
            &&& expected.len() <= follow_up_plan(inputs).len()
            &&& follow_up_plan(inputs).take(expected.len() as int) == expected
            &&& forall|k: int| expected.len() <= k < follow_up_plan(inputs).len()
                ==> (#[trigger] follow_up_plan(inputs)[k]).kind != FollowUpTaskKind::AnalyzeBook
        }),
{
    let rows = inputs.series_rows@;
    let an = string_set(inputs.analyzable_book_ids@);
    let a = analysis_tasks(rows, an);
    lemma_analysis_tasks(rows, an);
    lemma_analysis_filter_map(rows, an);
    lemma_sidecar_tasks_no_analysis(rows, inputs.sidecars@, string_set(inputs.changed_sidecar_urls@));
    let plan = follow_up_plan(inputs);
    let tail = plan.skip(a.len() as int);
    assert(plan.take(a.len() as int) =~= a);
    assert(no_analysis(tail));
    assert forall|k: int| a.len() <= k < plan.len() implies (#[trigger] plan[k]).kind != FollowUpTaskKind::AnalyzeBook by {
        assert(plan[k] == tail[k - a.len()]);
    }
    assert forall|k: int| 0 <= k < plan.len() && (#[trigger] plan[k]).kind == FollowUpTaskKind::AnalyzeBook
        implies k < a.len() && plan[k] == a[k] by {
        if k >= a.len() {
            assert(plan[k] == tail[k - a.len()]);
        } else {
            assert(plan.take(a.len() as int)[k] == plan[k]);
        }
    }
    assert forall|r: int, b: int| 0 <= r < rows.len() && 0 <= b < rows[r].books@.len()
        && an.contains(#[trigger] rows[r].books@[b].book_id@)
        implies plan.contains(task(FollowUpTaskKind::AnalyzeBook, rows[r].books@[b].book_id@, DEFAULT_PRIORITY as int, Some(rows[r].series_id@))) by {
        let t = task(FollowUpTaskKind::AnalyzeBook, rows[r].books@[b].book_id@, DEFAULT_PRIORITY as int, Some(rows[r].series_id@));
        let k = choose|k: int| 0 <= k < a.len() && a[k] == t;
        assert(plan.take(a.len() as int)[k] == plan[k]);
    }
}

} // verus!

//! Bringing back books and series that a scan finds again after they were deleted: which
//! deleted row a new one matches, what metadata the restored row keeps, and how the
//! series' reading progress is brought up to date.
use vstd::prelude::*;
use vstd::seq_lib::group_to_multiset_ensures;
use vstd::multiset::Multiset;
use crate::follow_up::BookMetadataRefreshRequest;
use crate::metadata_support::opt_view;
use crate::ordering::views;

verus! {

broadcast use group_to_multiset_ensures;

/// A deleted book that a new book of the same size may be.
#[derive(Clone, Debug)]
pub struct DeletedBookCandidate {
    pub id: String,
    pub file_hash: String,
}

/// The first candidate, in the order given, whose file hash is `hash`.
pub open spec fn first_hash_match(candidates: Seq<DeletedBookCandidate>, hash: Seq<char>) -> Option<int> {
    if exists|i: int| 0 <= i < candidates.len() && #[trigger] candidates[i].file_hash@ == hash {
        Some(choose|i: int| 0 <= i < candidates.len() && #[trigger] candidates[i].file_hash@ == hash
            && forall|j: int| 0 <= j < i ==> #[trigger] candidates[j].file_hash@ != hash)
    } else {
        None
    }
}

/// The deleted book that a new book with file hash `inserted_hash` restores: the first
/// candidate (they come ordered by id) with that hash.
pub fn find_restore_match(candidates: &Vec<DeletedBookCandidate>, inserted_hash: &String) -> (r: Option<String>)
    ensures
        match r {
            Some(id) => exists|i: int| first_hash_match(candidates@, inserted_hash@) == Some(i) && #[trigger] candidates@[i].id@ == id@,
            None => first_hash_match(candidates@, inserted_hash@) is None,
        },
{
    let mut i: usize = 0;
    while i < candidates.len()
        invariant
            i <= candidates@.len(),
            forall|j: int| 0 <= j < i ==> #[trigger] candidates@[j].file_hash@ != inserted_hash@,
        decreases candidates@.len() - i,
    {
        if candidates[i].file_hash == *inserted_hash {
            proof {
                let w = choose|w: int| 0 <= w < candidates@.len() && #[trigger] candidates@[w].file_hash@ == inserted_hash@
                    && forall|j: int| 0 <= j < w ==> #[trigger] candidates@[j].file_hash@ != inserted_hash@;
                if w < i {
                } else if w > i {
                    assert(candidates@[i as int].file_hash@ == inserted_hash@);
                }
                assert(w == i);
            }
            let id = candidates[i].id.clone();
            proof {
                assert(candidates@[i as int].id@ == id@);
            }
            return Some(id);
        }
        i += 1;
    }
    None
}

/// The metadata of a deleted book that its restored copy takes over (the sort number is
/// carried over as it is, where it is stored).
#[derive(Clone, Debug)]
pub struct DeletedBookMetadata {
    pub title: String,
    pub title_lock: bool,
    pub summary: String,
    pub summary_lock: bool,
    pub number: String,
    pub number_lock: bool,
    pub number_sort_lock: bool,
    pub release_date: Option<String>,
    pub release_date_lock: bool,
    pub authors_lock: bool,
    pub tags_lock: bool,
    pub isbn: String,
    pub isbn_lock: bool,
    pub links_lock: bool,
}

/// The restored book's metadata and, when its title was not locked, the request to refresh
/// that title from the new file.
pub open spec fn restored_book_matches(
    deleted: DeletedBookMetadata,
    inserted_title: Seq<char>,
    book_id: Seq<char>,
    series_id: Seq<char>,
    restored: DeletedBookMetadata,
    refresh: Option<BookMetadataRefreshRequest>,
) -> bool {
    &&& restored.title@ == (if deleted.title_lock { deleted.title@ } else { inserted_title })
    &&& restored.title_lock == deleted.title_lock
    &&& restored.summary == deleted.summary
    &&& restored.summary_lock == deleted.summary_lock
    &&& restored.number == deleted.number
    &&& restored.number_lock == deleted.number_lock
    &&& restored.number_sort_lock == deleted.number_sort_lock
    &&& restored.release_date == deleted.release_date
    &&& restored.release_date_lock == deleted.release_date_lock
    &&& restored.authors_lock == deleted.authors_lock
    &&& restored.tags_lock == deleted.tags_lock
    &&& restored.isbn == deleted.isbn
    &&& restored.isbn_lock == deleted.isbn_lock
    &&& restored.links_lock == deleted.links_lock
    &&& match refresh {
        Some(r) => !deleted.title_lock && r.book_id@ == book_id && r.series_id@ == series_id
            && views(r.capabilities@) == seq!["TITLE"@],
        None => deleted.title_lock,
    }
}

fn clone_opt(o: &Option<String>) -> (r: Option<String>)
    ensures
        r == *o,
{
    match o {
        Some(s) => Some(s.clone()),
        None => None,
    }
}

/// The metadata a restored book keeps: everything of the deleted book, except the title,
/// which comes from the new book unless it was locked (see [`restored_book_matches`]).
pub fn restore_book_metadata(deleted: &DeletedBookMetadata, inserted_title: &String, book_id: &String, series_id: &String) -> (r: (DeletedBookMetadata, Option<BookMetadataRefreshRequest>))
    ensures
        restored_book_matches(*deleted, inserted_title@, book_id@, series_id@, r.0, r.1),
{
    let restored = DeletedBookMetadata {
        title: if deleted.title_lock { deleted.title.clone() } else { inserted_title.clone() },
        title_lock: deleted.title_lock,
        summary: deleted.summary.clone(),
        summary_lock: deleted.summary_lock,
        number: deleted.number.clone(),
        number_lock: deleted.number_lock,
        number_sort_lock: deleted.number_sort_lock,
        release_date: clone_opt(&deleted.release_date),
        release_date_lock: deleted.release_date_lock,
        authors_lock: deleted.authors_lock,
        tags_lock: deleted.tags_lock,
        isbn: deleted.isbn.clone(),
        isbn_lock: deleted.isbn_lock,
        links_lock: deleted.links_lock,
    };
    let refresh = if deleted.title_lock {
        None
    } else {
        let mut capabilities: Vec<String> = Vec::new();
        capabilities.push(String::from_str("TITLE"));
        proof {
            assert(views(capabilities@) =~= seq!["TITLE"@]);
        }
        Some(BookMetadataRefreshRequest { book_id: book_id.clone(), series_id: series_id.clone(), capabilities })
    };
    (restored, refresh)
}

/// What happens to a user's reading progress of a series after a book was restored into it.
#[derive(Clone, Debug)]
pub enum SeriesProgressUpdate {
    /// The user has no progress left in the series.
    Delete,
    /// The user's progress row is written with these counts.
    Upsert { read_count: i64, in_progress_count: i64, most_recent_read_date: Option<String> },
}

/// The series progress of one user, from the counts over the series' live books: no row
/// when the user has progress on none of them, else the counts and the latest read date.
pub fn series_progress_update(progress_count: i64, read_count: i64, in_progress_count: i64, most_recent_read_date: Option<String>) -> (r: SeriesProgressUpdate)
    ensures
        progress_count == 0 <==> r is Delete,
        r matches SeriesProgressUpdate::Upsert { read_count: rc, in_progress_count: ic, most_recent_read_date: d }
            ==> rc == read_count && ic == in_progress_count && d == most_recent_read_date,
{
    if progress_count == 0 {
        SeriesProgressUpdate::Delete
    } else {
        SeriesProgressUpdate::Upsert { read_count, in_progress_count, most_recent_read_date }
    }
}

/// Whether two lists hold the same values as often, in any order.
pub fn same_multiset_i64(a: &Vec<i64>, b: &Vec<i64>) -> (r: bool)
    ensures
        r == (a@.to_multiset() == b@.to_multiset()),
{
    let mut rest: Vec<i64> = b.clone();
    let mut i: usize = 0;
    proof {
        assert(a@.take(0) =~= Seq::<i64>::empty());
        assert(a@.take(0).to_multiset() =~= Multiset::<i64>::empty());
        assert(a@.take(0).to_multiset().add(rest@.to_multiset()) =~= b@.to_multiset());
    }
    while i < a.len()
        invariant
            i <= a@.len(),
            a@.take(i as int).to_multiset().add(rest@.to_multiset()) == b@.to_multiset(),
        decreases a@.len() - i,
    {
        let x = a[i];
        let mut j: usize = 0;
        while j < rest.len() && rest[j] != x
            invariant
                j <= rest@.len(),
                forall|k: int| 0 <= k < j ==> rest@[k] != x,
            decreases rest@.len() - j,
        {
            j += 1;
        }
        proof {
            assert(a@.take(i + 1) =~= a@.take(i as int).push(x));
        }
        if j == rest.len() {
            proof {
                assert(!rest@.contains(x));
                assert(rest@.to_multiset().count(x) == 0);
                assert(b@.to_multiset().count(x) == a@.take(i as int).to_multiset().count(x));
                assert(a@.take(i + 1).to_multiset().count(x) == a@.take(i as int).to_multiset().count(x) + 1);
                assert(a@ =~= a@.take(i + 1) + a@.skip(i + 1));
                vstd::seq_lib::lemma_multiset_commutative(a@.take(i + 1), a@.skip(i + 1));
                assert(a@.to_multiset().count(x) >= a@.take(i + 1).to_multiset().count(x));
            }
            return false;
        }
        let ghost before = rest@;
        rest.remove(j);
        proof {
            assert(before.remove(j as int).to_multiset() == before.to_multiset().remove(x));
            assert(a@.take(i + 1).to_multiset().add(rest@.to_multiset()) =~= b@.to_multiset());
        }
        i += 1;
    }
    proof {
        assert(a@.take(a@.len() as int) =~= a@);
        if rest@.len() > 0 {
            assert(b@.to_multiset().len() == a@.to_multiset().len() + rest@.to_multiset().len());
        } else {
            assert(rest@.to_multiset() =~= Multiset::<i64>::empty());
            assert(a@.to_multiset().add(rest@.to_multiset()) =~= a@.to_multiset());
        }
    }
    rest.len() == 0
}

/// Whether two lists of strings hold the same strings as often, in any order.
pub fn same_multiset_strings(a: &Vec<String>, b: &Vec<String>) -> (r: bool)
    ensures
        r == (views(a@).to_multiset() == views(b@).to_multiset()),
{
    let mut rest: Vec<String> = Vec::new();
    let mut k: usize = 0;
    while k < b.len()
        invariant
            k <= b@.len(),
            views(rest@) == views(b@).take(k as int),
        decreases b@.len() - k,
    {
        let ghost before = views(rest@);
        let item = b[k].clone();
        rest.push(item);
        proof {
            assert(views(rest@) =~= before.push(b@[k as int]@));
        }
        k += 1;
        proof {
            assert(views(rest@) =~= views(b@).take(k as int));
        }
    }
    proof {
        assert(views(b@).take(b@.len() as int) =~= views(b@));
    }
    let ghost va = views(a@);
    let ghost vb = views(b@);
    let mut i: usize = 0;
    proof {
        assert(va.take(0) =~= Seq::<Seq<char>>::empty());
        assert(va.take(0).to_multiset() =~= Multiset::<Seq<char>>::empty());
        assert(va.take(0).to_multiset().add(views(rest@).to_multiset()) =~= vb.to_multiset());
    }
    while i < a.len()
        invariant
            i <= a@.len(),
            va == views(a@),
            vb == views(b@),
            va.take(i as int).to_multiset().add(views(rest@).to_multiset()) == vb.to_multiset(),
        decreases a@.len() - i,
    {
        let x = &a[i];
        let ghost xv = x@;
        let mut j: usize = 0;
        while j < rest.len() && !(rest[j] == *x)
            invariant
                j <= rest@.len(),
                xv == x@,
                forall|k: int| 0 <= k < j ==> #[trigger] rest@[k]@ != xv,
            decreases rest@.len() - j,
        {
            j += 1;
        }
        proof {
            assert(va[i as int] == xv);
            assert(va.take(i + 1) =~= va.take(i as int).push(xv));
        }
        if j == rest.len() {
            proof {
                if views(rest@).contains(xv) {
                    let k = choose|k: int| 0 <= k < views(rest@).len() && views(rest@)[k] == xv;
                    assert(rest@[k]@ == xv);
                }
                assert(views(rest@).to_multiset().count(xv) == 0);
                assert(vb.to_multiset().count(xv) == va.take(i as int).to_multiset().count(xv));
                assert(va =~= va.take(i + 1) + va.skip(i + 1));
                vstd::seq_lib::lemma_multiset_commutative(va.take(i + 1), va.skip(i + 1));
                assert(va.to_multiset().count(xv) >= va.take(i + 1).to_multiset().count(xv));
            }
            return false;
        }
        let ghost before = views(rest@);
        rest.remove(j);
        proof {
            assert(views(rest@) =~= before.remove(j as int));
            assert(before[j as int] == xv);
            assert(before.remove(j as int).to_multiset() == before.to_multiset().remove(xv));
            assert(va.take(i + 1).to_multiset().add(views(rest@).to_multiset()) =~= vb.to_multiset());
        }
        i += 1;
    }
    proof {
        assert(va.take(va.len() as int) =~= va);
        if rest@.len() > 0 {
            assert(vb.to_multiset().len() == va.to_multiset().len() + views(rest@).to_multiset().len());
        } else {
            assert(views(rest@).to_multiset() =~= Multiset::<Seq<char>>::empty());
            assert(va.to_multiset().add(views(rest@).to_multiset()) =~= va.to_multiset());
        }
    }
    rest.len() == 0
}

/// A book by size and file hash.
#[derive(Clone, Debug)]
pub struct SizedHashedBook {
    pub file_size: i64,
    pub file_hash: String,
}

pub open spec fn sizes_of(books: Seq<SizedHashedBook>) -> Seq<i64> {
    books.map_values(|b: SizedHashedBook| b.file_size)
}

pub open spec fn hashes_of(books: Seq<SizedHashedBook>) -> Seq<Seq<char>> {
    books.map_values(|b: SizedHashedBook| b.file_hash@)
}

/// A deleted series is the one a new series restores when both hold as many books, with
/// the same file sizes and the same file hashes, in any order.
pub open spec fn series_books_match(deleted: Seq<SizedHashedBook>, inserted: Seq<SizedHashedBook>) -> bool {
    &&& deleted.len() == inserted.len()
    &&& sizes_of(deleted).to_multiset() == sizes_of(inserted).to_multiset()
    &&& hashes_of(deleted).to_multiset() == hashes_of(inserted).to_multiset()
}

pub fn deleted_series_matches(deleted: &Vec<SizedHashedBook>, inserted: &Vec<SizedHashedBook>) -> (r: bool)
    ensures
        r == series_books_match(deleted@, inserted@),
{
    if deleted.len() != inserted.len() {
        return false;
    }
    let mut ds: Vec<i64> = Vec::new();
    let mut is: Vec<i64> = Vec::new();
    let mut dh: Vec<String> = Vec::new();
    let mut ih: Vec<String> = Vec::new();
    let mut k: usize = 0;
    while k < deleted.len()
        invariant
            k <= deleted@.len(),
            deleted@.len() == inserted@.len(),
            ds@ == sizes_of(deleted@).take(k as int),
            is@ == sizes_of(inserted@).take(k as int),
            views(dh@) == hashes_of(deleted@).take(k as int),
            views(ih@) == hashes_of(inserted@).take(k as int),
        decreases deleted@.len() - k,
    {
        ds.push(deleted[k].file_size);
        is.push(inserted[k].file_size);
        let ghost dh0 = views(dh@);
        let ghost ih0 = views(ih@);
        let dk = deleted[k].file_hash.clone();
        let ik = inserted[k].file_hash.clone();
        dh.push(dk);
        ih.push(ik);
        proof {
            assert(views(dh@) =~= dh0.push(deleted@[k as int].file_hash@));
            assert(views(ih@) =~= ih0.push(inserted@[k as int].file_hash@));
        }
        k += 1;
        proof {
            assert(ds@ =~= sizes_of(deleted@).take(k as int));
            assert(is@ =~= sizes_of(inserted@).take(k as int));
            assert(views(dh@) =~= hashes_of(deleted@).take(k as int));
            assert(views(ih@) =~= hashes_of(inserted@).take(k as int));
        }
    }
    proof {
        assert(sizes_of(deleted@).take(k as int) =~= sizes_of(deleted@));
        assert(sizes_of(inserted@).take(k as int) =~= sizes_of(inserted@));
        assert(hashes_of(deleted@).take(k as int) =~= hashes_of(deleted@));
        assert(hashes_of(inserted@).take(k as int) =~= hashes_of(inserted@));
    }
    same_multiset_i64(&ds, &is) && same_multiset_strings(&dh, &ih)
}

/// The series metadata of a deleted series that its restored copy takes over.
#[derive(Clone, Debug)]
pub struct DeletedSeriesMetadata {
    pub status: String,
    pub status_lock: bool,
    pub title: String,
    pub title_lock: bool,
    pub title_sort: String,
    pub title_sort_lock: bool,
    pub summary: String,
    pub summary_lock: bool,
    pub reading_direction: Option<String>,
    pub reading_direction_lock: bool,
    pub publisher: String,
    pub publisher_lock: bool,
    pub age_rating: Option<i64>,
    pub age_rating_lock: bool,
    pub language: String,
    pub language_lock: bool,
    pub genres_lock: bool,
    pub tags_lock: bool,
    pub total_book_count: Option<i64>,
    pub total_book_count_lock: bool,
    pub sharing_labels_lock: bool,
    pub links_lock: bool,
    pub alternate_titles_lock: bool,
}

/// The deleted series that a new series with books `inserted` restores: the first of the
/// candidates (each a deleted series' books, in the order the candidates are given) whose
/// books match ([`series_books_match`]); none for a series without books.
pub fn first_matching_deleted_series(candidates: &Vec<Vec<SizedHashedBook>>, inserted: &Vec<SizedHashedBook>) -> (r: Option<usize>)
    ensures
        match r {
            Some(i) => inserted@.len() > 0 && i < candidates@.len()
                && series_books_match(candidates@[i as int]@, inserted@)
                && forall|j: int| 0 <= j < i ==> !series_books_match(#[trigger] candidates@[j]@, inserted@),
            None => inserted@.len() == 0
                || forall|j: int| 0 <= j < candidates@.len() ==> !series_books_match(#[trigger] candidates@[j]@, inserted@),
        },
{
    if inserted.len() == 0 {
        return None;
    }
    let mut i: usize = 0;
    while i < candidates.len()
        invariant
            i <= candidates@.len(),
            inserted@.len() > 0,
            forall|j: int| 0 <= j < i ==> !series_books_match(#[trigger] candidates@[j]@, inserted@),
        decreases candidates@.len() - i,
    {
        if deleted_series_matches(&candidates[i], inserted) {
            return Some(i);
        }
        i = i + 1;
    }
    None
}

/// The restored series keeps everything of the deleted one, except the title and sort
/// title, which come from the new series unless they were locked.
pub open spec fn restored_series_matches(deleted: DeletedSeriesMetadata, inserted_title: Seq<char>, inserted_title_sort: Seq<char>, r: DeletedSeriesMetadata) -> bool {
    &&& r.title@ == (if deleted.title_lock { deleted.title@ } else { inserted_title })
    &&& r.title_sort@ == (if deleted.title_sort_lock { deleted.title_sort@ } else { inserted_title_sort })
    &&& r == DeletedSeriesMetadata { title: r.title, title_sort: r.title_sort, ..deleted }
}

pub fn restore_series_metadata(deleted: &DeletedSeriesMetadata, inserted_title: &String, inserted_title_sort: &String) -> (r: DeletedSeriesMetadata)
    ensures
        restored_series_matches(*deleted, inserted_title@, inserted_title_sort@, r),
{
    DeletedSeriesMetadata {
        status: deleted.status.clone(),
        status_lock: deleted.status_lock,
        title: if deleted.title_lock { deleted.title.clone() } else { inserted_title.clone() },
        title_lock: deleted.title_lock,
        title_sort: if deleted.title_sort_lock { deleted.title_sort.clone() } else { inserted_title_sort.clone() },
        title_sort_lock: deleted.title_sort_lock,
        summary: deleted.summary.clone(),
        summary_lock: deleted.summary_lock,
        reading_direction: clone_opt(&deleted.reading_direction),
        reading_direction_lock: deleted.reading_direction_lock,
        publisher: deleted.publisher.clone(),
        publisher_lock: deleted.publisher_lock,
        age_rating: deleted.age_rating,
        age_rating_lock: deleted.age_rating_lock,
        language: deleted.language.clone(),
        language_lock: deleted.language_lock,
        genres_lock: deleted.genres_lock,
        tags_lock: deleted.tags_lock,
        total_book_count: deleted.total_book_count,
        total_book_count_lock: deleted.total_book_count_lock,
        sharing_labels_lock: deleted.sharing_labels_lock,
        links_lock: deleted.links_lock,
        alternate_titles_lock: deleted.alternate_titles_lock,
    }
}

} // verus!

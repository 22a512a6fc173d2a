//! The decisions that persisting a scan makes: the library's availability, which stored
//! rows the scan no longer found, which books are written again, and how books are
//! renumbered within a series.
use vstd::prelude::*;
use crate::ordering::views;
use crate::string_set::{contains_string, string_set};
use crate::text::{decimal_digits, push_decimal, string_from_chars};

verus! {

/// What persisting a scan does with the library's availability marker.
#[derive(Clone, Copy, Debug, PartialEq, Eq)]
pub enum AvailabilityAction {
    /// The root is gone: mark the library unavailable and stop.
    MarkUnavailable,
    /// The root is back: clear the marker and go on.
    ClearMarker,
    /// Nothing changes: go on.
    Keep,
}

/// The availability step: the action, and whether the library itself changed (it became
/// unavailable, or available again).
pub fn library_availability(root_available: bool, was_unavailable: bool) -> (r: (AvailabilityAction, bool))
    ensures
        !root_available ==> r == (AvailabilityAction::MarkUnavailable, !was_unavailable),
        root_available && was_unavailable ==> r == (AvailabilityAction::ClearMarker, true),
        root_available && !was_unavailable ==> r == (AvailabilityAction::Keep, false),
{
    if !root_available {
        (AvailabilityAction::MarkUnavailable, !was_unavailable)
    } else if was_unavailable {
        (AvailabilityAction::ClearMarker, true)
    } else {
        (AvailabilityAction::Keep, false)
    }
}

/// A live book row of the library.
#[derive(Clone, Debug)]
pub struct StoredBookRow {
    pub book_id: String,
    pub series_id: String,
}

/// The stored series that the scan did not find, in their stored order.
pub open spec fn missing_series(existing: Seq<String>, discovered: Set<Seq<char>>) -> Seq<Seq<char>>
    decreases existing.len(),
{
    if existing.len() == 0 {
        Seq::empty()
    } else {
        let rest = missing_series(existing.drop_last(), discovered);
        if discovered.contains(existing.last()@) {
            rest
        } else {
            rest.push(existing.last()@)
        }
    }
}

/// The stored books that the scan did not find, whose series is (`in_missing`) or is not
/// among the missing series, in their stored order.
pub open spec fn missing_books(books: Seq<StoredBookRow>, discovered: Set<Seq<char>>, missing: Set<Seq<char>>, in_missing: bool) -> Seq<(Seq<char>, Seq<char>)>
    decreases books.len(),
{
    if books.len() == 0 {
        Seq::empty()
    } else {
        let rest = missing_books(books.drop_last(), discovered, missing, in_missing);
        let b = books.last();
        if !discovered.contains(b.book_id@) && missing.contains(b.series_id@) == in_missing {
            rest.push((b.book_id@, b.series_id@))
        } else {
            rest
        }
    }
}

/// What the scan no longer finds, in the order it is soft-deleted: first the lost books of
/// lost series, then the lost series, then the lost books of series that remain; and the
/// books that were live before.
#[derive(Clone, Debug)]
pub struct MissingRowsPlan {
    pub books_in_missing_series: Vec<StoredBookRow>,
    pub missing_series_ids: Vec<String>,
    pub other_missing_books: Vec<StoredBookRow>,
    pub active_book_ids: Vec<String>,
}

pub open spec fn row_views(v: Seq<StoredBookRow>) -> Seq<(Seq<char>, Seq<char>)> {
    v.map_values(|b: StoredBookRow| (b.book_id@, b.series_id@))
}

fn filter_missing_books(books: &Vec<StoredBookRow>, discovered_books: &Vec<String>, missing: &Vec<String>, in_missing: bool) -> (r: Vec<StoredBookRow>)
    ensures
        row_views(r@) == missing_books(books@, string_set(discovered_books@), string_set(missing@), in_missing),
{
    let ghost d = string_set(discovered_books@);
    let ghost m = string_set(missing@);
    let mut out: Vec<StoredBookRow> = Vec::new();
    let mut i: usize = 0;
    proof {
        assert(row_views(out@) =~= missing_books(books@.take(0), d, m, in_missing));
    }
    while i < books.len()
        invariant
            i <= books@.len(),
            d == string_set(discovered_books@),
            m == string_set(missing@),
            row_views(out@) == missing_books(books@.take(i as int), d, m, in_missing),
        decreases books@.len() - i,
    {
        proof {
            assert(books@.take(i + 1).drop_last() =~= books@.take(i as int));
            assert(books@.take(i + 1).last() == books@[i as int]);
        }
        let b = &books[i];
        if !contains_string(discovered_books, b.book_id.as_str()) && contains_string(missing, b.series_id.as_str()) == in_missing {
            let ghost before = row_views(out@);
            out.push(StoredBookRow { book_id: b.book_id.clone(), series_id: b.series_id.clone() });
            proof {
                assert(row_views(out@) =~= before.push((b.book_id@, b.series_id@)));
            }
        }
        i += 1;
    }
    proof {
        assert(books@.take(books@.len() as int) =~= books@);
    }
    out
}

/// Plans the soft deletion of what a scan no longer finds (see [`MissingRowsPlan`]).
pub fn plan_missing_scan_rows(
    existing_series_ids: &Vec<String>,
    existing_books: &Vec<StoredBookRow>,
    discovered_series_ids: &Vec<String>,
    discovered_book_ids: &Vec<String>,
) -> (plan: MissingRowsPlan)
    ensures
        views(plan.missing_series_ids@) == missing_series(existing_series_ids@, string_set(discovered_series_ids@)),
        row_views(plan.books_in_missing_series@) == missing_books(existing_books@, string_set(discovered_book_ids@),
            string_set(plan.missing_series_ids@), true),
        row_views(plan.other_missing_books@) == missing_books(existing_books@, string_set(discovered_book_ids@),
            string_set(plan.missing_series_ids@), false),
        views(plan.active_book_ids@) == row_views(existing_books@).map_values(|p: (Seq<char>, Seq<char>)| p.0),
{
    let ghost ds = string_set(discovered_series_ids@);
    let mut missing: Vec<String> = Vec::new();
    let mut i: usize = 0;
    proof {
        assert(views(missing@) =~= missing_series(existing_series_ids@.take(0), ds));
    }
    while i < existing_series_ids.len()
        invariant
            i <= existing_series_ids@.len(),
            ds == string_set(discovered_series_ids@),
            views(missing@) == missing_series(existing_series_ids@.take(i as int), ds),
        decreases existing_series_ids@.len() - i,
    {
        proof {
            assert(existing_series_ids@.take(i + 1).drop_last() =~= existing_series_ids@.take(i as int));
            assert(existing_series_ids@.take(i + 1).last() == existing_series_ids@[i as int]);
        }
        if !contains_string(discovered_series_ids, existing_series_ids[i].as_str()) {
            let ghost before = views(missing@);
            let id = existing_series_ids[i].clone();
            missing.push(id);
            proof {
                assert(views(missing@) =~= before.push(existing_series_ids@[i as int]@));
            }
        }
        i += 1;
    }
    proof {
        assert(existing_series_ids@.take(existing_series_ids@.len() as int) =~= existing_series_ids@);
    }
    let books_in_missing_series = filter_missing_books(existing_books, discovered_book_ids, &missing, true);
    let other_missing_books = filter_missing_books(existing_books, discovered_book_ids, &missing, false);
    let mut active: Vec<String> = Vec::new();
    let mut k: usize = 0;
    while k < existing_books.len()
        invariant
            k <= existing_books@.len(),
            views(active@) == row_views(existing_books@).map_values(|p: (Seq<char>, Seq<char>)| p.0).take(k as int),
        decreases existing_books@.len() - k,
    {
        let ghost before = views(active@);
        let id = existing_books[k].book_id.clone();
        active.push(id);
        proof {
            assert(views(active@) =~= before.push(existing_books@[k as int].book_id@));
        }
        k += 1;
        proof {
            assert(views(active@) =~= row_views(existing_books@).map_values(|p: (Seq<char>, Seq<char>)| p.0).take(k as int));
        }
    }
    proof {
        assert(row_views(existing_books@).map_values(|p: (Seq<char>, Seq<char>)| p.0).take(k as int)
            =~= row_views(existing_books@).map_values(|p: (Seq<char>, Seq<char>)| p.0));
    }
    MissingRowsPlan { books_in_missing_series, missing_series_ids: missing, other_missing_books, active_book_ids: active }
}

/// Whether a scanned book is written to its row: always in a series that was just created
/// or that needs synchronization, else only when the book was not live before.
pub fn book_requires_upsert(sync_books: bool, book_id: &str, active_book_ids: &Vec<String>) -> (r: bool)
    ensures
        r == (sync_books || !string_set(active_book_ids@).contains(book_id@)),
{
    sync_books || !contains_string(active_book_ids, book_id)
}

/// How one book of a series is renumbered, once the series' books are in reading order.
#[derive(Clone, Debug)]
pub struct RenumberDecision {
    /// The book's new number: its position, counted from one.
    pub new_number: i64,
    /// Whether the book's stored number changes.
    pub update_book_number: bool,
    /// The metadata number to store: the new number in decimal, or the old one when locked.
    pub metadata_number: String,
    /// Whether the metadata number changes (it is not locked and differs).
    pub metadata_number_changed: bool,
}

/// The renumbering of the book at `index` (from zero) in reading order.
pub fn renumber_book(index: usize, book_number: i64, metadata_number: &String, metadata_number_lock: bool) -> (d: RenumberDecision)
    requires
        index < i64::MAX,
    ensures
        d.new_number == index + 1,
        d.update_book_number == (book_number != index + 1),
        d.metadata_number@ == (if metadata_number_lock { metadata_number@ } else { decimal_digits((index + 1) as nat) }),
        d.metadata_number_changed == (!metadata_number_lock && metadata_number@ != decimal_digits((index + 1) as nat)),
{
    let new_number = (index as i64) + 1;
    let mut digits: Vec<char> = Vec::new();
    push_decimal(&mut digits, new_number as u64);
    proof {
        assert(digits@ =~= decimal_digits((index + 1) as nat));
    }
    let text = string_from_chars(digits.as_slice());
    let differs = !(*metadata_number == text);
    RenumberDecision {
        new_number,
        update_book_number: book_number != new_number,
        metadata_number: if metadata_number_lock { metadata_number.clone() } else { text },
        metadata_number_changed: !metadata_number_lock && differs,
    }
}

} // verus!

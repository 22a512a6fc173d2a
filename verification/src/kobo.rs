//! The books of a Kobo sync point, taken once each.
use vstd::prelude::*;
use crate::metadata_support::{dedupe_strings_preserve_order, first_occurrences};
use crate::ordering::views;

verus! {

/// A book recorded in a Kobo sync point.
#[derive(Clone, Debug)]
pub struct KoboSyncPointBook {
    pub book_id: String,
    pub created: String,
    pub file_last_modified: String,
}

/// The ids of the books, in order.
pub open spec fn sync_point_book_ids(books: Seq<KoboSyncPointBook>) -> Seq<Seq<char>> {
    books.map_values(|b: KoboSyncPointBook| b.book_id@)
}

/// The ids of the sync point's books, each once, in the order they first occur.
pub fn unique_book_ids(books: &Vec<KoboSyncPointBook>) -> (r: Vec<String>)
    ensures
        views(r@) == first_occurrences(sync_point_book_ids(books@)),
{
    let mut ids: Vec<String> = Vec::new();
    let mut i: usize = 0;
    while i < books.len()
        invariant
            i <= books@.len(),
            views(ids@) == sync_point_book_ids(books@).take(i as int),
        decreases books@.len() - i,
    {
        let ghost before = views(ids@);
        ids.push(books[i].book_id.clone());
        proof {
            assert(views(ids@) =~= before.push(books@[i as int].book_id@));
            assert(sync_point_book_ids(books@).take(i + 1) =~= sync_point_book_ids(books@).take(i as int).push(books@[i as int].book_id@));
        }
        i += 1;
    }
    proof {
        assert(sync_point_book_ids(books@).take(books@.len() as int) =~= sync_point_book_ids(books@));
    }
    dedupe_strings_preserve_order(&ids)
}

} // verus!

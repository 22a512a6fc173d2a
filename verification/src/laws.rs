//! Properties that hold across the library's operations.
use vstd::prelude::*;
use crate::comicinfo::{offer_field, ComicInfoField};
use crate::comicinfo_source::{comicinfo_entry, entry_matches, lemma_first_entry_where, readlist_number};
use crate::epub::{first_value, insert_first, joined_words, stripped_markup, untagged};
use crate::follow_up::{books_to_refresh, refreshed_book_ids, BookMetadataRefreshRequest};
use crate::metadata_support::{canonical_members, canonical_string_set, first_occurrences, is_isbn13, isbn13_spec, without_separators};
use crate::ordering::{lemma_sorted_listing_exists, seq_set, sorted_listing, strictly_sorted, views};
use crate::persist_plan::{missing_books, missing_series, StoredBookRow};
use crate::restore::{hashes_of, series_books_match, sizes_of, SizedHashedBook};
use crate::string_set::string_set;
use crate::text::{ascii_lower, is_ascii_digit, is_whitespace, lemma_lower_char_whitespace, lemma_trim_ends, lemma_trim_unchanged, trim};
use crate::transient::{is_known_transient_media_type, reported_media_type};

verus! {

/// ComicInfo is read from the first archive entry named exactly `ComicInfo.xml`, before
/// any nested one; without such an entry, from the first `ComicInfo.xml` in a directory;
/// and from no entry when neither occurs. Directories (`None`) are never chosen.
pub proof fn law_root_comicinfo_before_nested(names: Seq<Option<Seq<char>>>)
    ensures
        match comicinfo_entry(names) {
            Some(k) => 0 <= k < names.len() && (
                (entry_matches(names[k], true)
                    && forall|j: int| 0 <= j < k ==> !entry_matches(#[trigger] names[j], true))
                || (entry_matches(names[k], false)
                    && (forall|j: int| 0 <= j < names.len() ==> !entry_matches(#[trigger] names[j], true))
                    && forall|j: int| 0 <= j < k ==> !entry_matches(#[trigger] names[j], false))),
            None => forall|j: int| 0 <= j < names.len()
                ==> !entry_matches(#[trigger] names[j], true) && !entry_matches(names[j], false),
        },
        (exists|i: int| 0 <= i < names.len() && entry_matches(#[trigger] names[i], true))
            ==> comicinfo_entry(names) is Some && entry_matches(names[comicinfo_entry(names)->0], true),
{
    lemma_first_entry_where(names, true);
    lemma_first_entry_where(names, false);
}

/// A ComicInfo field keeps the first non-blank value offered for it: a later value changes
/// nothing, and no offer touches another field.
pub proof fn law_comicinfo_first_value_wins(
    m: Map<ComicInfoField, Seq<char>>,
    field: ComicInfoField,
    first: Seq<char>,
    later: Seq<char>,
    other: ComicInfoField,
)
    requires
        !m.contains_key(field),
        trim(first).len() > 0,
        other != field,
    ensures
        offer_field(offer_field(m, field, first), field, later)[field] == trim(first),
        offer_field(offer_field(m, field, first), field, later) == offer_field(m, field, first),
        offer_field(m, field, later).contains_key(other) == m.contains_key(other),
        m.contains_key(other) ==> offer_field(m, field, later)[other] == m[other],
{
}

/// A book never takes a position that its ComicInfo reading list already uses: the
/// position requested when it is free, else one past the highest.
pub proof fn law_readlist_number_is_free(positions: Set<int>, max_number: int, requested: Option<int>)
    requires
        forall|p: int| positions.contains(p) ==> p <= max_number,
    ensures
        !positions.contains(readlist_number(max_number, requested, match requested {
            Some(r) => positions.contains(r),
            None => false,
        })),
{
}

/// Whether a deleted series matches a new one does not depend on which is which.
pub proof fn law_series_match_symmetric(a: Seq<SizedHashedBook>, b: Seq<SizedHashedBook>)
    ensures
        series_books_match(a, b) == series_books_match(b, a),
{
}

/// The stored series a scan soft-deletes are exactly the stored series it did not find.
pub proof fn law_missing_series_members(existing: Seq<String>, discovered: Set<Seq<char>>, id: Seq<char>)
    ensures
        missing_series(existing, discovered).contains(id)
            <==> (!discovered.contains(id) && exists|i: int| 0 <= i < existing.len() && #[trigger] existing[i]@ == id),
    decreases existing.len(),
{
    if existing.len() > 0 {
        let e = existing.drop_last();
        law_missing_series_members(e, discovered, id);
        let rest = missing_series(e, discovered);
        if !discovered.contains(existing.last()@) {
            if rest.push(existing.last()@).contains(id) && !rest.contains(id) {
                let k = choose|k: int| 0 <= k < rest.push(existing.last()@).len() && rest.push(existing.last()@)[k] == id;
                assert(k == rest.len());
                assert(existing[existing.len() - 1]@ == id);
            }
            if rest.contains(id) {
                let k = choose|k: int| 0 <= k < rest.len() && rest[k] == id;
                assert(rest.push(existing.last()@)[k] == id);
            }
            if existing.last()@ == id {
                assert(rest.push(existing.last()@)[rest.len() as int] == id);
            }
        }
        if exists|i: int| 0 <= i < existing.len() && #[trigger] existing[i]@ == id {
            let i = choose|i: int| 0 <= i < existing.len() && #[trigger] existing[i]@ == id;
            if i < existing.len() - 1 {
                assert(e[i]@ == id);
            }
        }
        if exists|i: int| 0 <= i < e.len() && #[trigger] e[i]@ == id {
            let i = choose|i: int| 0 <= i < e.len() && #[trigger] e[i]@ == id;
            assert(existing[i]@ == id);
        }
    }
}

/// A stored book the scan did not find is soft-deleted in exactly one of the two passes:
/// with the lost series when its series is lost, after them otherwise; a book the scan
/// found is in neither.
pub proof fn law_missing_books_members(
    books: Seq<StoredBookRow>,
    discovered: Set<Seq<char>>,
    missing: Set<Seq<char>>,
    in_missing: bool,
    book: (Seq<char>, Seq<char>),
)
    ensures
        missing_books(books, discovered, missing, in_missing).contains(book) <==> (
            !discovered.contains(book.0) && missing.contains(book.1) == in_missing
                && exists|i: int| 0 <= i < books.len() && (#[trigger] books[i]).book_id@ == book.0 && books[i].series_id@ == book.1),
    decreases books.len(),
{
    if books.len() > 0 {
        let e = books.drop_last();
        law_missing_books_members(e, discovered, missing, in_missing, book);
        let rest = missing_books(e, discovered, missing, in_missing);
        let b = books.last();
        let p = (b.book_id@, b.series_id@);
        let kept = !discovered.contains(b.book_id@) && missing.contains(b.series_id@) == in_missing;
        if kept {
            if rest.push(p).contains(book) && !rest.contains(book) {
                let k = choose|k: int| 0 <= k < rest.push(p).len() && rest.push(p)[k] == book;
                assert(k == rest.len());
                assert(books[books.len() - 1] == b);
            }
            if rest.contains(book) {
                let k = choose|k: int| 0 <= k < rest.len() && rest[k] == book;
                assert(rest.push(p)[k] == book);
            }
            if p == book {
                assert(rest.push(p)[rest.len() as int] == book);
            }
        }
        if exists|i: int| 0 <= i < books.len() && (#[trigger] books[i]).book_id@ == book.0 && books[i].series_id@ == book.1 {
            let i = choose|i: int| 0 <= i < books.len() && (#[trigger] books[i]).book_id@ == book.0 && books[i].series_id@ == book.1;
            if i < books.len() - 1 {
                assert(e[i] == books[i]);
            }
        }
        if exists|i: int| 0 <= i < e.len() && (#[trigger] e[i]).book_id@ == book.0 && e[i].series_id@ == book.1 {
            let i = choose|i: int| 0 <= i < e.len() && (#[trigger] e[i]).book_id@ == book.0 && e[i].series_id@ == book.1;
            assert(books[i] == e[i]);
        }
    }
}

proof fn lemma_without_separators_of_digits(s: Seq<char>)
    requires
        forall|i: int| 0 <= i < s.len() ==> is_ascii_digit(#[trigger] s[i]),
    ensures
        without_separators(s) == s,
    decreases s.len(),
{
    if s.len() > 0 {
        lemma_without_separators_of_digits(s.drop_last());
        assert(s.drop_last().push(s.last()) =~= s);
    }
}

/// An ISBN-13 that was read is in normal form: reading it again gives it back.
pub proof fn law_isbn13_normal_form(value: Seq<char>)
    ensures
        isbn13_spec(value) matches Some(d) ==> is_isbn13(d) && isbn13_spec(d) == Some(d),
{
    if let Some(d) = isbn13_spec(value) {
        lemma_without_separators_of_digits(d);
    }
}

/// Keeping first occurrences leaves no name twice.
pub proof fn law_first_occurrences_unique(s: Seq<Seq<char>>)
    ensures
        first_occurrences(s).no_duplicates(),
    decreases s.len(),
{
    if s.len() > 0 {
        law_first_occurrences_unique(s.drop_last());
        let rest = first_occurrences(s.drop_last());
        if !rest.contains(s.last()) {
            let r = rest.push(s.last());
            assert forall|i: int, j: int| 0 <= i < r.len() && 0 <= j < r.len() && i != j implies r[i] != r[j] by {
                if i < rest.len() && j < rest.len() {
                } else if i == rest.len() {
                    assert(r[j] == rest[j]);
                } else {
                    assert(r[i] == rest[i]);
                }
            }
        }
    }
}

/// In an association list where the first entry for a key wins, adding an entry gives the
/// key its value only when it had none, and leaves every other key as it was.
pub proof fn law_insert_first_keeps_first(v: Seq<(Seq<char>, Seq<char>)>, key: Seq<char>, value: Seq<char>, other: Seq<char>)
    requires
        other != key,
    ensures
        first_value(insert_first(v, key, value), key) == (if first_value(v, key) is Some { first_value(v, key) } else { Some(value) }),
        first_value(insert_first(v, key, value), other) == first_value(v, other),
{
    if first_value(v, key) is None {
        assert(v.push((key, value)).drop_last() =~= v);
    }
}

proof fn lemma_untagged_no_tags(s: Seq<char>)
    ensures
        !untagged(s).0.contains('<'),
        !untagged(s).0.contains('>'),
    decreases s.len(),
{
    if s.len() > 0 {
        lemma_untagged_no_tags(s.drop_last());
        let out = untagged(s.drop_last()).0;
        let r = untagged(s).0;
        assert forall|k: int| 0 <= k < r.len() implies r[k] != '<' && r[k] != '>' by {
            if k < out.len() {
                assert(r[k] == out[k]);
            }
        }
    }
}

proof fn lemma_joined_words_chars(s: Seq<char>, c: char)
    requires
        c != ' ',
        !is_whitespace(c),
    ensures
        joined_words(s).0.contains(c) ==> s.contains(c),
    decreases s.len(),
{
    if s.len() > 0 {
        lemma_joined_words_chars(s.drop_last(), c);
        let out = joined_words(s.drop_last()).0;
        let r = joined_words(s).0;
        if r.contains(c) {
            let k = choose|k: int| 0 <= k < r.len() && r[k] == c;
            if k < out.len() {
                assert(out[k] == c);
                let m = choose|m: int| 0 <= m < s.drop_last().len() && s.drop_last()[m] == c;
                assert(s[m] == c);
            } else {
                assert(s[s.len() - 1] == c);
            }
        }
    }
}

/// A description without markup holds no `<` or `>`.
pub proof fn law_stripped_markup_has_no_tags(s: Seq<char>)
    ensures
        !stripped_markup(s).contains('<'),
        !stripped_markup(s).contains('>'),
{
    lemma_untagged_no_tags(s);
    lemma_joined_words_chars(untagged(s).0, '<');
    lemma_joined_words_chars(untagged(s).0, '>');
}

/// The media type reported for a transient book is reported as itself.
pub proof fn law_reported_media_type_stable(m: Seq<char>)
    ensures
        reported_media_type(reported_media_type(m)) == reported_media_type(m),
{
    reveal_strlit("application/octet-stream");
    reveal_strlit("image/jpeg");
    reveal_strlit("image/png");
    reveal_strlit("image/gif");
    reveal_strlit("image/webp");
    reveal_strlit("image/avif");
    reveal_strlit("application/pdf");
    reveal_strlit("application/epub+zip");
    reveal_strlit("application/x-mobipocket-ebook");
    reveal_strlit("application/zip");
    reveal_strlit("application/vnd.comicbook-rar");
    reveal_strlit("application/x-rar-compressed");
    reveal_strlit("application/x-rar-compressed; version=4");
    reveal_strlit("application/x-rar-compressed; version=5");
    if !is_known_transient_media_type(m) {
        let o = "application/octet-stream"@;
        assert(o[11] == '/' && o[12] == 'o' && o.len() == 24);
        assert(!is_known_transient_media_type(o));
    }
}

proof fn lemma_refreshed_ids_finite(refreshes: Seq<BookMetadataRefreshRequest>)
    ensures
        refreshed_book_ids(refreshes).finite(),
{
    let ids = refreshes.map_values(|r: BookMetadataRefreshRequest| r.book_id@);
    assert forall|b: Seq<char>| refreshed_book_ids(refreshes).contains(b) <==> ids.to_set().contains(b) by {
        if refreshed_book_ids(refreshes).contains(b) {
            let i = choose|i: int| 0 <= i < refreshes.len() && #[trigger] refreshes[i].book_id@ == b;
            assert(ids[i] == b);
        }
        if ids.to_set().contains(b) {
            let i = choose|i: int| 0 <= i < ids.len() && ids[i] == b;
            assert(refreshes[i].book_id@ == b);
        }
    }
    assert(refreshed_book_ids(refreshes) =~= ids.to_set());
    vstd::seq_lib::seq_to_set_is_finite(ids);
}

proof fn lemma_string_set_finite(v: Seq<String>)
    ensures
        string_set(v).finite(),
{
    crate::ordering::lemma_string_set_is_seq_set(v);
    assert(seq_set(views(v)) =~= views(v).to_set());
    vstd::seq_lib::seq_to_set_is_finite(views(v));
}

/// After a scan every book named by a refresh request or renumbered is refreshed once, in
/// increasing order of id, and no other book is.
pub proof fn law_book_refreshes_once_each(refreshes: Seq<BookMetadataRefreshRequest>, renumbered: Seq<String>)
    ensures
        strictly_sorted(books_to_refresh(refreshes, renumbered)),
        seq_set(books_to_refresh(refreshes, renumbered)) == refreshed_book_ids(refreshes).union(string_set(renumbered)),
{
    lemma_refreshed_ids_finite(refreshes);
    lemma_string_set_finite(renumbered);
    lemma_sorted_listing_exists(refreshed_book_ids(refreshes).union(string_set(renumbered)));
}

/// After a scan every changed series is refreshed once, in increasing order of id.
pub proof fn law_series_refreshes_once_each(changed_series_ids: Seq<String>)
    ensures
        strictly_sorted(sorted_listing(string_set(changed_series_ids))),
        seq_set(sorted_listing(string_set(changed_series_ids))) == string_set(changed_series_ids),
{
    lemma_string_set_finite(changed_series_ids);
    lemma_sorted_listing_exists(string_set(changed_series_ids));
}


/// A trimmed, lower-cased, non-blank name is its own canonical form.
proof fn lemma_canonical_value(v: Seq<char>)
    requires
        trim(v).len() > 0,
    ensures
        ascii_lower(trim(v)).len() > 0,
        trim(ascii_lower(trim(v))) == ascii_lower(trim(v)),
        ascii_lower(ascii_lower(trim(v))) == ascii_lower(trim(v)),
{
    let t = trim(v);
    let x = ascii_lower(t);
    lemma_trim_ends(v);
    lemma_lower_char_whitespace(t[0]);
    lemma_lower_char_whitespace(t.last());
    assert(x[0] == crate::text::ascii_lower_char(t[0]));
    assert(x.last() == crate::text::ascii_lower_char(t.last()));
    lemma_trim_unchanged(x);
    assert forall|i: int| 0 <= i < x.len() implies #[trigger] ascii_lower(x)[i] == x[i] by {
        lemma_lower_char_whitespace(t[i]);
    }
    assert(ascii_lower(x) =~= x);
}

/// A stored set of names is already canonical: canonicalizing it again changes nothing.
pub proof fn law_canonical_string_set_idempotent(values: Seq<Seq<char>>)
    ensures
        canonical_string_set(canonical_string_set(values)) == canonical_string_set(values),
{
    let s = canonical_members(values);
    let w = values.map_values(|v: Seq<char>| ascii_lower(trim(v)));
    assert forall|x: Seq<char>| s.contains(x) implies w.to_set().contains(x) by {
        let i = choose|i: int| 0 <= i < values.len() && trim(#[trigger] values[i]).len() > 0 && x == ascii_lower(trim(values[i]));
        assert(w[i] == x);
        assert(w.contains(x));
    }
    assert(s.subset_of(w.to_set()));
    vstd::seq_lib::seq_to_set_is_finite(w);
    vstd::set_lib::lemma_set_subset_finite(w.to_set(), s);
    lemma_sorted_listing_exists(s);
    let l = sorted_listing(s);
    assert forall|y: Seq<char>| canonical_members(l).contains(y) <==> s.contains(y) by {
        if canonical_members(l).contains(y) {
            let i = choose|i: int| 0 <= i < l.len() && trim(#[trigger] l[i]).len() > 0 && y == ascii_lower(trim(l[i]));
            assert(l.contains(l[i]));
            assert(seq_set(l).contains(l[i]));
            let j = choose|j: int| 0 <= j < values.len() && trim(#[trigger] values[j]).len() > 0 && l[i] == ascii_lower(trim(values[j]));
            lemma_canonical_value(values[j]);
        }
        if s.contains(y) {
            assert(seq_set(l).contains(y));
            let i = choose|i: int| 0 <= i < l.len() && l[i] == y;
            let j = choose|j: int| 0 <= j < values.len() && trim(#[trigger] values[j]).len() > 0 && y == ascii_lower(trim(values[j]));
            lemma_canonical_value(values[j]);
            assert(trim(l[i]).len() > 0 && y == ascii_lower(trim(l[i])));
        }
    }
    assert(canonical_members(l) =~= s);
}

} // verus!

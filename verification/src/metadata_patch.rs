//! The metadata that a book or series takes from a ComicInfo.xml document or a Mylar
//! `series.json` file.
use vstd::prelude::*;
use vstd::string::StringExecFns;
use crate::comicinfo::ComicInfoDocument;
use crate::metadata_support::{
    canonical_string_set, canonicalize_string_set, comicinfo_age_rating,
    compute_series_from_series_and_volume, dedupe_strings_preserve_order, first_occurrences,
    is_calendar_date, is_valid_calendar_date, isbn13_spec, list_entries, nonblank, nonblank_spec,
    normalize_comicinfo_age_rating, normalize_isbn13, opt_view, series_with_volume,
    split_comicinfo_list,
};
use crate::ordering::views;
use crate::text::{
    ascii_lower, chars_equal, chars_of, eq_ignore_ascii_case, format_int_padded, nonblank_trimmed,
    parse_i32, parse_i64, parse_integer_in, parse_u8, push_int_padded, push_zero_padded,
    split_on, split_trimmed_nonblank, string_from_chars, trim, trim_str, zero_padded,
};

verus! {

/// A person credited on a book, with the role they had.
#[derive(Clone, Debug)]
pub struct BookMetadataAuthor {
    pub name: String,
    pub role: String,
}

/// A web link of a book, labelled with its host.
#[derive(Clone, Debug)]
pub struct BookMetadataLink {
    pub label: String,
    pub url: String,
}

/// The direction in which a series is read.
#[derive(Clone, Copy, Debug, PartialEq, Eq)]
pub enum SeriesReadingDirection {
    LeftToRight,
    RightToLeft,
}

/// Book metadata read from a file; `None` where the file says nothing. The sort number is
/// derived from `number` where it is stored.
#[derive(Clone, Debug)]
pub struct BookMetadataImportPatch {
    pub title: Option<String>,
    pub summary: Option<String>,
    pub number: Option<String>,
    pub release_date: Option<String>,
    pub authors: Option<Vec<BookMetadataAuthor>>,
    pub tags: Option<Vec<String>>,
    pub isbn: Option<String>,
    pub links: Option<Vec<BookMetadataLink>>,
}

/// Series metadata read from a file; `None` (or empty) where the file says nothing.
#[derive(Clone, Debug)]
pub struct SeriesMetadataImportPatch {
    pub title: Option<String>,
    pub title_sort: Option<String>,
    pub status: Option<String>,
    pub summary: Option<String>,
    pub reading_direction: Option<SeriesReadingDirection>,
    pub publisher: Option<String>,
    pub age_rating: Option<u32>,
    pub language: Option<String>,
    pub genres: Option<Vec<String>>,
    pub total_book_count: Option<u32>,
    pub collections: Vec<String>,
}

/// A reading list that a book belongs to, with its position there when one is given.
#[derive(Clone, Debug)]
pub struct ComicInfoReadListEntry {
    pub name: String,
    pub number: Option<i64>,
}

pub open spec fn author_view(a: BookMetadataAuthor) -> (Seq<char>, Seq<char>) {
    (a.name@, a.role@)
}

pub open spec fn author_views(v: Seq<BookMetadataAuthor>) -> Seq<(Seq<char>, Seq<char>)> {
    v.map_values(|a: BookMetadataAuthor| author_view(a))
}

pub open spec fn link_views(v: Seq<BookMetadataLink>) -> Seq<(Seq<char>, Seq<char>)> {
    v.map_values(|l: BookMetadataLink| (l.label@, l.url@))
}

pub open spec fn readlist_views(v: Seq<ComicInfoReadListEntry>) -> Seq<(Seq<char>, Option<int>)> {
    v.map_values(|e: ComicInfoReadListEntry| (e.name@, match e.number {
        Some(n) => Some(n as int),
        None => None,
    }))
}

/// `s.parse::<i64>().ok()`.
pub open spec fn parse_i64_spec(s: Seq<char>) -> Option<int> {
    parse_integer_in(s, true, i64::MIN as int, i64::MAX as int)
}

/// A month or day as written, or 1 when it is missing or not a number from 0 to 255.
pub open spec fn part_or_one(v: Option<Seq<char>>) -> int {
    match v {
        Some(s) => match parse_integer_in(s, false, 0, 255) {
            Some(n) => n,
            None => 1,
        },
        None => 1,
    }
}

/// The release date `YYYY-MM-DD` of a document's year, month and day: none without a
/// year that is a 32-bit number, the first month or day where those are missing, and none
/// when the day does not exist.
pub open spec fn release_date_spec(year: Option<Seq<char>>, month: Option<Seq<char>>, day: Option<Seq<char>>) -> Option<Seq<char>> {
    match year {
        None => None,
        Some(y) => match parse_integer_in(y, true, i32::MIN as int, i32::MAX as int) {
            None => None,
            Some(yv) => {
                let m = part_or_one(month);
                let d = part_or_one(day);
                if is_calendar_date(yv, m, d) {
                    Some(format_int_padded(yv, 4) + seq!['-'] + zero_padded(m as nat, 2) + seq!['-'] + zero_padded(d as nat, 2))
                } else {
                    None
                }
            },
        },
    }
}

fn part_or_one_value(v: &Option<String>) -> (r: u8)
    ensures
        r as int == part_or_one(opt_view(*v)),
{
    match v {
        Some(s) => match parse_u8(chars_of(s.as_str()).as_slice()) {
            Some(n) => n,
            None => 1,
        },
        None => 1,
    }
}

/// The release date that a ComicInfo document gives (see [`release_date_spec`]).
pub fn extract_comicinfo_release_date(document: &ComicInfoDocument) -> (r: Option<String>)
    ensures
        opt_view(r) == release_date_spec(opt_view(document.year), opt_view(document.month), opt_view(document.day)),
{
    let year = match &document.year {
        Some(y) => match parse_i32(chars_of(y.as_str()).as_slice()) {
            Some(v) => v,
            None => return None,
        },
        None => return None,
    };
    let month = part_or_one_value(&document.month);
    let day = part_or_one_value(&document.day);
    if !is_valid_calendar_date(year, month, day) {
        return None;
    }
    let mut out: Vec<char> = Vec::new();
    push_int_padded(&mut out, year as i64, 4);
    out.push('-');
    push_zero_padded(&mut out, month as u64, 2);
    out.push('-');
    push_zero_padded(&mut out, day as u64, 2);
    proof {
        assert(out@ =~= format_int_padded(year as int, 4) + seq!['-'] + zero_padded(month as nat, 2) + seq!['-'] + zero_padded(day as nat, 2));
    }
    Some(string_from_chars(out.as_slice()))
}

/// The people named in one credit field: its comma-separated names, trimmed, without
/// blanks, each with `role`.
pub open spec fn role_authors(value: Option<Seq<char>>, role: Seq<char>) -> Seq<(Seq<char>, Seq<char>)> {
    let names = list_entries(value);
    Seq::new(names.len(), |i: int| (names[i], role))
}

/// The credits of a document, field by field: writers, pencillers, inkers, colorists,
/// letterers, cover artists, editors, translators.
pub open spec fn comicinfo_author_list(d: ComicInfoDocument) -> Seq<(Seq<char>, Seq<char>)> {
    role_authors(opt_view(d.writer), "writer"@)
        + role_authors(opt_view(d.penciller), "penciller"@)
        + role_authors(opt_view(d.inker), "inker"@)
        + role_authors(opt_view(d.colorist), "colorist"@)
        + role_authors(opt_view(d.letterer), "letterer"@)
        + role_authors(opt_view(d.cover_artist), "cover"@)
        + role_authors(opt_view(d.editor), "editor"@)
        + role_authors(opt_view(d.translator), "translator"@)
}

fn push_role_authors(out: &mut Vec<BookMetadataAuthor>, value: &Option<String>, role: &str)
    ensures
        author_views(final(out)@) == author_views(old(out)@) + role_authors(opt_view(*value), role@),
{
    let names = split_comicinfo_list(value);
    let ghost base = author_views(out@);
    let mut i: usize = 0;
    while i < names.len()
        invariant
            i <= names@.len(),
            views(names@) == crate::metadata_support::list_entries(opt_view(*value)),
            author_views(out@) == base + Seq::new(i as nat, |k: int| (views(names@)[k], role@)),
        decreases names@.len() - i,
    {
        let ghost before = author_views(out@);
        out.push(BookMetadataAuthor { name: names[i].clone(), role: String::from_str(role) });
        proof {
            assert(author_views(out@) =~= before.push((names@[i as int]@, role@)));
            assert(author_views(out@) =~= base + Seq::new((i + 1) as nat, |k: int| (views(names@)[k], role@)));
        }
        i += 1;
    }
    proof {
        assert(Seq::new(names@.len() as nat, |k: int| (views(names@)[k], role@)) =~= role_authors(opt_view(*value), role@));
    }
}

/// The credited people of a document (see [`comicinfo_author_list`]), or `None` when there
/// are none.
pub fn extract_comicinfo_authors(document: &ComicInfoDocument) -> (r: Option<Vec<BookMetadataAuthor>>)
    ensures
        match r {
            Some(a) => author_views(a@) == comicinfo_author_list(*document) && a@.len() > 0,
            None => comicinfo_author_list(*document).len() == 0,
        },
{
    let mut authors: Vec<BookMetadataAuthor> = Vec::new();
    let ghost s0 = author_views(authors@);
    push_role_authors(&mut authors, &document.writer, "writer");
    push_role_authors(&mut authors, &document.penciller, "penciller");
    push_role_authors(&mut authors, &document.inker, "inker");
    push_role_authors(&mut authors, &document.colorist, "colorist");
    push_role_authors(&mut authors, &document.letterer, "letterer");
    push_role_authors(&mut authors, &document.cover_artist, "cover");
    push_role_authors(&mut authors, &document.editor, "editor");
    push_role_authors(&mut authors, &document.translator, "translator");
    proof {
        assert(s0 =~= Seq::<(Seq<char>, Seq<char>)>::empty());
        assert(author_views(authors@) =~= comicinfo_author_list(*document));
    }
    if authors.len() == 0 {
        None
    } else {
        Some(authors)
    }
}

/// The tags of a document: its comma-separated tags as a canonical set, or `None` when
/// there are none.
pub open spec fn comicinfo_tags(tags: Option<Seq<char>>) -> Option<Seq<Seq<char>>> {
    match tags {
        None => None,
        Some(t) => {
            let c = canonical_string_set(nonblank_trimmed(split_on(t, ',')));
            if c.len() == 0 {
                None
            } else {
                Some(c)
            }
        },
    }
}

pub fn extract_comicinfo_tags(document: &ComicInfoDocument) -> (r: Option<Vec<String>>)
    ensures
        match r {
            Some(t) => comicinfo_tags(opt_view(document.tags)) == Some(views(t@)),
            None => comicinfo_tags(opt_view(document.tags)) is None,
        },
{
    let text = match &document.tags {
        Some(t) => t,
        None => return None,
    };
    let pieces = split_trimmed_nonblank(text.as_str(), ',');
    let tags = canonicalize_string_set(&pieces);
    proof {
        assert(views(pieces@) =~= pieces@.map_values(|s: String| s@));
    }
    if tags.len() == 0 {
        None
    } else {
        Some(tags)
    }
}

/// The ISBN-13 that a document's GTIN writes.
pub fn extract_comicinfo_isbn(document: &ComicInfoDocument) -> (r: Option<String>)
    ensures
        opt_view(r) == match opt_view(document.gtin) {
            Some(g) => isbn13_spec(g),
            None => None,
        },
{
    match &document.gtin {
        Some(g) => normalize_isbn13(g.as_str()),
        None => None,
    }
}

/// What `url::Url::parse` makes of a text: its scheme and its host (`None` when it has
/// none), or `None` when the text is not a URL.
pub uninterp spec fn parsed_url(text: Seq<char>) -> Option<(Seq<char>, Option<Seq<char>>)>;

/// `url::Url::parse`, keeping `Url::scheme` and `Url::host_str`.
#[verifier::external_body]
fn parse_url_parts(text: &str) -> (r: Option<(String, Option<String>)>)
    ensures
        match r {
            Some((scheme, host)) => parsed_url(text@) == Some((scheme@, opt_view(host))),
            None => parsed_url(text@) is None,
        },
{
    url::Url::parse(text).ok().map(|url| (url.scheme().to_string(), url.host_str().map(|host| host.to_string())))
}

/// The link that one web address gives: an `http` or `https` URL with a host, labelled with
/// that host.
pub open spec fn web_link(text: Seq<char>) -> Option<(Seq<char>, Seq<char>)> {
    match parsed_url(text) {
        Some((scheme, Some(host))) => if scheme == "http"@ || scheme == "https"@ {
            Some((host, text))
        } else {
            None
        },
        _ => None,
    }
}

pub open spec fn web_links(pieces: Seq<Seq<char>>) -> Seq<(Seq<char>, Seq<char>)>
    decreases pieces.len(),
{
    if pieces.len() == 0 {
        Seq::empty()
    } else {
        let rest = web_links(pieces.drop_last());
        match web_link(pieces.last()) {
            Some(l) => rest.push(l),
            None => rest,
        }
    }
}

/// The links of a document: its space-separated web addresses that are `http` or `https`
/// URLs with a host, or `None` when there are none.
pub open spec fn comicinfo_links(web: Option<Seq<char>>) -> Option<Seq<(Seq<char>, Seq<char>)>> {
    match web {
        None => None,
        Some(w) => {
            let l = web_links(nonblank_trimmed(split_on(w, ' ')));
            if l.len() == 0 {
                None
            } else {
                Some(l)
            }
        },
    }
}

fn text_is(s: &str, expected: &str) -> (r: bool)
    ensures
        r == (s@ == expected@),
{
    let a = chars_of(s);
    let b = chars_of(expected);
    chars_equal(a.as_slice(), b.as_slice())
}

pub fn extract_comicinfo_links(document: &ComicInfoDocument) -> (r: Option<Vec<BookMetadataLink>>)
    ensures
        match r {
            Some(l) => comicinfo_links(opt_view(document.web)) == Some(link_views(l@)),
            None => comicinfo_links(opt_view(document.web)) is None,
        },
{
    let web = match &document.web {
        Some(w) => w,
        None => return None,
    };
    let pieces = split_trimmed_nonblank(web.as_str(), ' ');
    let ghost ps = nonblank_trimmed(split_on(web@, ' '));
    let mut links: Vec<BookMetadataLink> = Vec::new();
    let mut i: usize = 0;
    proof {
        assert(ps.take(0) =~= Seq::<Seq<char>>::empty());
    }
    while i < pieces.len()
        invariant
            i <= pieces@.len(),
            pieces@.map_values(|s: String| s@) == ps,
            link_views(links@) == web_links(ps.take(i as int)),
        decreases pieces@.len() - i,
    {
        proof {
            assert(ps.take(i + 1).drop_last() =~= ps.take(i as int));
            assert(ps[i as int] == pieces@[i as int]@);
        }
        let piece = &pieces[i];
        match parse_url_parts(piece.as_str()) {
            Some((scheme, Some(host))) => {
                if text_is(scheme.as_str(), "http") || text_is(scheme.as_str(), "https") {
                    let ghost before = link_views(links@);
                    links.push(BookMetadataLink { label: host, url: piece.clone() });
                    proof {
                        assert(link_views(links@) =~= before.push((host@, piece@)));
                    }
                }
            },
            _ => {},
        }
        i += 1;
    }
    proof {
        assert(ps.take(ps.len() as int) =~= ps);
    }
    if links.len() == 0 {
        None
    } else {
        Some(links)
    }
}

/// The metadata that a book takes from its ComicInfo document.
pub open spec fn comicinfo_book_patch_matches(d: ComicInfoDocument, p: BookMetadataImportPatch) -> bool {
    &&& p.title == d.title
    &&& p.summary == d.summary
    &&& p.number == d.number
    &&& opt_view(p.release_date) == release_date_spec(opt_view(d.year), opt_view(d.month), opt_view(d.day))
    &&& match p.authors {
        Some(a) => author_views(a@) == comicinfo_author_list(d) && a@.len() > 0,
        None => comicinfo_author_list(d).len() == 0,
    }
    &&& match p.tags {
        Some(t) => comicinfo_tags(opt_view(d.tags)) == Some(views(t@)),
        None => comicinfo_tags(opt_view(d.tags)) is None,
    }
    &&& opt_view(p.isbn) == match opt_view(d.gtin) {
        Some(g) => isbn13_spec(g),
        None => None,
    }
    &&& match p.links {
        Some(l) => comicinfo_links(opt_view(d.web)) == Some(link_views(l@)),
        None => comicinfo_links(opt_view(d.web)) is None,
    }
}

fn clone_opt(o: &Option<String>) -> (r: Option<String>)
    ensures
        r == *o,
{
    match o {
        Some(s) => Some(s.clone()),
        None => None,
    }
}

/// The book metadata of a ComicInfo document (see [`comicinfo_book_patch_matches`]).
pub fn extract_comicinfo_book_patch(document: &ComicInfoDocument) -> (p: BookMetadataImportPatch)
    ensures
        comicinfo_book_patch_matches(*document, p),
{
    BookMetadataImportPatch {
        title: clone_opt(&document.title),
        summary: clone_opt(&document.summary),
        number: clone_opt(&document.number),
        release_date: extract_comicinfo_release_date(document),
        authors: extract_comicinfo_authors(document),
        tags: extract_comicinfo_tags(document),
        isbn: extract_comicinfo_isbn(document),
        links: extract_comicinfo_links(document),
    }
}

/// The story arcs that carry a position: arc and position paired in order, as far as both
/// lists go, skipping the pairs whose position is not a number.
pub open spec fn numbered_arcs(arcs: Seq<Seq<char>>, numbers: Seq<Option<int>>, k: int) -> Seq<(Seq<char>, Option<int>)>
    decreases k,
{
    if k <= 0 {
        Seq::empty()
    } else {
        let rest = numbered_arcs(arcs, numbers, k - 1);
        match numbers[k - 1] {
            Some(v) => rest.push((arcs[k - 1], Some(v))),
            None => rest,
        }
    }
}

/// The positions written in a story arc number field: each comma-separated piece, trimmed,
/// as a 64-bit number, or `None` where it is not one.
pub open spec fn arc_numbers(text: Seq<char>) -> Seq<Option<int>> {
    let pieces = split_on(text, ',');
    Seq::new(pieces.len(), |i: int| parse_i64_spec(trim(pieces[i])))
}

/// The reading lists of a document: the alternate series (with the alternate number as
/// position), then the story arcs, all of them without positions when no arc numbers are
/// given, else those paired with a numeric position.
pub open spec fn comicinfo_readlists(d: ComicInfoDocument) -> Seq<(Seq<char>, Option<int>)> {
    let alternate = match d.alternate_series {
        Some(a) => seq![(a@, match opt_view(d.alternate_number) {
            Some(n) => parse_i64_spec(n),
            None => None,
        })],
        None => Seq::empty(),
    };
    let arcs = match d.story_arc {
        Some(s) => {
            let names = nonblank_trimmed(split_on(s@, ','));
            match d.story_arc_number {
                None => Seq::new(names.len(), |i: int| (names[i], None::<int>)),
                Some(n) => {
                    let nums = arc_numbers(n@);
                    numbered_arcs(names, nums, if names.len() < nums.len() { names.len() as int } else { nums.len() as int })
                },
            }
        },
        None => Seq::empty(),
    };
    alternate + arcs
}

fn parse_trimmed_i64(s: &[char]) -> (r: Option<i64>)
    ensures
        match r {
            Some(v) => parse_i64_spec(crate::text::trim(s@)) == Some(v as int),
            None => parse_i64_spec(crate::text::trim(s@)) is None,
        },
{
    let t = crate::text::trim_chars(s);
    parse_i64(t.as_slice())
}

pub fn extract_comicinfo_readlists(document: &ComicInfoDocument) -> (r: Vec<ComicInfoReadListEntry>)
    ensures
        readlist_views(r@) == comicinfo_readlists(*document),
{
    let mut readlists: Vec<ComicInfoReadListEntry> = Vec::new();
    if let Some(alternate) = &document.alternate_series {
        let number = match &document.alternate_number {
            Some(n) => parse_i64(chars_of(n.as_str()).as_slice()),
            None => None,
        };
        readlists.push(ComicInfoReadListEntry { name: alternate.clone(), number });
    }
    let ghost first = readlist_views(readlists@);
    if let Some(story_arc) = &document.story_arc {
        let arcs = split_trimmed_nonblank(story_arc.as_str(), ',');
        let ghost names = nonblank_trimmed(split_on(story_arc@, ','));
        proof {
            assert(views(arcs@) =~= arcs@.map_values(|s: String| s@));
        }
        match &document.story_arc_number {
            None => {
                let mut i: usize = 0;
                while i < arcs.len()
                    invariant
                        i <= arcs@.len(),
                        views(arcs@) == names,
                        readlist_views(readlists@) == first + Seq::new(i as nat, |k: int| (names[k], None::<int>)),
                    decreases arcs@.len() - i,
                {
                    let ghost before = readlist_views(readlists@);
                    readlists.push(ComicInfoReadListEntry { name: arcs[i].clone(), number: None });
                    proof {
                        assert(readlist_views(readlists@) =~= before.push((names[i as int], None::<int>)));
                        assert(readlist_views(readlists@) =~= first + Seq::new((i + 1) as nat, |k: int| (names[k], None::<int>)));
                    }
                    i += 1;
                }
            },
            Some(numbers_text) => {
                let pieces = crate::text::split_chars(chars_of(numbers_text.as_str()).as_slice(), ',');
                let ghost nums = arc_numbers(numbers_text@);
                proof {
                    assert forall|k: int| 0 <= k < pieces@.len() implies #[trigger] nums[k] == parse_i64_spec(crate::text::trim(pieces@[k]@)) by {
                        assert(pieces@[k]@ == split_on(numbers_text@, ',')[k]);
                    }
                }
                let bound = if arcs.len() < pieces.len() { arcs.len() } else { pieces.len() };
                let mut i: usize = 0;
                while i < bound
                    invariant
                        i <= bound,
                        bound <= arcs@.len(),
                        bound <= pieces@.len(),
                        bound as int == (if names.len() < nums.len() { names.len() as int } else { nums.len() as int }),
                        views(arcs@) == names,
                        pieces@.len() == nums.len(),
                        forall|k: int| 0 <= k < pieces@.len() ==> #[trigger] nums[k] == parse_i64_spec(crate::text::trim(pieces@[k]@)),
                        readlist_views(readlists@) == first + numbered_arcs(names, nums, i as int),
                    decreases bound - i,
                {
                    let number = parse_trimmed_i64(pieces[i].as_slice());
                    match number {
                        Some(v) => {
                            let ghost before = readlist_views(readlists@);
                            readlists.push(ComicInfoReadListEntry { name: arcs[i].clone(), number: Some(v) });
                            proof {
                                assert(readlist_views(readlists@) =~= before.push((names[i as int], Some(v as int))));
                            }
                        },
                        None => {},
                    }
                    i += 1;
                }
            },
        }
    }
    proof {
        assert(readlist_views(readlists@) =~= comicinfo_readlists(*document));
    }
    readlists
}

/// The reading direction that a document's `Manga` field gives: left to right for `No`,
/// right to left for `YesAndRightToLeft` (trimmed, any ASCII case), none otherwise.
pub open spec fn manga_direction(manga: Option<Seq<char>>) -> Option<SeriesReadingDirection> {
    let m = match manga {
        Some(v) => ascii_lower(trim(v)),
        None => Seq::empty(),
    };
    if m == ascii_lower("no"@) {
        Some(SeriesReadingDirection::LeftToRight)
    } else if m == ascii_lower("yesandrighttoleft"@) {
        Some(SeriesReadingDirection::RightToLeft)
    } else {
        None
    }
}

/// A count as written, when it is a 64-bit number that fits in 32 unsigned bits.
pub open spec fn book_count_spec(count: Option<Seq<char>>) -> Option<int> {
    match count {
        Some(c) => match parse_i64_spec(c) {
            Some(v) => if 0 <= v <= u32::MAX as int {
                Some(v)
            } else {
                None
            },
            None => None,
        },
        None => None,
    }
}

pub open spec fn opt_u32(o: Option<u32>) -> Option<int> {
    match o {
        Some(v) => Some(v as int),
        None => None,
    }
}

pub open spec fn opt_views(o: Option<Vec<String>>) -> Option<Seq<Seq<char>>> {
    match o {
        Some(v) => Some(views(v@)),
        None => None,
    }
}

/// The series metadata that a ComicInfo document gives: the series (with the volume when
/// asked for) as title and sort title, the reading direction, publisher, age rating,
/// language, genres as a canonical set (`None` when empty), book count, and the series
/// groups as collections, each once in order of appearance.
pub open spec fn comicinfo_series_patch_matches(d: ComicInfoDocument, append_volume_to_title: bool, p: SeriesMetadataImportPatch) -> bool {
    let series = if append_volume_to_title {
        series_with_volume(opt_view(d.series), match opt_view(d.volume) {
            Some(v) => parse_i64_spec(v),
            None => None,
        })
    } else {
        opt_view(d.series)
    };
    let genres = canonical_string_set(list_entries(opt_view(d.genre)));
    &&& opt_view(p.title) == series
    &&& opt_view(p.title_sort) == series
    &&& p.status is None
    &&& p.summary is None
    &&& p.reading_direction == manga_direction(opt_view(d.manga))
    &&& p.publisher == d.publisher
    &&& opt_u32(p.age_rating) == match opt_view(d.age_rating) {
        Some(a) => comicinfo_age_rating(a),
        None => None,
    }
    &&& opt_view(p.language) == match opt_view(d.language_iso) {
        Some(l) => nonblank_spec(l),
        None => None,
    }
    &&& opt_views(p.genres) == (if genres.len() > 0 { Some(genres) } else { None })
    &&& opt_u32(p.total_book_count) == book_count_spec(opt_view(d.count))
    &&& views(p.collections@) == first_occurrences(list_entries(opt_view(d.series_group)))
}

/// The series metadata of a ComicInfo document (see [`comicinfo_series_patch_matches`]).
pub fn extract_comicinfo_series_patch(document: &ComicInfoDocument, append_volume_to_title: bool) -> (p: SeriesMetadataImportPatch)
    ensures
        comicinfo_series_patch_matches(*document, append_volume_to_title, p),
{
    let series = if append_volume_to_title {
        let volume = match &document.volume {
            Some(v) => parse_i64(chars_of(v.as_str()).as_slice()),
            None => None,
        };
        compute_series_from_series_and_volume(clone_opt(&document.series), volume)
    } else {
        clone_opt(&document.series)
    };
    let genre_list = split_comicinfo_list(&document.genre);
    let genres = canonicalize_string_set(&genre_list);
    let group_list = split_comicinfo_list(&document.series_group);
    let collections = dedupe_strings_preserve_order(&group_list);
    let manga = match &document.manga {
        Some(m) => trim_str(m.as_str()),
        None => String::new(),
    };
    let reading_direction = if eq_ignore_ascii_case(manga.as_str(), "no") {
        Some(SeriesReadingDirection::LeftToRight)
    } else if eq_ignore_ascii_case(manga.as_str(), "yesandrighttoleft") {
        Some(SeriesReadingDirection::RightToLeft)
    } else {
        None
    };
    let age_rating = match &document.age_rating {
        Some(a) => normalize_comicinfo_age_rating(a.as_str()),
        None => None,
    };
    let language = match &document.language_iso {
        Some(l) => nonblank(l.as_str()),
        None => None,
    };
    let total_book_count = match &document.count {
        Some(c) => match parse_i64(chars_of(c.as_str()).as_slice()) {
            Some(v) => if 0 <= v && v <= u32::MAX as i64 {
                Some(v as u32)
            } else {
                None
            },
            None => None,
        },
        None => None,
    };
    let title_sort = clone_opt(&series);
    let genres_field = if genres.len() > 0 { Some(genres) } else { None };
    proof {
        if document.manga is None {
            assert(manga@ =~= Seq::<char>::empty());
            assert(ascii_lower(manga@) =~= Seq::<char>::empty());
        }
    }
    let p = SeriesMetadataImportPatch {
        title: series,
        title_sort,
        status: None,
        summary: None,
        reading_direction,
        publisher: clone_opt(&document.publisher),
        age_rating,
        language,
        genres: genres_field,
        total_book_count,
        collections,
    };
    proof {
        let d = *document;
        let sr = if append_volume_to_title {
            series_with_volume(opt_view(d.series), match opt_view(d.volume) {
                Some(v) => parse_i64_spec(v),
                None => None,
            })
        } else {
            opt_view(d.series)
        };
        assert(opt_view(p.title) == sr);
        assert(opt_view(p.title_sort) == sr);
        assert(p.reading_direction == manga_direction(opt_view(d.manga)));
        assert(p.publisher == d.publisher);
        assert(opt_u32(p.age_rating) == match opt_view(d.age_rating) {
            Some(a) => comicinfo_age_rating(a),
            None => None,
        });
        assert(opt_view(p.language) == match opt_view(d.language_iso) {
            Some(l) => nonblank_spec(l),
            None => None,
        });
        let genres_spec = canonical_string_set(list_entries(opt_view(d.genre)));
        assert(opt_views(p.genres) == (if genres_spec.len() > 0 { Some(genres_spec) } else { None }));
        assert(opt_u32(p.total_book_count) == book_count_spec(opt_view(d.count)));
    }
    p
}

/// The status that a Mylar `series.json` gives a series.
#[derive(Clone, Copy, Debug, PartialEq, Eq)]
pub enum MylarStatus {
    Ended,
    Continuing,
}

/// The age ratings that a Mylar `series.json` can give.
#[derive(Clone, Copy, Debug, PartialEq, Eq)]
pub enum MylarAgeRating {
    All,
    Nine,
    Twelve,
    Fifteen,
    Seventeen,
    Adult,
}

pub open spec fn mylar_age(value: MylarAgeRating) -> int {
    match value {
        MylarAgeRating::All => 0,
        MylarAgeRating::Nine => 9,
        MylarAgeRating::Twelve => 12,
        MylarAgeRating::Fifteen => 15,
        MylarAgeRating::Seventeen => 17,
        MylarAgeRating::Adult => 18,
    }
}

/// The minimum age of a Mylar age rating: 0 for all ages, 18 for adults.
pub fn mylar_age_rating_value(value: MylarAgeRating) -> (age: u32)
    ensures
        age as int == mylar_age(value),
{
    match value {
        MylarAgeRating::All => 0,
        MylarAgeRating::Nine => 9,
        MylarAgeRating::Twelve => 12,
        MylarAgeRating::Fifteen => 15,
        MylarAgeRating::Seventeen => 17,
        MylarAgeRating::Adult => 18,
    }
}

/// The fields of a Mylar `series.json` that the library reads.
#[derive(Clone, Debug)]
pub struct MylarSeriesMetadata {
    pub publisher: String,
    pub name: String,
    pub year: i64,
    pub description_text: Option<String>,
    pub description_formatted: Option<String>,
    pub volume: Option<i64>,
    pub age_rating: Option<MylarAgeRating>,
    pub total_issues: i64,
    pub status: MylarStatus,
}

/// The title of a Mylar series: its name for the first volume or an unknown one, else the
/// name followed by the year in brackets.
pub open spec fn mylar_title(m: MylarSeriesMetadata) -> Seq<char> {
    match m.volume {
        Some(v) => if v == 1 {
            m.name@
        } else {
            m.name@ + seq![' ', '('] + format_int_padded(m.year as int, 0) + seq![')']
        },
        None => m.name@,
    }
}

/// The series metadata of a Mylar `series.json`: title and sort title, status (`ENDED` or
/// `ONGOING`), the formatted description or else the plain one, publisher, age rating, and
/// the issue count when it fits in 32 unsigned bits.
pub open spec fn mylar_patch_matches(m: MylarSeriesMetadata, p: SeriesMetadataImportPatch) -> bool {
    &&& opt_view(p.title) == Some(mylar_title(m))
    &&& opt_view(p.title_sort) == Some(mylar_title(m))
    &&& opt_view(p.status) == Some(match m.status {
        MylarStatus::Ended => "ENDED"@,
        MylarStatus::Continuing => "ONGOING"@,
    })
    &&& p.summary == match m.description_formatted {
        Some(s) => Some(s),
        None => m.description_text,
    }
    &&& p.reading_direction is None
    &&& opt_view(p.publisher) == Some(m.publisher@)
    &&& opt_u32(p.age_rating) == match m.age_rating {
        Some(a) => Some(mylar_age(a)),
        None => None,
    }
    &&& p.language is None
    &&& p.genres is None
    &&& opt_u32(p.total_book_count) == (if 0 <= m.total_issues <= u32::MAX as int { Some(m.total_issues as int) } else { None })
    &&& p.collections@.len() == 0
}

pub fn mylar_series_patch(metadata: MylarSeriesMetadata) -> (p: SeriesMetadataImportPatch)
    ensures
        mylar_patch_matches(metadata, p),
{
    let ghost m = metadata;
    let title = match metadata.volume {
        Some(v) if v != 1 => {
            let mut out = chars_of(metadata.name.as_str());
            out.push(' ');
            out.push('(');
            push_int_padded(&mut out, metadata.year, 0);
            out.push(')');
            proof {
                assert(out@ =~= mylar_title(m));
            }
            string_from_chars(out.as_slice())
        },
        _ => metadata.name.clone(),
    };
    let status = match metadata.status {
        MylarStatus::Ended => String::from_str("ENDED"),
        MylarStatus::Continuing => String::from_str("ONGOING"),
    };
    let summary = match metadata.description_formatted {
        Some(s) => Some(s),
        None => metadata.description_text,
    };
    let age_rating = match metadata.age_rating {
        Some(a) => Some(mylar_age_rating_value(a)),
        None => None,
    };
    let total_book_count = if 0 <= metadata.total_issues && metadata.total_issues <= u32::MAX as i64 {
        Some(metadata.total_issues as u32)
    } else {
        None
    };
    SeriesMetadataImportPatch {
        title: Some(title.clone()),
        title_sort: Some(title),
        status: Some(status),
        summary,
        reading_direction: None,
        publisher: Some(metadata.publisher),
        age_rating,
        language: None,
        genres: None,
        total_book_count,
        collections: Vec::new(),
    }
}


/// Whether `name` is a trimmed, non-blank comma-separated entry of `value`.
pub open spec fn is_list_entry(value: Option<String>, name: Seq<char>) -> bool {
    match value {
        Some(v) => name.len() > 0 && exists|p: Seq<char>| split_on(v@, ',').contains(p) && trim(p) == name,
        None => false,
    }
}

/// Whether the credit `author` (name, role) comes from a field of the document that carries
/// that role.
pub open spec fn credited_by_document(d: ComicInfoDocument, author: (Seq<char>, Seq<char>)) -> bool {
    ||| author.1 == "writer"@ && is_list_entry(d.writer, author.0)
    ||| author.1 == "penciller"@ && is_list_entry(d.penciller, author.0)
    ||| author.1 == "inker"@ && is_list_entry(d.inker, author.0)
    ||| author.1 == "colorist"@ && is_list_entry(d.colorist, author.0)
    ||| author.1 == "letterer"@ && is_list_entry(d.letterer, author.0)
    ||| author.1 == "cover"@ && is_list_entry(d.cover_artist, author.0)
    ||| author.1 == "editor"@ && is_list_entry(d.editor, author.0)
    ||| author.1 == "translator"@ && is_list_entry(d.translator, author.0)
}

proof fn lemma_nonblank_trimmed_members(pieces: Seq<Seq<char>>)
    ensures
        forall|x: Seq<char>| #[trigger] nonblank_trimmed(pieces).contains(x)
            <==> (x.len() > 0 && exists|p: Seq<char>| pieces.contains(p) && trim(p) == x),
    decreases pieces.len(),
{
    if pieces.len() > 0 {
        let init = pieces.drop_last();
        lemma_nonblank_trimmed_members(init);
        let rest = nonblank_trimmed(init);
        let t = trim(pieces.last());
        assert forall|x: Seq<char>| #[trigger] nonblank_trimmed(pieces).contains(x)
            <==> (x.len() > 0 && exists|p: Seq<char>| pieces.contains(p) && trim(p) == x) by {
            if nonblank_trimmed(pieces).contains(x) {
                if t.len() == 0 || !(x == t) {
                    if t.len() != 0 {
                        let i = choose|i: int| 0 <= i < rest.len() + 1 && rest.push(t)[i] == x;
                        assert(rest[i] == x);
                    }
                    assert(rest.contains(x));
                    let p = choose|p: Seq<char>| init.contains(p) && trim(p) == x;
                    let j = choose|j: int| 0 <= j < init.len() && init[j] == p;
                    assert(pieces[j] == p);
                    assert(pieces.contains(p));
                } else {
                    assert(pieces[pieces.len() - 1] == pieces.last());
                    assert(pieces.contains(pieces.last()));
                }
            }
            if x.len() > 0 && exists|p: Seq<char>| pieces.contains(p) && trim(p) == x {
                let p = choose|p: Seq<char>| pieces.contains(p) && trim(p) == x;
                let j = choose|j: int| 0 <= j < pieces.len() && pieces[j] == p;
                if j < init.len() {
                    assert(init[j] == p);
                    assert(init.contains(p));
                    assert(rest.contains(x));
                    let i = choose|i: int| 0 <= i < rest.len() && rest[i] == x;
                    if t.len() != 0 {
                        assert(rest.push(t)[i] == x);
                    }
                } else {
                    assert(rest.push(t)[rest.len() as int] == x);
                }
            }
        }
    }
}

proof fn lemma_role_authors_members(value: Option<String>, role: Seq<char>)
    ensures
        forall|a: (Seq<char>, Seq<char>)| #[trigger] role_authors(opt_view(value), role).contains(a)
            <==> (a.1 == role && is_list_entry(value, a.0)),
{
    let names = list_entries(opt_view(value));
    let ra = role_authors(opt_view(value), role);
    if let Some(v) = value {
        lemma_nonblank_trimmed_members(split_on(v@, ','));
    }
    assert forall|a: (Seq<char>, Seq<char>)| #[trigger] ra.contains(a) <==> (a.1 == role && is_list_entry(value, a.0)) by {
        if ra.contains(a) {
            let i = choose|i: int| 0 <= i < ra.len() && ra[i] == a;
            assert(names.contains(names[i]));
        }
        if a.1 == role && is_list_entry(value, a.0) {
            assert(names.contains(a.0));
            let i = choose|i: int| 0 <= i < names.len() && names[i] == a.0;
            assert(ra[i] == a);
        }
    }
}

proof fn lemma_concat_contains<A>(a: Seq<A>, b: Seq<A>, x: A)
    ensures
        (a + b).contains(x) <==> (a.contains(x) || b.contains(x)),
{
    if (a + b).contains(x) {
        let i = choose|i: int| 0 <= i < (a + b).len() && (a + b)[i] == x;
        if i < a.len() {
            assert(a[i] == x);
        } else {
            assert(b[i - a.len()] == x);
        }
    }
    if a.contains(x) {
        let i = choose|i: int| 0 <= i < a.len() && a[i] == x;
        assert((a + b)[i] == x);
    }
    if b.contains(x) {
        let i = choose|i: int| 0 <= i < b.len() && b[i] == x;
        assert((a + b)[a.len() + i] == x);
    }
}

/// The credits of one field, in list order: each trimmed, non-blank comma-separated entry
/// with the field's role.
pub open spec fn credits_of(value: Option<String>, role: Seq<char>) -> Seq<(Seq<char>, Seq<char>)> {
    match value {
        Some(v) => split_on(v@, ',').filter_map(|p: Seq<char>| if trim(p).len() > 0 {
            Some((trim(p), role))
        } else {
            None
        }),
        None => Seq::empty(),
    }
}

proof fn lemma_nonblank_credits(pieces: Seq<Seq<char>>, role: Seq<char>)
    ensures
        ({
            let names = nonblank_trimmed(pieces);
            Seq::new(names.len(), |i: int| (names[i], role))
        }) == pieces.filter_map(|p: Seq<char>| if trim(p).len() > 0 {
            Some((trim(p), role))
        } else {
            None
        }),
    decreases pieces.len(),
{
    if pieces.len() > 0 {
        lemma_nonblank_credits(pieces.drop_last(), role);
        let names = nonblank_trimmed(pieces);
        let prev = nonblank_trimmed(pieces.drop_last());
        let t = trim(pieces.last());
        if t.len() > 0 {
            assert(Seq::new(names.len(), |i: int| (names[i], role))
                =~= Seq::new(prev.len(), |i: int| (prev[i], role)) + seq![(t, role)]);
        } else {
            assert(Seq::new(names.len(), |i: int| (names[i], role)) =~= Seq::new(prev.len(), |i: int| (prev[i], role)));
        }
    }
}

proof fn lemma_role_authors_credits(value: Option<String>, role: Seq<char>)
    ensures
        role_authors(opt_view(value), role) == credits_of(value, role),
{
    match value {
        Some(v) => lemma_nonblank_credits(split_on(v@, ','), role),
        None => {
            assert(role_authors(opt_view(value), role) =~= Seq::<(Seq<char>, Seq<char>)>::empty());
        },
    }
}

/// A ComicInfo document credits exactly its listed people: every trimmed, non-blank
/// comma-separated name of each credit field (writer, penciller, inker, colorist, letterer,
/// cover artist, editor, translator) appears among the authors with that field's role, and
/// every author is such a name with its field's role; the authors come field by field in
/// that order, each field's names in list order.
pub proof fn law_comicinfo_credits_every_listed_name(d: ComicInfoDocument)
    ensures
        forall|a: (Seq<char>, Seq<char>)| #[trigger] comicinfo_author_list(d).contains(a)
            <==> credited_by_document(d, a),
        comicinfo_author_list(d) == credits_of(d.writer, "writer"@) + credits_of(d.penciller, "penciller"@)
            + credits_of(d.inker, "inker"@) + credits_of(d.colorist, "colorist"@)
            + credits_of(d.letterer, "letterer"@) + credits_of(d.cover_artist, "cover"@)
            + credits_of(d.editor, "editor"@) + credits_of(d.translator, "translator"@),
{
    lemma_role_authors_credits(d.writer, "writer"@);
    lemma_role_authors_credits(d.penciller, "penciller"@);
    lemma_role_authors_credits(d.inker, "inker"@);
    lemma_role_authors_credits(d.colorist, "colorist"@);
    lemma_role_authors_credits(d.letterer, "letterer"@);
    lemma_role_authors_credits(d.cover_artist, "cover"@);
    lemma_role_authors_credits(d.editor, "editor"@);
    lemma_role_authors_credits(d.translator, "translator"@);
    let w = role_authors(opt_view(d.writer), "writer"@);
    let pe = role_authors(opt_view(d.penciller), "penciller"@);
    let i = role_authors(opt_view(d.inker), "inker"@);
    let c = role_authors(opt_view(d.colorist), "colorist"@);
    let l = role_authors(opt_view(d.letterer), "letterer"@);
    let cv = role_authors(opt_view(d.cover_artist), "cover"@);
    let e = role_authors(opt_view(d.editor), "editor"@);
    let t = role_authors(opt_view(d.translator), "translator"@);
    lemma_role_authors_members(d.writer, "writer"@);
    lemma_role_authors_members(d.penciller, "penciller"@);
    lemma_role_authors_members(d.inker, "inker"@);
    lemma_role_authors_members(d.colorist, "colorist"@);
    lemma_role_authors_members(d.letterer, "letterer"@);
    lemma_role_authors_members(d.cover_artist, "cover"@);
    lemma_role_authors_members(d.editor, "editor"@);
    lemma_role_authors_members(d.translator, "translator"@);
    assert forall|a: (Seq<char>, Seq<char>)| #[trigger] comicinfo_author_list(d).contains(a)
        <==> credited_by_document(d, a) by {
        lemma_concat_contains(w, pe, a);
        lemma_concat_contains(w + pe, i, a);
        lemma_concat_contains(w + pe + i, c, a);
        lemma_concat_contains(w + pe + i + c, l, a);
        lemma_concat_contains(w + pe + i + c + l, cv, a);
        lemma_concat_contains(w + pe + i + c + l + cv, e, a);
        lemma_concat_contains(w + pe + i + c + l + cv + e, t, a);
    }
}

} // verus!

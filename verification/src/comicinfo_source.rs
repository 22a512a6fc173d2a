//! Where a book's ComicInfo.xml is found: which archives are searched, which entry is read,
//! what version a RAR archive is, and where a book lands in a ComicInfo reading list.
use vstd::prelude::*;
use crate::paths::last_index_of;
use crate::text::{chars_equal, chars_of, string_from_chars};

verus! {

/// The name of the metadata entry.
pub open spec fn comicinfo_name() -> Seq<char> {
    "ComicInfo.xml"@
}

/// The part of an entry name after its last `/`.
pub open spec fn last_segment(name: Seq<char>) -> Seq<char> {
    name.skip(last_index_of(name, '/') + 1)
}

proof fn lemma_last_slash(s: Seq<char>, i: int)
    requires
        0 <= i <= s.len(),
        i == 0 || s[i - 1] == '/',
        forall|k: int| i <= k < s.len() ==> s[k] != '/',
    ensures
        last_index_of(s, '/') == i - 1,
    decreases s.len(),
{
    if s.len() > i {
        assert(s.last() != '/');
        lemma_last_slash(s.drop_last(), i);
    }
}

fn text_is(s: &[char], expected: &str) -> (r: bool)
    ensures
        r == (s@ == expected@),
{
    let b = chars_of(expected);
    chars_equal(s, b.as_slice())
}

/// Whether an archive entry is a ComicInfo.xml in some directory (or at the root).
pub fn is_nested_comicinfo_entry(entry_name: &str) -> (r: bool)
    ensures
        r == (last_segment(entry_name@) == comicinfo_name()),
{
    let chars = chars_of(entry_name);
    let mut i: usize = chars.len();
    while i > 0 && chars[i - 1] != '/'
        invariant
            i <= chars@.len(),
            chars@ == entry_name@,
            forall|k: int| i <= k < chars@.len() ==> #[trigger] chars@[k] != '/',
        decreases i,
    {
        i -= 1;
    }
    let mut tail: Vec<char> = Vec::new();
    let mut k: usize = i;
    while k < chars.len()
        invariant
            i <= k <= chars@.len(),
            tail@ == chars@.subrange(i as int, k as int),
        decreases chars@.len() - k,
    {
        tail.push(chars[k]);
        k += 1;
        proof {
            assert(tail@ =~= chars@.subrange(i as int, k as int));
        }
    }
    proof {
        lemma_last_slash(entry_name@, i as int);
        assert(tail@ =~= entry_name@.skip(i as int));
    }
    text_is(tail.as_slice(), "ComicInfo.xml")
}

/// An archive entry name with Windows separators turned into `/`.
pub open spec fn slash_separated(name: Seq<char>) -> Seq<char> {
    Seq::new(name.len(), |i: int| if name[i] == '\\' { '/' } else { name[i] })
}

pub fn normalize_entry_name(name: &str) -> (r: String)
    ensures
        r@ == slash_separated(name@),
{
    let chars = chars_of(name);
    let mut out: Vec<char> = Vec::new();
    let mut i: usize = 0;
    while i < chars.len()
        invariant
            i <= chars@.len(),
            chars@ == name@,
            out@ == slash_separated(name@).take(i as int),
        decreases chars@.len() - i,
    {
        out.push(if chars[i] == '\\' { '/' } else { chars[i] });
        i += 1;
        proof {
            assert(out@ =~= slash_separated(name@).take(i as int));
        }
    }
    proof {
        assert(slash_separated(name@).take(name@.len() as int) =~= slash_separated(name@));
    }
    string_from_chars(out.as_slice())
}

/// Whether an entry name is `ComicInfo.xml` itself (`exact`) or a `ComicInfo.xml` in any
/// directory.
pub open spec fn entry_matches(n: Option<Seq<char>>, exact: bool) -> bool {
    match n {
        Some(name) => if exact {
            name == comicinfo_name()
        } else {
            last_segment(name) == comicinfo_name()
        },
        None => false,
    }
}

/// The first position whose name matches, skipping directories (`None`).
pub open spec fn first_entry_where(names: Seq<Option<Seq<char>>>, exact: bool) -> Option<int> {
    if exists|i: int| 0 <= i < names.len() && entry_matches(#[trigger] names[i], exact) {
        Some(choose|i: int| 0 <= i < names.len() && entry_matches(#[trigger] names[i], exact)
            && forall|j: int| 0 <= j < i ==> !entry_matches(#[trigger] names[j], exact))
    } else {
        None
    }
}

/// A matching position at or before `i` that no earlier position matches.
proof fn lemma_least_match(names: Seq<Option<Seq<char>>>, exact: bool, i: int) -> (m: int)
    requires
        0 <= i < names.len(),
        entry_matches(names[i], exact),
    ensures
        0 <= m <= i,
        entry_matches(names[m], exact),
        forall|j: int| 0 <= j < m ==> !entry_matches(#[trigger] names[j], exact),
    decreases i,
{
    if exists|j: int| 0 <= j < i && entry_matches(#[trigger] names[j], exact) {
        let j = choose|j: int| 0 <= j < i && entry_matches(#[trigger] names[j], exact);
        lemma_least_match(names, exact, j)
    } else {
        i
    }
}

/// [`first_entry_where`] is the least matching position, and there is none only where no
/// position matches.
pub proof fn lemma_first_entry_where(names: Seq<Option<Seq<char>>>, exact: bool)
    ensures
        match first_entry_where(names, exact) {
            Some(k) => 0 <= k < names.len() && entry_matches(names[k], exact)
                && forall|j: int| 0 <= j < k ==> !entry_matches(#[trigger] names[j], exact),
            None => forall|j: int| 0 <= j < names.len() ==> !entry_matches(#[trigger] names[j], exact),
        },
{
    if exists|i: int| 0 <= i < names.len() && entry_matches(#[trigger] names[i], exact) {
        let i = choose|i: int| 0 <= i < names.len() && entry_matches(#[trigger] names[i], exact);
        let m = lemma_least_match(names, exact, i);
        assert(0 <= m < names.len() && entry_matches(names[m], exact)
            && forall|j: int| 0 <= j < m ==> !entry_matches(#[trigger] names[j], exact));
    }
}

/// The entry to read ComicInfo from: the first entry named exactly `ComicInfo.xml`, else the
/// first `ComicInfo.xml` in a directory, else none.
pub open spec fn comicinfo_entry(names: Seq<Option<Seq<char>>>) -> Option<int> {
    let exact = first_entry_where(names, true);
    if exact is Some {
        exact
    } else {
        first_entry_where(names, false)
    }
}

pub open spec fn entry_views(names: Seq<Option<String>>) -> Seq<Option<Seq<char>>> {
    names.map_values(|n: Option<String>| match n {
        Some(s) => Some(s@),
        None => None,
    })
}

/// Picks the ComicInfo entry among the entries of an archive in their order (a directory is
/// `None`); see [`comicinfo_entry`].
pub fn select_comicinfo_entry(names: &Vec<Option<String>>) -> (r: Option<usize>)
    ensures
        match r {
            Some(i) => comicinfo_entry(entry_views(names@)) == Some(i as int),
            None => comicinfo_entry(entry_views(names@)) is None,
        },
{
    let ghost v = entry_views(names@);
    let mut fallback: Option<usize> = None;
    let mut i: usize = 0;
    while i < names.len()
        invariant
            i <= names@.len(),
            v == entry_views(names@),
            forall|j: int| 0 <= j < i ==> !entry_matches(#[trigger] v[j], true),
            match fallback {
                Some(f) => f < i && entry_matches(v[f as int], false)
                    && forall|j: int| 0 <= j < f ==> !entry_matches(#[trigger] v[j], false),
                None => forall|j: int| 0 <= j < i ==> !entry_matches(#[trigger] v[j], false),
            },
        decreases names@.len() - i,
    {
        if let Some(name) = &names[i] {
            assert(v[i as int] == Some(name@));
            let chars = chars_of(name.as_str());
            if text_is(chars.as_slice(), "ComicInfo.xml") {
                proof {
                    assert(entry_matches(v[i as int], true));
                    let w = choose|w: int| 0 <= w < v.len() && entry_matches(#[trigger] v[w], true)
                        && forall|j: int| 0 <= j < w ==> !entry_matches(#[trigger] v[j], true);
                    if w < i {
                    } else if w > i {
                    }
                    assert(w == i);
                }
                return Some(i);
            }
            if fallback.is_none() && is_nested_comicinfo_entry(name.as_str()) {
                fallback = Some(i);
            }
        }
        i += 1;
    }
    proof {
        assert(first_entry_where(v, true) is None);
        match fallback {
            Some(f) => {
                let w = choose|w: int| 0 <= w < v.len() && entry_matches(#[trigger] v[w], false)
                    && forall|j: int| 0 <= j < w ==> !entry_matches(#[trigger] v[j], false);
                assert(entry_matches(v[f as int], false));
                if w < f {
                } else if w > f {
                }
                assert(w == f);
            },
            None => {},
        }
    }
    fallback
}

/// The archive reader that a normalized media type calls for.
#[derive(Clone, Copy, Debug, PartialEq, Eq)]
pub enum ComicInfoSource {
    Zip,
    Rar,
    /// Books of this type carry no ComicInfo.xml.
    Unsupported,
}

pub open spec fn comicinfo_source_of(media_type: Seq<char>) -> ComicInfoSource {
    if media_type == "application/zip"@ || media_type == "application/vnd.comicbook+zip"@
        || media_type == "application/epub+zip"@ {
        ComicInfoSource::Zip
    } else if media_type == "application/vnd.comicbook-rar"@ || media_type == "application/x-rar-compressed"@
        || media_type == "application/x-rar-compressed; version=4"@
        || media_type == "application/x-rar-compressed; version=5"@ {
        ComicInfoSource::Rar
    } else {
        ComicInfoSource::Unsupported
    }
}

/// Where ComicInfo.xml is looked for in a book of this (normalized) media type: ZIP-based
/// comic books and EPUB books are read as ZIP archives, RAR comic books of any version as
/// RAR archives.
pub fn comicinfo_source(media_type: &str) -> (r: ComicInfoSource)
    ensures
        r == comicinfo_source_of(media_type@),
{
    let m = chars_of(media_type);
    let s = m.as_slice();
    if text_is(s, "application/zip") || text_is(s, "application/vnd.comicbook+zip") || text_is(s, "application/epub+zip") {
        ComicInfoSource::Zip
    } else if text_is(s, "application/vnd.comicbook-rar") || text_is(s, "application/x-rar-compressed")
        || text_is(s, "application/x-rar-compressed; version=4")
        || text_is(s, "application/x-rar-compressed; version=5") {
        ComicInfoSource::Rar
    } else {
        ComicInfoSource::Unsupported
    }
}

/// The signature that opens a RAR 5 archive.
pub open spec fn rar5_signature() -> Seq<u8> {
    seq![0x52u8, 0x61u8, 0x72u8, 0x21u8, 0x1Au8, 0x07u8, 0x01u8, 0x00u8]
}

/// The signature that opens a RAR 4 archive.
pub open spec fn rar4_signature() -> Seq<u8> {
    seq![0x52u8, 0x61u8, 0x72u8, 0x21u8, 0x1Au8, 0x07u8, 0x00u8]
}

pub open spec fn starts_with_bytes(s: Seq<u8>, prefix: Seq<u8>) -> bool {
    prefix.len() <= s.len() && s.take(prefix.len() as int) == prefix
}

pub open spec fn rar_media_type_of(header: Seq<u8>) -> Seq<char> {
    if starts_with_bytes(header, rar5_signature()) {
        "application/x-rar-compressed; version=5"@
    } else if starts_with_bytes(header, rar4_signature()) {
        "application/x-rar-compressed; version=4"@
    } else {
        "application/x-rar-compressed"@
    }
}

fn bytes_start_with(s: &[u8], prefix: &[u8]) -> (r: bool)
    ensures
        r == starts_with_bytes(s@, prefix@),
{
    if prefix.len() > s.len() {
        return false;
    }
    let mut i: usize = 0;
    while i < prefix.len()
        invariant
            i <= prefix@.len(),
            prefix@.len() <= s@.len(),
            forall|k: int| 0 <= k < i ==> s@[k] == prefix@[k],
        decreases prefix@.len() - i,
    {
        if s[i] != prefix[i] {
            return false;
        }
        i += 1;
    }
    proof {
        assert(s@.take(prefix@.len() as int) =~= prefix@);
    }
    true
}

/// The media type of a RAR archive whose first bytes are `header` (what could be read of the
/// first eight): version 5 or 4 by signature, else RAR of unknown version.
pub fn rar_media_type_for_header(header: &[u8]) -> (r: &'static str)
    ensures
        r@ == rar_media_type_of(header@),
{
    let rar5: [u8; 8] = [0x52, 0x61, 0x72, 0x21, 0x1A, 0x07, 0x01, 0x00];
    let rar4: [u8; 7] = [0x52, 0x61, 0x72, 0x21, 0x1A, 0x07, 0x00];
    proof {
        assert(rar5@ =~= rar5_signature());
        assert(rar4@ =~= rar4_signature());
    }
    if bytes_start_with(header, rar5.as_slice()) {
        "application/x-rar-compressed; version=5"
    } else if bytes_start_with(header, rar4.as_slice()) {
        "application/x-rar-compressed; version=4"
    } else {
        "application/x-rar-compressed"
    }
}

/// The position a book takes in a ComicInfo reading list: the requested one when it is given
/// and free, else the one after the list's highest position (`max_number` is -1 for an
/// empty list).
pub open spec fn readlist_number(max_number: int, requested_number: Option<int>, requested_taken: bool) -> int {
    match requested_number {
        Some(r) => if requested_taken { max_number + 1 } else { r },
        None => max_number + 1,
    }
}

pub fn comicinfo_readlist_number(max_number: i64, requested_number: Option<i64>, requested_taken: bool) -> (n: i64)
    requires
        max_number < i64::MAX,
    ensures
        n == readlist_number(max_number as int, match requested_number {
            Some(r) => Some(r as int),
            None => None,
        }, requested_taken),
{
    match requested_number {
        Some(r) => if requested_taken {
            max_number + 1
        } else {
            r
        },
        None => max_number + 1,
    }
}

} // verus!

//! Local artwork beside books and series: which image files count, and the media type
//! they are served with.
use vstd::prelude::*;
use crate::import::{artwork_suffix, is_artwork_extension, import_book_artwork_suffix, is_supported_book_artwork_extension};
use crate::paths::{extension, path_extension};
use crate::text::{ascii_lower, chars_equal, chars_of, eq_ignore_ascii_case, lower_chars, string_from_chars};

verus! {

/// The names (any ASCII case) that mark an image as a series' artwork.
pub open spec fn is_series_artwork_name(stem: Seq<char>) -> bool {
    let l = ascii_lower(stem);
    l == "cover"@ || l == "default"@ || l == "folder"@ || l == "poster"@ || l == "series"@
}

fn text_is(s: &[char], expected: &str) -> (r: bool)
    ensures
        r == (s@ == expected@),
{
    let b = chars_of(expected);
    chars_equal(s, b.as_slice())
}

pub fn series_local_artwork_name_matches(candidate_stem: &str) -> (r: bool)
    ensures
        r == is_series_artwork_name(candidate_stem@),
{
    let l = lower_chars(chars_of(candidate_stem).as_slice());
    let s = l.as_slice();
    text_is(s, "cover") || text_is(s, "default") || text_is(s, "folder") || text_is(s, "poster") || text_is(s, "series")
}

/// Whether a path has the extension of book artwork (see [`is_artwork_extension`]),
/// compared lower-cased.
pub fn supported_book_local_artwork_path(path: &str) -> (r: bool)
    ensures
        r == match extension(path@) {
            Some(e) => is_artwork_extension(ascii_lower(e)),
            None => false,
        },
{
    match path_extension(path) {
        Some(e) => {
            let l = string_from_chars(lower_chars(chars_of(e.as_str()).as_slice()).as_slice());
            is_supported_book_artwork_extension(l.as_str())
        },
        None => false,
    }
}

/// Whether an image named `candidate_stem` is artwork of the book named `book_base_name`:
/// the same name, or the name, a dash and digits, without regard to ASCII case.
pub fn book_local_artwork_name_matches(candidate_stem: &str, book_base_name: &str) -> (r: bool)
    ensures
        r == artwork_suffix(candidate_stem@, book_base_name@) is Some,
{
    import_book_artwork_suffix(candidate_stem, book_base_name).is_some()
}

/// The media type of a sidecar image, by its extension (lower-cased).
pub open spec fn sidecar_media_type(path: Seq<char>) -> Seq<char> {
    match extension(path) {
        Some(e) => {
            let l = ascii_lower(e);
            if l == "jpg"@ || l == "jpeg"@ || l == "tbn"@ {
                "image/jpeg"@
            } else if l == "png"@ {
                "image/png"@
            } else if l == "webp"@ {
                "image/webp"@
            } else if l == "gif"@ {
                "image/gif"@
            } else if l == "avif"@ {
                "image/avif"@
            } else {
                "application/octet-stream"@
            }
        },
        None => "application/octet-stream"@,
    }
}

pub fn media_type_from_sidecar_path(path: &str) -> (r: &'static str)
    ensures
        r@ == sidecar_media_type(path@),
{
    match path_extension(path) {
        Some(e) => {
            let l = lower_chars(chars_of(e.as_str()).as_slice());
            let s = l.as_slice();
            if text_is(s, "jpg") || text_is(s, "jpeg") || text_is(s, "tbn") {
                "image/jpeg"
            } else if text_is(s, "png") {
                "image/png"
            } else if text_is(s, "webp") {
                "image/webp"
            } else if text_is(s, "gif") {
                "image/gif"
            } else if text_is(s, "avif") {
                "image/avif"
            } else {
                "application/octet-stream"
            }
        },
        None => "application/octet-stream",
    }
}

/// Whether imported local artwork becomes the selected thumbnail: not when the caller
/// asked not to; otherwise when nothing is selected yet or only a generated thumbnail is.
pub fn should_select_local_artwork(mark_selected: bool, selected_is_generated: Option<bool>) -> (r: bool)
    ensures
        r == (mark_selected && match selected_is_generated {
            None => true,
            Some(g) => g,
        }),
{
    if !mark_selected {
        return false;
    }
    match selected_is_generated {
        None => true,
        Some(g) => g,
    }
}

} // verus!

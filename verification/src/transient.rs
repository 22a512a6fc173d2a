//! Books that are opened without being imported: which files qualify, and the media type
//! reported for them.
use vstd::prelude::*;
use crate::paths::extension;
use crate::paths::path_extension;
use crate::text::{ascii_lower, chars_equal, chars_of, eq_ignore_ascii_case};

verus! {

/// The media types that are reported as they are; any other is reported as
/// `application/octet-stream`.
pub open spec fn is_known_transient_media_type(m: Seq<char>) -> bool {
    ||| m == "image/jpeg"@
    ||| m == "image/png"@
    ||| m == "image/gif"@
    ||| m == "image/webp"@
    ||| m == "image/avif"@
    ||| m == "application/pdf"@
    ||| m == "application/epub+zip"@
    ||| m == "application/x-mobipocket-ebook"@
    ||| m == "application/zip"@
    ||| m == "application/vnd.comicbook-rar"@
    ||| m == "application/x-rar-compressed"@
    ||| m == "application/x-rar-compressed; version=4"@
    ||| m == "application/x-rar-compressed; version=5"@
}

pub open spec fn reported_media_type(m: Seq<char>) -> Seq<char> {
    if is_known_transient_media_type(m) {
        m
    } else {
        "application/octet-stream"@
    }
}

fn text_is(s: &str, expected: &str) -> (r: bool)
    ensures
        r == (s@ == expected@),
{
    let a = chars_of(s);
    let b = chars_of(expected);
    chars_equal(a.as_slice(), b.as_slice())
}

/// The media type reported for a transient book whose type was detected as `media_type`:
/// the type itself when it is one of the known ones, `application/octet-stream` otherwise.
pub fn known_transient_media_type(media_type: &str) -> (r: &'static str)
    ensures
        r@ == reported_media_type(media_type@),
{
    if text_is(media_type, "image/jpeg") {
        "image/jpeg"
    } else if text_is(media_type, "image/png") {
        "image/png"
    } else if text_is(media_type, "image/gif") {
        "image/gif"
    } else if text_is(media_type, "image/webp") {
        "image/webp"
    } else if text_is(media_type, "image/avif") {
        "image/avif"
    } else if text_is(media_type, "application/pdf") {
        "application/pdf"
    } else if text_is(media_type, "application/epub+zip") {
        "application/epub+zip"
    } else if text_is(media_type, "application/x-mobipocket-ebook") {
        "application/x-mobipocket-ebook"
    } else if text_is(media_type, "application/zip") {
        "application/zip"
    } else if text_is(media_type, "application/vnd.comicbook-rar") {
        "application/vnd.comicbook-rar"
    } else if text_is(media_type, "application/x-rar-compressed") {
        "application/x-rar-compressed"
    } else if text_is(media_type, "application/x-rar-compressed; version=4") {
        "application/x-rar-compressed; version=4"
    } else if text_is(media_type, "application/x-rar-compressed; version=5") {
        "application/x-rar-compressed; version=5"
    } else {
        "application/octet-stream"
    }
}

/// The media type reported for a transient book: the stored `media_type` when there is one,
/// else the type that the file's path suggests (`inferred_from_path`, `None` when the path
/// suggests none, which counts as `application/octet-stream`), reported as
/// [`known_transient_media_type`] reports it.
pub fn transient_book_content_type(media_type: &str, inferred_from_path: Option<&str>) -> (r: &'static str)
    ensures
        media_type@.len() > 0 ==> r@ == reported_media_type(media_type@),
        media_type@.len() == 0 ==> r@ == match inferred_from_path {
            Some(t) => reported_media_type(t@),
            None => reported_media_type("application/octet-stream"@),
        },
{
    if !media_type.is_empty() {
        return known_transient_media_type(media_type);
    }
    match inferred_from_path {
        Some(t) => known_transient_media_type(t),
        None => known_transient_media_type("application/octet-stream"),
    }
}

/// The media type of a transient book known only by its path (see
/// [`transient_book_content_type`]).
pub fn transient_book_media_type(inferred_from_path: Option<&str>) -> (r: String)
    ensures
        r@ == match inferred_from_path {
            Some(t) => reported_media_type(t@),
            None => reported_media_type("application/octet-stream"@),
        },
{
    proof {
        reveal_strlit("");
    }
    String::from_str(transient_book_content_type("", inferred_from_path))
}

/// The extensions of files that can be opened as transient books, compared without regard
/// to ASCII case.
pub open spec fn is_transient_book_extension(e: Seq<char>) -> bool {
    let l = ascii_lower(e);
    ||| l == ascii_lower("cbz"@)
    ||| l == ascii_lower("cbr"@)
    ||| l == ascii_lower("zip"@)
    ||| l == ascii_lower("rar"@)
    ||| l == ascii_lower("pdf"@)
    ||| l == ascii_lower("epub"@)
    ||| l == ascii_lower("mobi"@)
    ||| l == ascii_lower("jpg"@)
    ||| l == ascii_lower("jpeg"@)
    ||| l == ascii_lower("png"@)
    ||| l == ascii_lower("gif"@)
    ||| l == ascii_lower("webp"@)
    ||| l == ascii_lower("avif"@)
}

/// Whether the file at `path` has the extension of a comic archive, a PDF, an EPUB or MOBI
/// book, or an image, so that it can be opened as a transient book.
pub fn is_recognized_transient_book_file(path: &str) -> (r: bool)
    ensures
        r == match extension(path@) {
            Some(e) => is_transient_book_extension(e),
            None => false,
        },
{
    let ext = match path_extension(path) {
        Some(ext) => ext,
        None => return false,
    };
    let e = ext.as_str();
    eq_ignore_ascii_case(e, "cbz") || eq_ignore_ascii_case(e, "cbr")
        || eq_ignore_ascii_case(e, "zip") || eq_ignore_ascii_case(e, "rar")
        || eq_ignore_ascii_case(e, "pdf") || eq_ignore_ascii_case(e, "epub")
        || eq_ignore_ascii_case(e, "mobi") || eq_ignore_ascii_case(e, "jpg")
        || eq_ignore_ascii_case(e, "jpeg") || eq_ignore_ascii_case(e, "png")
        || eq_ignore_ascii_case(e, "gif") || eq_ignore_ascii_case(e, "webp")
        || eq_ignore_ascii_case(e, "avif")
}

} // verus!

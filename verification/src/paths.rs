//! File-system paths held as strings, with the meaning that `std::path::Path` gives them on
//! Unix: `/` separates components, empty and `.` components after the first are ignored.
use vstd::prelude::*;
use vstd::utf8::{decode_utf8, valid_utf8};
use crate::text::{chars_of, string_from_chars};

verus! {

/// `s` without trailing separators and trailing `.` components; a lone root `/` stays.
pub open spec fn trim_trailing_separators(s: Seq<char>) -> Seq<char>
    decreases s.len(),
{
    if s.len() > 1 && s.last() == '/' {
        trim_trailing_separators(s.drop_last())
    } else if s.len() > 1 && s.last() == '.' && s[s.len() - 2] == '/' {
        trim_trailing_separators(s.drop_last())
    } else {
        s
    }
}

/// The index of the last `/` in `s`, or -1.
pub open spec fn last_index_of(s: Seq<char>, c: char) -> int
    decreases s.len(),
{
    if s.len() == 0 {
        -1
    } else if s.last() == c {
        s.len() - 1
    } else {
        last_index_of(s.drop_last(), c)
    }
}

/// The last component of the path, as written (possibly empty, `.` or `..`).
pub open spec fn last_component(s: Seq<char>) -> Seq<char> {
    let t = trim_trailing_separators(s);
    t.skip(last_index_of(t, '/') + 1)
}

/// Everything before the last component.
pub open spec fn before_last_component(s: Seq<char>) -> Seq<char> {
    let t = trim_trailing_separators(s);
    t.take(last_index_of(t, '/') + 1)
}

/// `Path::file_name`: the last component, unless the path ends in the root, `.` or `..`.
pub open spec fn file_name(s: Seq<char>) -> Option<Seq<char>> {
    let c = last_component(s);
    if c.len() == 0 || c == seq!['.'] || c == seq!['.', '.'] {
        None
    } else {
        Some(c)
    }
}

/// `Path::parent`: the path without its last component, or `None` for the root and the
/// empty path.
pub open spec fn parent(s: Seq<char>) -> Option<Seq<char>> {
    if last_component(s).len() == 0 {
        None
    } else {
        Some(trim_trailing_separators(before_last_component(s)))
    }
}

/// The part of a file name before its last `.`, unless that `.` starts the name.
pub open spec fn name_stem(name: Seq<char>) -> Seq<char> {
    let i = last_index_of(name, '.');
    if i <= 0 {
        name
    } else {
        name.take(i)
    }
}

/// The part of a file name after its last `.`, unless that `.` starts the name.
pub open spec fn name_extension(name: Seq<char>) -> Option<Seq<char>> {
    let i = last_index_of(name, '.');
    if i <= 0 {
        None
    } else {
        Some(name.skip(i + 1))
    }
}

/// `Path::file_stem`.
pub open spec fn file_stem(s: Seq<char>) -> Option<Seq<char>> {
    match file_name(s) {
        Some(name) => Some(name_stem(name)),
        None => None,
    }
}

/// `Path::extension`.
pub open spec fn extension(s: Seq<char>) -> Option<Seq<char>> {
    match file_name(s) {
        Some(name) => name_extension(name),
        None => None,
    }
}

/// `Path::join`: an absolute `rest` replaces `base`; otherwise one separator joins them.
pub open spec fn join(base: Seq<char>, rest: Seq<char>) -> Seq<char> {
    if rest.len() > 0 && rest[0] == '/' {
        rest
    } else if base.len() == 0 || base.last() == '/' {
        base + rest
    } else {
        base + seq!['/'] + rest
    }
}

/// The length of `trim_trailing_separators(chars)`.
fn trimmed_length(chars: &[char]) -> (end: usize)
    ensures
        end <= chars@.len(),
        trim_trailing_separators(chars@) == chars@.take(end as int),
{
    let mut end = chars.len();
    proof {
        assert(chars@.take(end as int) =~= chars@);
    }
    while end > 1 && (chars[end - 1] == '/' || (chars[end - 1] == '.' && chars[end - 2] == '/'))
        invariant
            end <= chars@.len(),
            trim_trailing_separators(chars@) == trim_trailing_separators(chars@.take(end as int)),
        decreases end,
    {
        proof {
            assert(chars@.take(end as int).drop_last() =~= chars@.take(end - 1));
        }
        end = end - 1;
    }
    end
}

/// The position just after the last `c` in the first `end` characters, or 0.
fn after_last_index_before(chars: &[char], end: usize, c: char) -> (i: usize)
    requires
        end <= chars@.len(),
    ensures
        i == last_index_of(chars@.take(end as int), c) + 1,
{
    let mut k = end;
    while k > 0
        invariant
            k <= end <= chars@.len(),
            last_index_of(chars@.take(end as int), c) == last_index_of(chars@.take(k as int), c),
        decreases k,
    {
        proof {
            assert(chars@.take(k as int).drop_last() =~= chars@.take(k - 1));
        }
        if chars[k - 1] == c {
            return k;
        }
        k = k - 1;
    }
    0
}

fn copy_range(chars: &[char], from: usize, to: usize) -> (r: Vec<char>)
    requires
        from <= to <= chars@.len(),
    ensures
        r@ == chars@.subrange(from as int, to as int),
{
    let mut out: Vec<char> = Vec::new();
    let mut i = from;
    while i < to
        invariant
            from <= i <= to <= chars@.len(),
            out@ == chars@.subrange(from as int, i as int),
        decreases to - i,
    {
        out.push(chars[i]);
        i = i + 1;
        proof {
            assert(out@ =~= chars@.subrange(from as int, i as int));
        }
    }
    out
}

/// The last component and what precedes it, as character ranges.
fn split_last_component(chars: &[char]) -> (r: (Vec<char>, Vec<char>))
    ensures
        r.0@ == before_last_component(chars@),
        r.1@ == last_component(chars@),
{
    let end = trimmed_length(chars);
    let start = after_last_index_before(chars, end, '/');
    proof {
        let t = chars@.take(end as int);
        lemma_last_index_bounds(t, '/');
        assert(t.take(start as int) =~= chars@.subrange(0, start as int));
        assert(t.skip(start as int) =~= chars@.subrange(start as int, end as int));
    }
    (copy_range(chars, 0, start), copy_range(chars, start, end))
}

proof fn lemma_last_index_bounds(s: Seq<char>, c: char)
    ensures
        -1 <= last_index_of(s, c) < s.len(),
        last_index_of(s, c) >= 0 ==> s[last_index_of(s, c)] == c,
    decreases s.len(),
{
    if s.len() > 0 && s.last() != c {
        lemma_last_index_bounds(s.drop_last(), c);
    }
}

proof fn lemma_trim_trailing_len(s: Seq<char>)
    ensures
        trim_trailing_separators(s).len() <= s.len(),
    decreases s.len(),
{
    if s.len() > 1 && (s.last() == '/' || (s.last() == '.' && s[s.len() - 2] == '/')) {
        lemma_trim_trailing_len(s.drop_last());
    }
}

fn is_dot_or_dot_dot(c: &[char]) -> (r: bool)
    ensures
        r == (c@ == seq!['.'] || c@ == seq!['.', '.']),
{
    let r = (c.len() == 1 && c[0] == '.') || (c.len() == 2 && c[0] == '.' && c[1] == '.');
    proof {
        if c@.len() == 1 && c@[0] == '.' {
            assert(c@ =~= seq!['.']);
        }
        if c@.len() == 2 && c@[0] == '.' && c@[1] == '.' {
            assert(c@ =~= seq!['.', '.']);
        }
    }
    r
}

/// `Path::file_name` on a character sequence.
pub fn file_name_chars(chars: &[char]) -> (r: Option<Vec<char>>)
    ensures
        match r {
            Some(name) => file_name(chars@) == Some(name@),
            None => file_name(chars@) is None,
        },
{
    let (_before, last) = split_last_component(chars);
    if last.len() == 0 || is_dot_or_dot_dot(last.as_slice()) {
        None
    } else {
        Some(last)
    }
}

/// `Path::file_name` of a path string.
pub fn path_file_name(path: &str) -> (r: Option<String>)
    ensures
        match r {
            Some(name) => file_name(path@) == Some(name@),
            None => file_name(path@) is None,
        },
{
    let chars = chars_of(path);
    match file_name_chars(chars.as_slice()) {
        Some(name) => Some(string_from_chars(name.as_slice())),
        None => None,
    }
}

} // verus!

verus! {

/// The stem and extension of a file name, split at its last `.`.
pub fn split_name_at_dot(name: &[char]) -> (r: (Vec<char>, Option<Vec<char>>))
    ensures
        r.0@ == name_stem(name@),
        match r.1 {
            Some(ext) => name_extension(name@) == Some(ext@),
            None => name_extension(name@) is None,
        },
{
    let after = after_last_index_before(name, name.len(), '.');
    proof {
        assert(name@.take(name@.len() as int) =~= name@);
        lemma_last_index_bounds(name@, '.');
    }
    if after <= 1 {
        (copy_range(name, 0, name.len()), None)
    } else {
        proof {
            assert(name@.take(after - 1) =~= name@.subrange(0, after - 1));
            assert(name@.skip(after as int) =~= name@.subrange(after as int, name@.len() as int));
        }
        (copy_range(name, 0, after - 1), Some(copy_range(name, after, name.len())))
    }
}

/// `Path::file_stem` on a character sequence.
pub fn file_stem_chars(chars: &[char]) -> (r: Option<Vec<char>>)
    ensures
        match r {
            Some(stem) => file_stem(chars@) == Some(stem@),
            None => file_stem(chars@) is None,
        },
{
    match file_name_chars(chars) {
        Some(name) => {
            let (stem, _ext) = split_name_at_dot(name.as_slice());
            Some(stem)
        },
        None => None,
    }
}

/// `Path::extension` on a character sequence.
pub fn extension_chars(chars: &[char]) -> (r: Option<Vec<char>>)
    ensures
        match r {
            Some(ext) => extension(chars@) == Some(ext@),
            None => extension(chars@) is None,
        },
{
    match file_name_chars(chars) {
        Some(name) => {
            let (_stem, ext) = split_name_at_dot(name.as_slice());
            ext
        },
        None => None,
    }
}

/// `Path::file_stem` of a path string.
pub fn path_file_stem(path: &str) -> (r: Option<String>)
    ensures
        match r {
            Some(stem) => file_stem(path@) == Some(stem@),
            None => file_stem(path@) is None,
        },
{
    let chars = chars_of(path);
    match file_stem_chars(chars.as_slice()) {
        Some(stem) => Some(string_from_chars(stem.as_slice())),
        None => None,
    }
}

/// `Path::extension` of a path string.
pub fn path_extension(path: &str) -> (r: Option<String>)
    ensures
        match r {
            Some(ext) => extension(path@) == Some(ext@),
            None => extension(path@) is None,
        },
{
    let chars = chars_of(path);
    match extension_chars(chars.as_slice()) {
        Some(ext) => Some(string_from_chars(ext.as_slice())),
        None => None,
    }
}

/// `Path::parent` of a path string.
pub fn path_parent(path: &str) -> (r: Option<String>)
    ensures
        match r {
            Some(p) => parent(path@) == Some(p@),
            None => parent(path@) is None,
        },
{
    let chars = chars_of(path);
    let (before, last) = split_last_component(chars.as_slice());
    if last.len() == 0 {
        return None;
    }
    let end = trimmed_length(before.as_slice());
    let kept = copy_range(before.as_slice(), 0, end);
    proof {
        assert(before@.take(end as int) =~= before@.subrange(0, end as int));
    }
    Some(string_from_chars(kept.as_slice()))
}

/// `Path::join` of two path strings.
pub fn path_join(base: &str, rest: &str) -> (r: String)
    ensures
        r@ == join(base@, rest@),
{
    let base_chars = chars_of(base);
    let rest_chars = chars_of(rest);
    if rest_chars.len() > 0 && rest_chars[0] == '/' {
        return string_from_chars(rest_chars.as_slice());
    }
    let mut out = base_chars;
    if !(out.len() == 0 || out[out.len() - 1] == '/') {
        out.push('/');
    }
    let mut i: usize = 0;
    let ghost start = out@;
    while i < rest_chars.len()
        invariant
            i <= rest_chars@.len(),
            out@ == start + rest_chars@.take(i as int),
        decreases rest_chars@.len() - i,
    {
        out.push(rest_chars[i]);
        i = i + 1;
        proof {
            assert(out@ =~= start + rest_chars@.take(i as int));
        }
    }
    proof {
        assert(rest_chars@.take(rest_chars@.len() as int) =~= rest_chars@);
        if base@.len() == 0 || base@.last() == '/' {
            assert(out@ =~= base@ + rest@);
        } else {
            assert(out@ =~= base@ + seq!['/'] + rest@);
        }
    }
    string_from_chars(out.as_slice())
}


/// A path's bytes, each read as the character with the same code. `/` and `.` are ASCII,
/// and a byte of a multi-byte UTF-8 sequence is never ASCII, so components and dots are
/// found in these characters exactly where `std::path` finds them in the bytes on Unix.
pub open spec fn byte_chars(b: Seq<u8>) -> Seq<char> {
    b.map_values(|x: u8| x as char)
}

/// The bytes back from characters of [`byte_chars`].
pub open spec fn char_bytes(c: Seq<char>) -> Seq<u8> {
    c.map_values(|x: char| (x as u32) as u8)
}

/// The text of bytes that are valid UTF-8 (what `OsStr::to_str` gives).
pub open spec fn utf8_text(b: Seq<u8>) -> Option<Seq<char>> {
    if valid_utf8(b) {
        Some(decode_utf8(b))
    } else {
        None
    }
}

/// The text of a part of a path found by a character-level path function, when it is
/// valid UTF-8.
pub open spec fn part_text(part: Option<Seq<char>>) -> Option<Seq<char>> {
    match part {
        Some(p) => utf8_text(char_bytes(p)),
        None => None,
    }
}

/// `Path::file_name` of a path given as bytes, then `OsStr::to_str`.
pub open spec fn file_name_text(b: Seq<u8>) -> Option<Seq<char>> {
    part_text(file_name(byte_chars(b)))
}

/// `Path::file_stem` of a path given as bytes, then `OsStr::to_str`.
pub open spec fn file_stem_text(b: Seq<u8>) -> Option<Seq<char>> {
    part_text(file_stem(byte_chars(b)))
}

/// `Path::extension` of a path given as bytes, then `OsStr::to_str`.
pub open spec fn extension_text(b: Seq<u8>) -> Option<Seq<char>> {
    part_text(extension(byte_chars(b)))
}

/// `str::from_utf8`: the text of the bytes, or `None` where they are not valid UTF-8.
#[verifier::external_body]
fn text_of_utf8(bytes: &[u8]) -> (r: Option<String>)
    ensures
        match r {
            Some(s) => utf8_text(bytes@) == Some(s@),
            None => utf8_text(bytes@) is None,
        },
{
    std::str::from_utf8(bytes).ok().map(String::from)
}

/// What `String::from_utf8_lossy` gives for these bytes: each invalid sequence replaced by
/// U+FFFD.
pub uninterp spec fn utf8_lossy(b: Seq<u8>) -> Seq<char>;

/// `String::from_utf8_lossy`, the text that `Path::to_string_lossy` and `Path::display`
/// show of a path; for valid UTF-8 it is the decoded text.
#[verifier::external_body]
pub(crate) fn lossy_text(bytes: &[u8]) -> (r: String)
    ensures
        r@ == utf8_lossy(bytes@),
        valid_utf8(bytes@) ==> r@ == decode_utf8(bytes@),
{
    String::from_utf8_lossy(bytes).into_owned()
}

fn byte_chars_of(bytes: &[u8]) -> (r: Vec<char>)
    ensures
        r@ == byte_chars(bytes@),
{
    let mut r: Vec<char> = Vec::new();
    let mut i: usize = 0;
    while i < bytes.len()
        invariant
            i <= bytes@.len(),
            r@ == byte_chars(bytes@.take(i as int)),
        decreases bytes@.len() - i,
    {
        r.push(bytes[i] as char);
        i = i + 1;
        proof {
            assert(byte_chars(bytes@.take(i as int)) =~= byte_chars(bytes@.take(i as int - 1)).push(bytes@[i as int - 1] as char));
        }
    }
    proof {
        assert(bytes@.take(bytes@.len() as int) =~= bytes@);
    }
    r
}

fn char_bytes_of(chars: &[char]) -> (r: Vec<u8>)
    ensures
        r@ == char_bytes(chars@),
{
    let mut r: Vec<u8> = Vec::new();
    let mut i: usize = 0;
    while i < chars.len()
        invariant
            i <= chars@.len(),
            r@ == char_bytes(chars@.take(i as int)),
        decreases chars@.len() - i,
    {
        r.push((chars[i] as u32) as u8);
        i = i + 1;
        proof {
            assert(char_bytes(chars@.take(i as int)) =~= char_bytes(chars@.take(i as int - 1)).push((chars@[i as int - 1] as u32) as u8));
        }
    }
    proof {
        assert(chars@.take(chars@.len() as int) =~= chars@);
    }
    r
}

fn part_text_of(part: Option<Vec<char>>) -> (r: Option<String>)
    ensures
        opt_text(r) == part_text(opt_chars(part)),
{
    match part {
        Some(p) => {
            let b = char_bytes_of(p.as_slice());
            text_of_utf8(b.as_slice())
        },
        None => None,
    }
}

pub open spec fn opt_text(o: Option<String>) -> Option<Seq<char>> {
    match o {
        Some(s) => Some(s@),
        None => None,
    }
}

pub open spec fn opt_chars(o: Option<Vec<char>>) -> Option<Seq<char>> {
    match o {
        Some(v) => Some(v@),
        None => None,
    }
}

/// `Path::file_name` of a path given as bytes, as text when it is valid UTF-8.
pub fn file_name_of_bytes(path: &[u8]) -> (r: Option<String>)
    ensures
        opt_text(r) == file_name_text(path@),
{
    let chars = byte_chars_of(path);
    part_text_of(file_name_chars(chars.as_slice()))
}

/// `Path::file_stem` of a path given as bytes, as text when it is valid UTF-8.
pub fn file_stem_of_bytes(path: &[u8]) -> (r: Option<String>)
    ensures
        opt_text(r) == file_stem_text(path@),
{
    let chars = byte_chars_of(path);
    part_text_of(file_stem_chars(chars.as_slice()))
}

/// `Path::extension` of a path given as bytes, as text when it is valid UTF-8.
pub fn extension_of_bytes(path: &[u8]) -> (r: Option<String>)
    ensures
        opt_text(r) == extension_text(path@),
{
    let chars = byte_chars_of(path);
    part_text_of(extension_chars(chars.as_slice()))
}

} // verus!

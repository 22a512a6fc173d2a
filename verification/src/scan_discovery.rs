//! Decisions a library scan makes about paths: what is hidden, excluded, a book or a
//! sidecar, and which identifiers series and books receive.
use vstd::prelude::*;
use crate::ids::{hashed_id, hashed_id_for};
use crate::paths::{
    extension_of_bytes, extension_text, file_name_of_bytes, file_name_text, file_stem_of_bytes, file_stem_text, join,
    lossy_text, path_join, utf8_lossy,
};
use vstd::string::StringExecFns;
use crate::text::{
    ascii_lower, chars_contain, chars_of, chars_start_with, contains_run, has_prefix, is_ascii_digit,
    lower_chars, split_chars, split_on, string_from_chars, to_ascii_lowercase, lemma_split_on_nonempty,
    eq_ignore_ascii_case,
};

verus! {

/// How a library is scanned.
#[derive(Clone, Debug)]
pub struct LibraryScanConfig {
    pub root: String,
    pub scan_cbx: bool,
    pub scan_pdf: bool,
    pub scan_epub: bool,
    pub scan_force_modified_time: bool,
    pub oneshots_directory: Option<String>,
    pub scan_directory_exclusions: Vec<String>,
}

/// Why a library scan failed.
#[derive(Clone, Debug)]
pub enum ScanError {
    /// The path has no file name (it is empty, the root, or ends in `..`).
    NoFileName(String),
    /// The path has no file stem.
    NoFileStem(String),
    /// The timestamp of the file at this path does not fit in an `i64` of seconds.
    TimestampOutOfRange(String),
    /// The file at this path reported neither a creation nor a modification time.
    TimestampMissing(String),
    /// The library root could not be inspected (path, reason).
    RootInspection(String, String),
    /// A series directory's metadata could not be read (path, reason).
    SeriesDirectoryMetadata(String, String),
    /// A series directory could not be listed (path, reason).
    DirectoryListing(String, String),
    /// A directory of the library could not be listed while looking for series (path,
    /// reason).
    DirectoryScan(String, String),
    /// A directory entry could not be read (directory path, reason).
    DirectoryEntry(String, String),
    /// A file's metadata could not be read (path, reason).
    EntryMetadata(String, String),
}

/// The ghost form of a [`ScanError`].
pub enum ScanFailure {
    NoFileName(Seq<char>),
    NoFileStem(Seq<char>),
    TimestampOutOfRange(Seq<char>),
    TimestampMissing(Seq<char>),
    RootInspection(Seq<char>, Seq<char>),
    SeriesDirectoryMetadata(Seq<char>, Seq<char>),
    DirectoryListing(Seq<char>, Seq<char>),
    DirectoryScan(Seq<char>, Seq<char>),
    DirectoryEntry(Seq<char>, Seq<char>),
    EntryMetadata(Seq<char>, Seq<char>),
}

impl View for ScanError {
    type V = ScanFailure;

    open spec fn view(&self) -> ScanFailure {
        match self {
            ScanError::NoFileName(p) => ScanFailure::NoFileName(p@),
            ScanError::NoFileStem(p) => ScanFailure::NoFileStem(p@),
            ScanError::TimestampOutOfRange(p) => ScanFailure::TimestampOutOfRange(p@),
            ScanError::TimestampMissing(p) => ScanFailure::TimestampMissing(p@),
            ScanError::RootInspection(p, m) => ScanFailure::RootInspection(p@, m@),
            ScanError::SeriesDirectoryMetadata(p, m) => ScanFailure::SeriesDirectoryMetadata(p@, m@),
            ScanError::DirectoryListing(p, m) => ScanFailure::DirectoryListing(p@, m@),
            ScanError::DirectoryScan(p, m) => ScanFailure::DirectoryScan(p@, m@),
            ScanError::DirectoryEntry(p, m) => ScanFailure::DirectoryEntry(p@, m@),
            ScanError::EntryMetadata(p, m) => ScanFailure::EntryMetadata(p@, m@),
        }
    }
}

/// The human-readable description of a scan failure.
pub open spec fn scan_failure_message(f: ScanFailure) -> Seq<char> {
    match f {
        ScanFailure::NoFileName(p) => "path '"@ + p + "' has no valid UTF-8 file name"@,
        ScanFailure::NoFileStem(p) => "path '"@ + p + "' has no valid UTF-8 file stem"@,
        ScanFailure::TimestampOutOfRange(p) => "filesystem timestamp for '"@ + p + "' is outside i64 range"@,
        ScanFailure::TimestampMissing(p) => "failed to read created or modified timestamp for '"@ + p + "'"@,
        ScanFailure::RootInspection(p, m) => "failed to inspect library scan root '"@ + p + "': "@ + m,
        ScanFailure::SeriesDirectoryMetadata(p, m) => "failed to read series directory metadata for '"@ + p + "': "@ + m,
        ScanFailure::DirectoryListing(p, m) => "failed to scan series directory '"@ + p + "': "@ + m,
        ScanFailure::DirectoryScan(p, m) => "failed to scan directory '"@ + p + "': "@ + m,
        ScanFailure::DirectoryEntry(p, m) => "failed to read directory entry in '"@ + p + "': "@ + m,
        ScanFailure::EntryMetadata(p, m) => "failed to read metadata for '"@ + p + "': "@ + m,
    }
}

impl ScanError {
    /// A human-readable description of the failure.
    pub fn message(&self) -> (text: String)
        ensures
            text@ == scan_failure_message(self@),
    {
        let mut text = String::new();
        match self {
            ScanError::NoFileName(path) => {
                text.append("path '");
                text.append(path.as_str());
                text.append("' has no valid UTF-8 file name");
            },
            ScanError::NoFileStem(path) => {
                text.append("path '");
                text.append(path.as_str());
                text.append("' has no valid UTF-8 file stem");
            },
            ScanError::TimestampOutOfRange(path) => {
                text.append("filesystem timestamp for '");
                text.append(path.as_str());
                text.append("' is outside i64 range");
            },
            ScanError::TimestampMissing(path) => {
                text.append("failed to read created or modified timestamp for '");
                text.append(path.as_str());
                text.append("'");
            },
            ScanError::RootInspection(path, reason) => {
                text.append("failed to inspect library scan root '");
                text.append(path.as_str());
                text.append("': ");
                text.append(reason.as_str());
            },
            ScanError::SeriesDirectoryMetadata(path, reason) => {
                text.append("failed to read series directory metadata for '");
                text.append(path.as_str());
                text.append("': ");
                text.append(reason.as_str());
            },
            ScanError::DirectoryListing(path, reason) => {
                text.append("failed to scan series directory '");
                text.append(path.as_str());
                text.append("': ");
                text.append(reason.as_str());
            },
            ScanError::DirectoryScan(path, reason) => {
                text.append("failed to scan directory '");
                text.append(path.as_str());
                text.append("': ");
                text.append(reason.as_str());
            },
            ScanError::DirectoryEntry(path, reason) => {
                text.append("failed to read directory entry in '");
                text.append(path.as_str());
                text.append("': ");
                text.append(reason.as_str());
            },
            ScanError::EntryMetadata(path, reason) => {
                text.append("failed to read metadata for '");
                text.append(path.as_str());
                text.append("': ");
                text.append(reason.as_str());
            },
        }
        text
    }
}

/// Whether the path's file name is text that starts with a dot.
pub open spec fn is_hidden(path: Seq<u8>) -> bool {
    match file_name_text(path) {
        Some(name) => name.len() > 0 && name[0] == '.',
        None => false,
    }
}

/// Whether a scan configured by `scan_cbx`, `scan_pdf` and `scan_epub` picks up a file with
/// this path as a book (its extension must be text).
pub open spec fn is_supported_book(path: Seq<u8>, scan_cbx: bool, scan_pdf: bool, scan_epub: bool) -> bool {
    match extension_text(path) {
        Some(ext) => {
            let e = ascii_lower(ext);
            if e == seq!['c', 'b', 'z'] || e == seq!['z', 'i', 'p'] || e == seq!['c', 'b', 'r']
                || e == seq!['r', 'a', 'r'] {
                scan_cbx
            } else if e == seq!['p', 'd', 'f'] {
                scan_pdf
            } else if e == seq!['e', 'p', 'u', 'b'] || e == seq!['m', 'o', 'b', 'i'] {
                scan_epub
            } else {
                false
            }
        },
        None => false,
    }
}

/// Whether the last component of `path` is text that starts with a dot.
pub fn is_hidden_path(path: &[u8]) -> (r: bool)
    ensures
        r == is_hidden(path@),
{
    match file_name_of_bytes(path) {
        Some(name) => {
            let chars = chars_of(name.as_str());
            chars.len() > 0 && chars[0] == '.'
        },
        None => false,
    }
}

fn chars_are(chars: &[char], expected: &str) -> (r: bool)
    ensures
        r == (chars@ == expected@),
{
    let e = chars_of(expected);
    crate::text::chars_equal(chars, e.as_slice())
}

/// Whether the scan configuration treats the file at `path` as a book: comic archives
/// (`cbz`, `zip`, `cbr`, `rar`) when CBX scanning is on, `pdf` when PDF scanning is on, and
/// `epub` or `mobi` when EPUB scanning is on, compared without regard to ASCII case.
pub fn is_supported_book_file(path: &[u8], scan_config: &LibraryScanConfig) -> (r: bool)
    ensures
        r == is_supported_book(path@, scan_config.scan_cbx, scan_config.scan_pdf, scan_config.scan_epub),
{
    let ext = match extension_of_bytes(path) {
        Some(ext) => ext,
        None => return false,
    };
    let lower = lower_chars(chars_of(ext.as_str()).as_slice());
    let e = lower.as_slice();
    proof {
        reveal_strlit("cbz");
        reveal_strlit("zip");
        reveal_strlit("cbr");
        reveal_strlit("rar");
        reveal_strlit("pdf");
        reveal_strlit("epub");
        reveal_strlit("mobi");
        assert("cbz"@ =~= seq!['c', 'b', 'z']);
        assert("zip"@ =~= seq!['z', 'i', 'p']);
        assert("cbr"@ =~= seq!['c', 'b', 'r']);
        assert("rar"@ =~= seq!['r', 'a', 'r']);
        assert("pdf"@ =~= seq!['p', 'd', 'f']);
        assert("epub"@ =~= seq!['e', 'p', 'u', 'b']);
        assert("mobi"@ =~= seq!['m', 'o', 'b', 'i']);
    }
    if chars_are(e, "cbz") || chars_are(e, "zip") || chars_are(e, "cbr") || chars_are(e, "rar") {
        scan_config.scan_cbx
    } else if chars_are(e, "pdf") {
        scan_config.scan_pdf
    } else if chars_are(e, "epub") || chars_are(e, "mobi") {
        scan_config.scan_epub
    } else {
        false
    }
}

/// The file name of a scanned path, which every book and series directory must have as
/// text; the error shows the path as [`utf8_lossy`] text.
pub fn path_file_name_utf8(path: &[u8]) -> (r: Result<String, ScanError>)
    ensures
        match r {
            Ok(name) => file_name_text(path@) == Some(name@),
            Err(e) => file_name_text(path@) is None && (e@ == ScanFailure::NoFileName(utf8_lossy(path@))),
        },
{
    match file_name_of_bytes(path) {
        Some(name) => Ok(name),
        None => Err(ScanError::NoFileName(lossy_text(path))),
    }
}

/// The file stem of a scanned path, which names a book and must be text; the error shows
/// the path as [`utf8_lossy`] text.
pub fn path_file_stem_utf8(path: &[u8]) -> (r: Result<String, ScanError>)
    ensures
        match r {
            Ok(stem) => file_stem_text(path@) == Some(stem@),
            Err(e) => file_stem_text(path@) is None && (e@ == ScanFailure::NoFileStem(utf8_lossy(path@))),
        },
{
    match file_stem_of_bytes(path) {
        Some(stem) => Ok(stem),
        None => Err(ScanError::NoFileStem(lossy_text(path))),
    }
}

/// `s` with every backslash replaced by a slash.
pub open spec fn forward_slashes(s: Seq<char>) -> Seq<char> {
    s.map_values(|c: char| if c == '\\' { '/' } else { c })
}

/// The form in which paths and exclusions are compared: forward slashes, ASCII lower case.
pub open spec fn exclusion_key(s: Seq<char>) -> Seq<char> {
    ascii_lower(forward_slashes(s))
}

/// Whether any non-empty exclusion occurs in the path, both compared by [`exclusion_key`].
pub open spec fn is_excluded(path: Seq<char>, exclusions: Seq<Seq<char>>) -> bool {
    exists|i: int|
        0 <= i < exclusions.len() && exclusion_key(#[trigger] exclusions[i]).len() > 0 && contains_run(
            exclusion_key(path),
            exclusion_key(exclusions[i]),
        )
}

fn exclusion_key_chars(s: &str) -> (r: Vec<char>)
    ensures
        r@ == exclusion_key(s@),
{
    let chars = chars_of(s);
    let mut out: Vec<char> = Vec::new();
    let mut i: usize = 0;
    while i < chars.len()
        invariant
            i <= chars@.len(),
            chars@ == s@,
            out@ == forward_slashes(s@.take(i as int)),
        decreases chars@.len() - i,
    {
        let c = chars[i];
        out.push(if c == '\\' { '/' } else { c });
        i = i + 1;
        proof {
            assert(out@ =~= forward_slashes(s@.take(i as int)));
        }
    }
    proof {
        assert(s@.take(s@.len() as int) =~= s@);
    }
    lower_chars(out.as_slice())
}

/// Whether the path falls under one of the library's scan exclusions: a non-empty
/// exclusion that occurs anywhere in the path, ignoring ASCII case and slash direction.
pub fn is_library_path_excluded(path: &str, exclusions: &[String]) -> (r: bool)
    ensures
        r == is_excluded(path@, exclusions@.map_values(|e: String| e@)),
{
    let ghost views = exclusions@.map_values(|e: String| e@);
    let path_key = exclusion_key_chars(path);
    let mut i: usize = 0;
    while i < exclusions.len()
        invariant
            i <= exclusions@.len(),
            views == exclusions@.map_values(|e: String| e@),
            path_key@ == exclusion_key(path@),
            forall|k: int|
                0 <= k < i ==> !(exclusion_key(#[trigger] views[k]).len() > 0 && contains_run(
                    exclusion_key(path@),
                    exclusion_key(views[k]),
                )),
        decreases exclusions@.len() - i,
    {
        let exclusion = exclusion_key_chars(exclusions[i].as_str());
        if exclusion.len() > 0 && chars_contain(path_key.as_slice(), exclusion.as_slice()) {
            proof {
                assert(views[i as int] == exclusions@[i as int]@);
            }
            return true;
        }
        proof {
            assert(views[i as int] == exclusions@[i as int]@);
        }
        i = i + 1;
    }
    false
}

} // verus!

verus! {

/// The components that survive `Path::components`: non-empty pieces other than `.`.
pub open spec fn kept_components(pieces: Seq<Seq<char>>) -> Seq<Seq<char>>
    decreases pieces.len(),
{
    if pieces.len() == 0 {
        Seq::empty()
    } else {
        let rest = kept_components(pieces.drop_last());
        let piece = pieces.last();
        if piece.len() == 0 || piece == seq!['.'] {
            rest
        } else {
            rest.push(piece)
        }
    }
}

/// Components joined with single slashes.
pub open spec fn join_components(components: Seq<Seq<char>>) -> Seq<char>
    decreases components.len(),
{
    if components.len() == 0 {
        Seq::empty()
    } else if components.len() == 1 {
        components[0]
    } else {
        join_components(components.drop_last()) + seq!['/'] + components.last()
    }
}

/// The path rebuilt from its components (`path.components().collect::<PathBuf>()`): one
/// leading `/` for an absolute path, a leading `.` kept, repeated separators and `.`
/// components dropped.
pub open spec fn normalized_path(s: Seq<char>) -> Seq<char> {
    let pieces = split_on(s, '/');
    let absolute = s.len() > 0 && s[0] == '/';
    let leading_dot = !absolute && pieces[0] == seq!['.'];
    let components = if leading_dot {
        seq![seq!['.']] + kept_components(pieces.drop_first())
    } else {
        kept_components(pieces)
    };
    if absolute {
        seq!['/'] + join_components(components)
    } else {
        join_components(components)
    }
}

fn push_component(out: &mut Vec<char>, count: usize, piece: &[char])
    ensures
        final(out)@ == if count == 0 { old(out)@ + piece@ } else { old(out)@ + seq!['/'] + piece@ },
{
    if count > 0 {
        out.push('/');
    }
    let ghost start = out@;
    let mut i: usize = 0;
    while i < piece.len()
        invariant
            i <= piece@.len(),
            out@ == start + piece@.take(i as int),
        decreases piece@.len() - i,
    {
        out.push(piece[i]);
        i = i + 1;
        proof {
            assert(out@ =~= start + piece@.take(i as int));
        }
    }
    proof {
        assert(piece@.take(piece@.len() as int) =~= piece@);
        if count == 0 {
            assert(final(out)@ =~= old(out)@ + piece@);
        } else {
            assert(final(out)@ =~= old(out)@ + seq!['/'] + piece@);
        }
    }
}

/// The normalized form of a path string, as the scanner keys it (Unix semantics).
pub fn normalize_scanner_path_key(path: &str) -> (key: String)
    ensures
        key@ == normalized_path(path@),
{
    let chars = chars_of(path);
    let pieces = split_chars(chars.as_slice(), '/');
    proof {
        lemma_split_on_nonempty(path@, '/');
    }
    let ghost all = split_on(path@, '/');
    let absolute = chars.len() > 0 && chars[0] == '/';
    let leading_dot = !absolute && pieces[0].len() == 1 && pieces[0][0] == '.';
    proof {
        if !absolute && pieces@[0]@.len() == 1 && pieces@[0]@[0] == '.' {
            assert(pieces@[0]@ =~= seq!['.']);
        }
    }
    let mut out: Vec<char> = Vec::new();
    if absolute {
        out.push('/');
    }
    let mut count: usize = 0;
    let ghost prefix = out@;
    let ghost head: Seq<Seq<char>> = if leading_dot { seq![seq!['.']] } else { Seq::empty() };
    if leading_dot {
        out.push('.');
        count = 1;
    }
    let mut i: usize = if leading_dot { 1 } else { 0 };
    let ghost first = i as int;
    proof {
        assert(first <= pieces@.len());
        assert(out@ =~= prefix + join_components(head + kept_components(all.subrange(first, i as int))));
    }
    while i < pieces.len()
        invariant
            0 <= first <= i <= pieces@.len(),
            count <= i,
            pieces@.len() == all.len(),
            forall|k: int| 0 <= k < pieces@.len() ==> #[trigger] pieces@[k]@ == all[k],
            count == (head + kept_components(all.subrange(first, i as int))).len(),
            out@ == prefix + join_components(head + kept_components(all.subrange(first, i as int))),
        decreases pieces@.len() - i,
    {
        let ghost before = head + kept_components(all.subrange(first, i as int));
        proof {
            assert(all.subrange(first, i + 1).drop_last() =~= all.subrange(first, i as int));
        }
        let piece = &pieces[i];
        let is_dot = piece.len() == 1 && piece[0] == '.';
        proof {
            if piece@.len() == 1 && piece@[0] == '.' {
                assert(piece@ =~= seq!['.']);
            }
        }
        if !(piece.len() == 0 || is_dot) {
            push_component(&mut out, count, piece.as_slice());
            count = count + 1;
            proof {
                let after = head + kept_components(all.subrange(first, i + 1));
                assert(after =~= before.push(all[i as int]));
                assert(after.drop_last() =~= before);
            }
        } else {
            proof {
                assert(head + kept_components(all.subrange(first, i + 1)) =~= before);
            }
        }
        i = i + 1;
    }
    proof {
        if leading_dot {
            assert(all.subrange(1, all.len() as int) =~= all.drop_first());
        } else {
            assert(all.subrange(0, all.len() as int) =~= all);
            assert(head + kept_components(all) =~= kept_components(all));
        }
        if absolute {
            assert(out@ =~= seq!['/'] + join_components(head + kept_components(all.subrange(first, all.len() as int))));
        }
    }
    string_from_chars(out.as_slice())
}

} // verus!

verus! {

/// `resolve_rooted_path`: a stored URL resolved against the library root.
pub open spec fn rooted_path(root: Seq<char>, stored: Seq<char>) -> Seq<char> {
    join(root, stored)
}

/// The key under which the scanner matches a stored URL to a path on disk.
pub open spec fn scanner_url_key_spec(root: Seq<char>, stored: Seq<char>) -> Seq<char> {
    normalized_path(rooted_path(root, stored))
}

/// `prefix-<hash>`, derived from the normalized path, for series and books first seen.
pub open spec fn scanner_id(prefix: Seq<char>, path: Seq<char>) -> Seq<char> {
    hashed_id(prefix, normalized_path(path))
}

/// The identifier the scanner gives a series or book at `path` that it has not seen before:
/// the prefix, a dash and the 16-digit hexadecimal hash of the normalized path.
pub fn route_safe_scanner_id(prefix: &str, path: &str) -> (id: String)
    ensures
        id@ == scanner_id(prefix@, path@),
{
    let key = normalize_scanner_path_key(path);
    hashed_id_for(prefix, key.as_str())
}

/// Resolves a stored URL against the library root: absolute URLs stand as they are,
/// relative ones are joined to the root.
pub fn resolve_rooted_path(root: &str, stored: &str) -> (path: String)
    ensures
        path@ == rooted_path(root@, stored@),
{
    path_join(root, stored)
}

/// The key under which the scanner looks up a stored book or series URL.
pub fn scanner_url_key(root: &str, stored_url: &str) -> (key: String)
    ensures
        key@ == scanner_url_key_spec(root@, stored_url@),
{
    let resolved = resolve_rooted_path(root, stored_url);
    normalize_scanner_path_key(resolved.as_str())
}

/// Whether an image named `base_name` is artwork for the book `book_name`: the same name,
/// or the book name, a dash and one or more ASCII digits, ignoring ASCII case.
pub open spec fn is_book_artwork_name(base_name: Seq<char>, book_name: Seq<char>) -> bool {
    let base = ascii_lower(base_name);
    let book = ascii_lower(book_name);
    ||| base == book
    ||| {
        let prefix = book.push('-');
        &&& has_prefix(base, prefix)
        &&& base.len() > prefix.len()
        &&& forall|i: int| prefix.len() <= i < base.len() ==> is_ascii_digit(#[trigger] base[i])
    }
}

/// Whether a sidecar image with stem `base_name` is artwork for the book named `book_name`.
pub fn is_book_artwork_sidecar(base_name: &str, book_name: &str) -> (r: bool)
    ensures
        r == is_book_artwork_name(base_name@, book_name@),
{
    let base = lower_chars(chars_of(base_name).as_slice());
    let book = lower_chars(chars_of(book_name).as_slice());
    if crate::text::chars_equal(base.as_slice(), book.as_slice()) {
        return true;
    }
    let mut prefix = book;
    prefix.push('-');
    if !chars_start_with(base.as_slice(), prefix.as_slice()) {
        return false;
    }
    if base.len() <= prefix.len() {
        return false;
    }
    let mut i = prefix.len();
    while i < base.len()
        invariant
            prefix@.len() <= i <= base@.len(),
            base@ == ascii_lower(base_name@),
            prefix@ == ascii_lower(book_name@).push('-'),
            base@ != ascii_lower(book_name@),
            has_prefix(base@, prefix@),
            forall|k: int| prefix@.len() <= k < i ==> is_ascii_digit(#[trigger] base@[k]),
        decreases base@.len() - i,
    {
        if !('0' <= base[i] && base[i] <= '9') {
            return false;
        }
        i = i + 1;
    }
    true
}

/// A file-system timestamp: whole seconds on one side of the Unix epoch.
#[derive(Clone, Copy, Debug)]
pub struct FileTimestamp {
    pub before_epoch: bool,
    pub seconds: u64,
}

/// The creation and modification times a file-system entry reports, where it reports them.
#[derive(Clone, Copy, Debug)]
pub struct FileTimes {
    pub created: Option<FileTimestamp>,
    pub modified: Option<FileTimestamp>,
}

/// The signed number of seconds since the epoch, if it fits in an `i64`.
pub open spec fn unix_seconds(t: FileTimestamp) -> Option<int> {
    if t.seconds > i64::MAX {
        None
    } else if t.before_epoch {
        Some(-(t.seconds as int))
    } else {
        Some(t.seconds as int)
    }
}

/// Converts a file timestamp to signed seconds since the Unix epoch.
pub fn to_unix_seconds(time: FileTimestamp, path: &str) -> (r: Result<i64, ScanError>)
    ensures
        match r {
            Ok(v) => unix_seconds(time) == Some(v as int),
            Err(e) => unix_seconds(time) is None && (e@ == ScanFailure::TimestampOutOfRange(path@)),
        },
{
    if time.seconds > i64::MAX as u64 {
        return Err(ScanError::TimestampOutOfRange(String::from_str(path)));
    }
    if time.before_epoch {
        Ok(-(time.seconds as i64))
    } else {
        Ok(time.seconds as i64)
    }
}

/// The latest of the reported creation and modification times, in seconds since the epoch.
pub open spec fn updated_seconds(times: FileTimes) -> Option<Option<int>> {
    let created = match times.created {
        Some(t) => Some(unix_seconds(t)),
        None => None,
    };
    let modified = match times.modified {
        Some(t) => Some(unix_seconds(t)),
        None => None,
    };
    match (created, modified) {
        (Some(None), _) => Some(None),
        (_, Some(None)) => Some(None),
        (Some(Some(c)), Some(Some(m))) => Some(Some(if c >= m { c } else { m })),
        (Some(Some(c)), None) => Some(Some(c)),
        (None, Some(Some(m))) => Some(Some(m)),
        (None, None) => None,
    }
}

/// When a file was last updated: the later of its creation and modification times.
/// Fails when a reported time is out of range, or when neither is reported.
pub fn metadata_updated_unix_seconds(times: FileTimes, path: &str) -> (r: Result<i64, ScanError>)
    ensures
        match r {
            Ok(v) => updated_seconds(times) == Some(Some(v as int)),
            Err(e) => match updated_seconds(times) {
                Some(None) => e@ == ScanFailure::TimestampOutOfRange(path@),
                None => e@ == ScanFailure::TimestampMissing(path@),
                Some(Some(_)) => false,
            },
        },
{
    let created = match times.created {
        Some(t) => Some(to_unix_seconds(t, path)?),
        None => None,
    };
    let modified = match times.modified {
        Some(t) => Some(to_unix_seconds(t, path)?),
        None => None,
    };
    match (created, modified) {
        (Some(c), Some(m)) => Ok(if c >= m { c } else { m }),
        (Some(c), None) => Ok(c),
        (None, Some(m)) => Ok(m),
        (None, None) => Err(ScanError::TimestampMissing(String::from_str(path))),
    }
}

} // verus!

verus! {

/// A book file found in a series directory.
#[derive(Clone, Debug)]
pub struct ScannedBookRow {
    pub book_id: String,
    pub book_name: String,
    pub book_url: String,
    pub file_size: i64,
    pub file_last_modified_unix_seconds: i64,
    pub oneshot: bool,
}

/// The plain values of a book row: id, name, url, size, seconds, oneshot.
pub type BookView = (Seq<char>, Seq<char>, Seq<char>, int, int, bool);

pub open spec fn book_view(book: ScannedBookRow) -> BookView {
    (book.book_id@, book.book_name@, book.book_url@, book.file_size as int, book.file_last_modified_unix_seconds as int, book.oneshot)
}

/// The plain values of a list of book rows.
pub open spec fn book_views(books: Seq<ScannedBookRow>) -> Seq<BookView> {
    books.map_values(|b: ScannedBookRow| book_view(b))
}

/// What a sidecar file belongs to.
#[derive(Clone, Copy, Debug, PartialEq, Eq)]
pub enum ScannedSidecarSource {
    Series,
    Book,
}

/// What a sidecar file holds.
#[derive(Clone, Copy, Debug, PartialEq, Eq)]
pub enum ScannedSidecarType {
    Metadata,
    Artwork,
}

/// A metadata or artwork file beside the books.
#[derive(Clone, Debug)]
pub struct ScannedSidecarRow {
    pub url: String,
    pub parent_url: String,
    pub last_modified_unix_seconds: i64,
    pub source: ScannedSidecarSource,
    pub sidecar_type: ScannedSidecarType,
}

/// A file in a series directory that is not a book, with its timestamps.
#[derive(Clone, Debug)]
pub struct SidecarCandidate {
    /// The path as the file system gives it.
    pub path: Vec<u8>,
    pub times: FileTimes,
}

/// The plain values of a sidecar candidate: its path's bytes and its timestamps.
pub type CandidateView = (Seq<u8>, FileTimes);

pub open spec fn candidate_views(v: Seq<SidecarCandidate>) -> Seq<CandidateView> {
    v.map_values(|c: SidecarCandidate| (c.path@, c.times))
}

/// The plain values of a sidecar row: url, parent url, seconds, source, type.
pub type SidecarView = (Seq<char>, Seq<char>, int, ScannedSidecarSource, ScannedSidecarType);

pub open spec fn sidecar_row_view(row: ScannedSidecarRow) -> SidecarView {
    (row.url@, row.parent_url@, row.last_modified_unix_seconds as int, row.source, row.sidecar_type)
}

/// Whether the path has an image extension recognized for artwork sidecars.
pub open spec fn has_image_extension(path: Seq<u8>) -> bool {
    match extension_text(path) {
        Some(ext) => {
            let e = ascii_lower(ext);
            ||| e == seq!['j', 'p', 'g']
            ||| e == seq!['j', 'p', 'e', 'g']
            ||| e == seq!['p', 'n', 'g']
            ||| e == seq!['t', 'b', 'n']
            ||| e == seq!['w', 'e', 'b', 'p']
            ||| e == seq!['g', 'i', 'f']
            ||| e == seq!['a', 'v', 'i', 'f']
        },
        None => false,
    }
}

/// Whether an image stem names series artwork.
pub open spec fn is_series_artwork_stem(stem: Seq<char>) -> bool {
    let s = ascii_lower(stem);
    ||| s == seq!['c', 'o', 'v', 'e', 'r']
    ||| s == seq!['d', 'e', 'f', 'a', 'u', 'l', 't']
    ||| s == seq!['f', 'o', 'l', 'd', 'e', 'r']
    ||| s == seq!['p', 'o', 's', 't', 'e', 'r']
    ||| s == seq!['s', 'e', 'r', 'i', 'e', 's']
}

/// The first book whose artwork an image with this stem is.
pub open spec fn first_artwork_book(stem: Seq<char>, books: Seq<BookView>) -> Option<int>
    decreases books.len(),
{
    if books.len() == 0 {
        None
    } else if is_book_artwork_name(stem, books[0].1) {
        Some(0)
    } else {
        match first_artwork_book(stem, books.drop_first()) {
            Some(i) => Some(i + 1),
            None => None,
        }
    }
}

/// Where a candidate file goes: series artwork, the series' `series.json`, or artwork of the
/// first book it names; `None` when it is none of these.
pub open spec fn sidecar_placement(
    path: Seq<u8>,
    name: Seq<char>,
    stem: Seq<char>,
    series_url: Seq<char>,
    books: Seq<BookView>,
    include_series_sidecars: bool,
) -> Option<(ScannedSidecarSource, ScannedSidecarType, Seq<char>)> {
    let image = has_image_extension(path);
    if include_series_sidecars && image && is_series_artwork_stem(stem) {
        Some((ScannedSidecarSource::Series, ScannedSidecarType::Artwork, series_url))
    } else if include_series_sidecars && ascii_lower(name) == seq!['s', 'e', 'r', 'i', 'e', 's', '.', 'j', 's', 'o', 'n'] {
        Some((ScannedSidecarSource::Series, ScannedSidecarType::Metadata, series_url))
    } else if image {
        match first_artwork_book(stem, books) {
            Some(i) => Some((ScannedSidecarSource::Book, ScannedSidecarType::Artwork, books[i].2)),
            None => None,
        }
    } else {
        None
    }
}

/// The sidecar rows built from the candidates, in order, or the first failure.
pub open spec fn build_sidecars_spec(
    series_url: Seq<char>,
    books: Seq<BookView>,
    candidates: Seq<CandidateView>,
    include_series_sidecars: bool,
) -> Result<Seq<SidecarView>, ScanFailure>
    decreases candidates.len(),
{
    if candidates.len() == 0 {
        Ok(Seq::empty())
    } else {
        match build_sidecars_spec(series_url, books, candidates.drop_last(), include_series_sidecars) {
            Err(e) => Err(e),
            Ok(rows) => {
                let (path, times) = candidates.last();
                let text = utf8_lossy(path);
                match file_name_text(path) {
                    None => Err(ScanFailure::NoFileName(text)),
                    Some(name) => match file_stem_text(path) {
                        None => Err(ScanFailure::NoFileStem(text)),
                        Some(stem) => match sidecar_placement(path, name, stem, series_url, books, include_series_sidecars) {
                            None => Ok(rows),
                            Some((source, kind, parent)) => match updated_seconds(times) {
                                None => Err(ScanFailure::TimestampMissing(text)),
                                Some(None) => Err(ScanFailure::TimestampOutOfRange(text)),
                                Some(Some(seconds)) => Ok(rows.push((text, parent, seconds, source, kind))),
                            },
                        },
                    },
                }
            },
        }
    }
}

fn lower_equals(chars: &[char], expected: &str) -> (r: bool)
    ensures
        r == (ascii_lower(chars@) == expected@),
{
    let lower = lower_chars(chars);
    chars_are(lower.as_slice(), expected)
}

fn is_image_path(path: &[u8]) -> (r: bool)
    ensures
        r == has_image_extension(path@),
{
    match extension_of_bytes(path) {
        Some(ext) => {
            let chars = chars_of(ext.as_str());
            proof {
                reveal_strlit("jpg");
                reveal_strlit("jpeg");
                reveal_strlit("png");
                reveal_strlit("tbn");
                reveal_strlit("webp");
                reveal_strlit("gif");
                reveal_strlit("avif");
                assert("jpg"@ =~= seq!['j', 'p', 'g']);
                assert("jpeg"@ =~= seq!['j', 'p', 'e', 'g']);
                assert("png"@ =~= seq!['p', 'n', 'g']);
                assert("tbn"@ =~= seq!['t', 'b', 'n']);
                assert("webp"@ =~= seq!['w', 'e', 'b', 'p']);
                assert("gif"@ =~= seq!['g', 'i', 'f']);
                assert("avif"@ =~= seq!['a', 'v', 'i', 'f']);
            }
            lower_equals(chars.as_slice(), "jpg") || lower_equals(chars.as_slice(), "jpeg")
                || lower_equals(chars.as_slice(), "png") || lower_equals(chars.as_slice(), "tbn")
                || lower_equals(chars.as_slice(), "webp") || lower_equals(chars.as_slice(), "gif")
                || lower_equals(chars.as_slice(), "avif")
        },
        None => false,
    }
}

fn is_series_artwork_stem_exec(stem: &str) -> (r: bool)
    ensures
        r == is_series_artwork_stem(stem@),
{
    let chars = chars_of(stem);
    proof {
        reveal_strlit("cover");
        reveal_strlit("default");
        reveal_strlit("folder");
        reveal_strlit("poster");
        reveal_strlit("series");
        assert("cover"@ =~= seq!['c', 'o', 'v', 'e', 'r']);
        assert("default"@ =~= seq!['d', 'e', 'f', 'a', 'u', 'l', 't']);
        assert("folder"@ =~= seq!['f', 'o', 'l', 'd', 'e', 'r']);
        assert("poster"@ =~= seq!['p', 'o', 's', 't', 'e', 'r']);
        assert("series"@ =~= seq!['s', 'e', 'r', 'i', 'e', 's']);
    }
    lower_equals(chars.as_slice(), "cover") || lower_equals(chars.as_slice(), "default")
        || lower_equals(chars.as_slice(), "folder") || lower_equals(chars.as_slice(), "poster")
        || lower_equals(chars.as_slice(), "series")
}

fn find_artwork_book(stem: &str, books: &[ScannedBookRow]) -> (r: Option<usize>)
    ensures
        match r {
            Some(i) => first_artwork_book(stem@, book_views(books@)) == Some(i as int),
            None => first_artwork_book(stem@, book_views(books@)) is None,
        },
{
    let ghost views = book_views(books@);
    let mut i: usize = 0;
    proof {
        assert(views.skip(0) =~= views);
    }
    while i < books.len()
        invariant
            i <= books@.len(),
            views == book_views(books@),
            first_artwork_book(stem@, views) == match first_artwork_book(stem@, views.skip(i as int)) {
                Some(k) => Some(k + i),
                None => None::<int>,
            },
        decreases books@.len() - i,
    {
        proof {
            assert(views.skip(i as int).drop_first() =~= views.skip(i + 1));
            assert(views.skip(i as int)[0] == book_view(books@[i as int]));
        }
        if is_book_artwork_sidecar(stem, books[i].book_name.as_str()) {
            return Some(i);
        }
        i = i + 1;
    }
    None
}

/// Classifies the non-book files of a series directory as sidecars: series artwork
/// (`cover`, `default`, `folder`, `poster` or `series` images) and `series.json` when
/// `include_series_sidecars`, and book artwork (images named after a book) always.
pub fn build_sidecars(
    series_url: &str,
    books: &[ScannedBookRow],
    sidecar_candidates: &[SidecarCandidate],
    include_series_sidecars: bool,
) -> (r: Result<Vec<ScannedSidecarRow>, ScanError>)
    ensures
        match r {
            Ok(rows) => build_sidecars_spec(series_url@, book_views(books@), candidate_views(sidecar_candidates@), include_series_sidecars)
                == Ok::<Seq<SidecarView>, ScanFailure>(rows@.map_values(|row: ScannedSidecarRow| sidecar_row_view(row))),
            Err(e) => build_sidecars_spec(series_url@, book_views(books@), candidate_views(sidecar_candidates@), include_series_sidecars)
                == Err::<Seq<SidecarView>, ScanFailure>(e@),
        },
{
    let mut sidecars: Vec<ScannedSidecarRow> = Vec::new();
    let mut index: usize = 0;
    proof {
        reveal_strlit("series.json");
        assert("series.json"@ =~= seq!['s', 'e', 'r', 'i', 'e', 's', '.', 'j', 's', 'o', 'n']);
        assert(candidate_views(sidecar_candidates@).take(0) =~= Seq::<CandidateView>::empty());
        assert(sidecars@.map_values(|row: ScannedSidecarRow| sidecar_row_view(row)) =~= Seq::<SidecarView>::empty());
    }
    while index < sidecar_candidates.len()
        invariant
            index <= sidecar_candidates@.len(),
            "series.json"@ == seq!['s', 'e', 'r', 'i', 'e', 's', '.', 'j', 's', 'o', 'n'],
            build_sidecars_spec(series_url@, book_views(books@), candidate_views(sidecar_candidates@).take(index as int), include_series_sidecars)
                == Ok::<Seq<SidecarView>, ScanFailure>(sidecars@.map_values(|row: ScannedSidecarRow| sidecar_row_view(row))),
        decreases sidecar_candidates@.len() - index,
    {
        let ghost before = sidecars@.map_values(|row: ScannedSidecarRow| sidecar_row_view(row));
        proof {
            let next = candidate_views(sidecar_candidates@).take(index as int + 1);
            assert(next.drop_last() =~= candidate_views(sidecar_candidates@).take(index as int));
            assert(next.last() == (sidecar_candidates@[index as int].path@, sidecar_candidates@[index as int].times));
        }
        let candidate = &sidecar_candidates[index];
        let path = candidate.path.as_slice();
        let file_name = match path_file_name_utf8(path) {
            Ok(name) => name,
            Err(e) => {
                proof { lemma_sidecars_failure_persists(series_url@, book_views(books@), candidate_views(sidecar_candidates@), include_series_sidecars, index as int + 1); }
                return Err(e);
            },
        };
        let file_stem = match path_file_stem_utf8(path) {
            Ok(stem) => stem,
            Err(e) => {
                proof { lemma_sidecars_failure_persists(series_url@, book_views(books@), candidate_views(sidecar_candidates@), include_series_sidecars, index as int + 1); }
                return Err(e);
            },
        };
        let is_image = is_image_path(path);
        let mut placement: Option<(ScannedSidecarSource, ScannedSidecarType, String)> = None;
        if include_series_sidecars && is_image && is_series_artwork_stem_exec(file_stem.as_str()) {
            placement = Some((ScannedSidecarSource::Series, ScannedSidecarType::Artwork, String::from_str(series_url)));
        } else if include_series_sidecars && eq_ignore_ascii_case(file_name.as_str(), "series.json") {
            proof {
                assert(ascii_lower("series.json"@) =~= "series.json"@);
            }
            placement = Some((ScannedSidecarSource::Series, ScannedSidecarType::Metadata, String::from_str(series_url)));
        } else {
            proof {
                assert(ascii_lower("series.json"@) =~= "series.json"@);
            }
            if is_image {
                match find_artwork_book(file_stem.as_str(), books) {
                    Some(i) => {
                        proof {
                            lemma_first_artwork_book_bounds(file_stem@, book_views(books@));
                        }
                        placement = Some((ScannedSidecarSource::Book, ScannedSidecarType::Artwork, books[i].book_url.clone()));
                    },
                    None => {},
                }
            }
        }
        match placement {
            Some((source, sidecar_type, parent_url)) => {
                let text = lossy_text(path);
                let seconds = match metadata_updated_unix_seconds(candidate.times, text.as_str()) {
                    Ok(s) => s,
                    Err(e) => {
                        proof { lemma_sidecars_failure_persists(series_url@, book_views(books@), candidate_views(sidecar_candidates@), include_series_sidecars, index as int + 1); }
                        return Err(e);
                    },
                };
                sidecars.push(ScannedSidecarRow {
                    url: text,
                    parent_url,
                    last_modified_unix_seconds: seconds,
                    source,
                    sidecar_type,
                });
                proof {
                    assert(sidecars@.map_values(|row: ScannedSidecarRow| sidecar_row_view(row)) =~= before.push(
                        sidecar_row_view(sidecars@.last()),
                    ));
                }
            },
            None => {},
        }
        index = index + 1;
    }
    proof {
        assert(candidate_views(sidecar_candidates@).take(sidecar_candidates@.len() as int) =~= candidate_views(sidecar_candidates@));
    }
    Ok(sidecars)
}

proof fn lemma_first_artwork_book_bounds(stem: Seq<char>, books: Seq<BookView>)
    ensures
        first_artwork_book(stem, books) matches Some(i) ==> 0 <= i < books.len(),
    decreases books.len(),
{
    if books.len() > 0 {
        lemma_first_artwork_book_bounds(stem, books.drop_first());
    }
}

proof fn lemma_sidecars_failure_persists(
    series_url: Seq<char>,
    books: Seq<BookView>,
    candidates: Seq<CandidateView>,
    with_series: bool,
    k: int,
)
    requires
        0 <= k <= candidates.len(),
        build_sidecars_spec(series_url, books, candidates.take(k), with_series) is Err,
    ensures
        build_sidecars_spec(series_url, books, candidates, with_series) == build_sidecars_spec(series_url, books, candidates.take(k), with_series),
    decreases candidates.len() - k,
{
    if k < candidates.len() {
        assert(candidates.take(k + 1).drop_last() =~= candidates.take(k));
        lemma_sidecars_failure_persists(series_url, books, candidates, with_series, k + 1);
    } else {
        assert(candidates.take(k) =~= candidates);
    }
}

} // verus!

verus! {

impl ScannedBookRow {
    /// A copy of this row.
    pub fn duplicate(&self) -> (r: ScannedBookRow)
        ensures
            r == *self,
    {
        ScannedBookRow {
            book_id: self.book_id.clone(),
            book_name: self.book_name.clone(),
            book_url: self.book_url.clone(),
            file_size: self.file_size,
            file_last_modified_unix_seconds: self.file_last_modified_unix_seconds,
            oneshot: self.oneshot,
        }
    }
}

} // verus!

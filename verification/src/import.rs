//! Importing a book file into a series: where it goes, under which name, which sidecar
//! files travel with it, and what its identity becomes.
use vstd::prelude::*;
use vstd::string::StringExecFns;
use crate::comicinfo_source::slash_separated;
use crate::ids::hashed_id_for;
use crate::ordering::{sorted_listing, sorted_unique_strings, views};
use crate::paths::{extension, file_name, file_stem, join, parent, path_extension, path_file_name, path_file_stem, path_join, path_parent};
use crate::scan_discovery::{join_components, kept_components};
use crate::string_set::string_set;
use crate::text::{
    ascii_lower, chars_equal, chars_of, eq_ignore_ascii_case, has_prefix, is_ascii_digit,
    lemma_split_on_nonempty, lower_chars, split_chars, split_on, string_from_chars,
};

verus! {

/// The components of a path, as `Path::components` gives them (Unix): a leading `/` for
/// the root, a leading `.` kept, empty pieces and inner `.` dropped.
pub open spec fn path_components(s: Seq<char>) -> Seq<Seq<char>> {
    let pieces = split_on(s, '/');
    let absolute = s.len() > 0 && s[0] == '/';
    if absolute {
        seq![seq!['/']] + kept_components(pieces)
    } else if pieces[0] == seq!['.'] {
        seq![seq!['.']] + kept_components(pieces.drop_first())
    } else {
        kept_components(pieces)
    }
}

/// A path built back from components.
pub open spec fn rebuild_path(c: Seq<Seq<char>>) -> Seq<char> {
    if c.len() > 0 && c[0] == seq!['/'] {
        seq!['/'] + join_components(c.drop_first())
    } else {
        join_components(c)
    }
}

pub open spec fn component_views(v: Seq<Vec<char>>) -> Seq<Seq<char>> {
    v.map_values(|c: Vec<char>| c@)
}

fn is_single(piece: &[char], c: char) -> (r: bool)
    ensures
        r == (piece@ == seq![c]),
{
    let r = piece.len() == 1 && piece[0] == c;
    proof {
        if piece@.len() == 1 && piece@[0] == c {
            assert(piece@ =~= seq![c]);
        }
    }
    r
}

/// `Path::components` of a path string.
pub fn components_of(path: &str) -> (r: Vec<Vec<char>>)
    ensures
        component_views(r@) == path_components(path@),
{
    let chars = chars_of(path);
    let pieces = split_chars(chars.as_slice(), '/');
    proof {
        lemma_split_on_nonempty(path@, '/');
    }
    let ghost all = split_on(path@, '/');
    let absolute = chars.len() > 0 && chars[0] == '/';
    let leading_dot = !absolute && is_single(pieces[0].as_slice(), '.');
    let mut out: Vec<Vec<char>> = Vec::new();
    if absolute {
        let mut root: Vec<char> = Vec::new();
        root.push('/');
        out.push(root);
    } else if leading_dot {
        let mut dot: Vec<char> = Vec::new();
        dot.push('.');
        out.push(dot);
    }
    let ghost head: Seq<Seq<char>> = if absolute { seq![seq!['/']] } else if leading_dot { seq![seq!['.']] } else { Seq::empty() };
    let mut i: usize = if leading_dot { 1 } else { 0 };
    let ghost first = i as int;
    proof {
        assert(component_views(out@) =~= head + kept_components(all.subrange(first, i as int)));
    }
    while i < pieces.len()
        invariant
            0 <= first <= i <= pieces@.len(),
            pieces@.len() == all.len(),
            forall|k: int| 0 <= k < pieces@.len() ==> #[trigger] pieces@[k]@ == all[k],
            component_views(out@) == head + kept_components(all.subrange(first, i as int)),
        decreases pieces@.len() - i,
    {
        proof {
            assert(all.subrange(first, i + 1).drop_last() =~= all.subrange(first, i as int));
            assert(all.subrange(first, i + 1).last() == all[i as int]);
        }
        let piece = &pieces[i];
        if !(piece.len() == 0 || is_single(piece.as_slice(), '.')) {
            let ghost before = component_views(out@);
            out.push(piece.clone());
            proof {
                assert(component_views(out@) =~= before.push(all[i as int]));
            }
        } else {
            proof {
                assert(head + kept_components(all.subrange(first, i + 1)) =~= head + kept_components(all.subrange(first, i as int)));
            }
        }
        i += 1;
    }
    proof {
        if leading_dot {
            assert(all.subrange(1, all.len() as int) =~= all.drop_first());
        } else {
            assert(all.subrange(0, all.len() as int) =~= all);
        }
        if !absolute && !leading_dot {
            assert(head + kept_components(all) =~= kept_components(all));
        }
        assert(!absolute ==> (leading_dot <==> all[0] == seq!['.']));
    }
    out
}

/// Whether `prefix` is a prefix of `c`, component by component.
pub open spec fn components_prefix(c: Seq<Seq<char>>, prefix: Seq<Seq<char>>) -> bool {
    prefix.len() <= c.len() && c.take(prefix.len() as int) == prefix
}

fn components_start_with(c: &Vec<Vec<char>>, prefix: &Vec<Vec<char>>) -> (r: bool)
    ensures
        r == components_prefix(component_views(c@), component_views(prefix@)),
{
    if prefix.len() > c.len() {
        return false;
    }
    let mut i: usize = 0;
    while i < prefix.len()
        invariant
            i <= prefix@.len(),
            prefix@.len() <= c@.len(),
            forall|k: int| 0 <= k < i ==> c@[k]@ == prefix@[k]@,
        decreases prefix@.len() - i,
    {
        if !chars_equal(c[i].as_slice(), prefix[i].as_slice()) {
            proof {
                assert(component_views(c@).take(prefix@.len() as int)[i as int] != component_views(prefix@)[i as int]);
            }
            return false;
        }
        i += 1;
    }
    proof {
        assert(component_views(c@).take(prefix@.len() as int) =~= component_views(prefix@));
    }
    true
}

/// `Path::starts_with`: whether `base` is a prefix of `path`, component by component.
pub fn path_starts_with(path: &str, base: &str) -> (r: bool)
    ensures
        r == components_prefix(path_components(path@), path_components(base@)),
{
    let a = components_of(path);
    let b = components_of(base);
    components_start_with(&a, &b)
}

/// Whether `path` lies inside `root` (or is it), component by component.
pub open spec fn inside_root(path: Seq<char>, root: Seq<char>) -> bool {
    components_prefix(path_components(path), path_components(root))
}

/// Whether an import source lies inside one of the library roots, given the source's
/// canonical path (`None` when it does not exist) and each root's canonical path (`None`
/// for a root that does not exist, which is passed over).
pub fn source_inside_library_roots(canonical_source: Option<&str>, canonical_roots: &Vec<Option<String>>) -> (r: bool)
    ensures
        r == match canonical_source {
            None => false,
            Some(s) => exists|i: int| 0 <= i < canonical_roots@.len()
                && (#[trigger] canonical_roots@[i] matches Some(root) && inside_root(s@, root@)),
        },
{
    let source = match canonical_source {
        Some(s) => s,
        None => return false,
    };
    let mut i: usize = 0;
    while i < canonical_roots.len()
        invariant
            i <= canonical_roots@.len(),
            canonical_source == Some(source),
            forall|j: int| 0 <= j < i ==> !(#[trigger] canonical_roots@[j] matches Some(root) && inside_root(source@, root@)),
        decreases canonical_roots@.len() - i,
    {
        if let Some(root) = &canonical_roots[i] {
            if path_starts_with(source, root.as_str()) {
                return true;
            }
        }
        i += 1;
    }
    false
}

/// `PathBuf` equality: the same components.
pub fn paths_equal(a: &str, b: &str) -> (r: bool)
    ensures
        r == (path_components(a@) == path_components(b@)),
{
    let ca = components_of(a);
    let cb = components_of(b);
    let r = ca.len() == cb.len() && components_start_with(&ca, &cb);
    proof {
        assert(component_views(ca@).len() == ca@.len());
        assert(component_views(cb@).len() == cb@.len());
        assert(component_views(ca@).take(ca@.len() as int) =~= component_views(ca@));
    }
    r
}

fn push_chars(out: &mut Vec<char>, s: &[char])
    ensures
        final(out)@ == old(out)@ + s@,
{
    let ghost start = out@;
    let mut i: usize = 0;
    while i < s.len()
        invariant
            i <= s@.len(),
            out@ == start + s@.take(i as int),
        decreases s@.len() - i,
    {
        out.push(s[i]);
        i += 1;
        proof {
            assert(out@ =~= start + s@.take(i as int));
        }
    }
    proof {
        assert(s@.take(s@.len() as int) =~= s@);
    }
}

fn rebuild_from(c: &Vec<Vec<char>>, from: usize) -> (r: Vec<char>)
    requires
        from <= c@.len(),
    ensures
        r@ == rebuild_path(component_views(c@).skip(from as int)),
{
    let ghost rest = component_views(c@).skip(from as int);
    let mut out: Vec<char> = Vec::new();
    let mut i = from;
    let mut count: usize = 0;
    let rooted = from < c.len() && is_single(c[from].as_slice(), '/');
    if rooted {
        out.push('/');
        i = from + 1;
    }
    let ghost start = i as int;
    let ghost prefix = out@;
    proof {
        assert(component_views(c@).subrange(start, i as int) =~= Seq::<Seq<char>>::empty());
    }
    while i < c.len()
        invariant
            from <= start <= i <= c@.len(),
            count == i - start,
            out@ == prefix + join_components(component_views(c@).subrange(start, i as int)),
        decreases c@.len() - i,
    {
        let ghost before = component_views(c@).subrange(start, i as int);
        if count > 0 {
            out.push('/');
        }
        push_chars(&mut out, c[i].as_slice());
        proof {
            let after = component_views(c@).subrange(start, i + 1);
            assert(after.drop_last() =~= before);
            assert(after.last() == c@[i as int]@);
            if count == 0 {
                assert(before.len() == 0);
                assert(after.len() == 1);
                assert(out@ =~= prefix + join_components(after));
            } else {
                assert(out@ =~= prefix + join_components(after));
            }
        }
        i += 1;
        count += 1;
    }
    proof {
        if rooted {
            assert(rest[0] == seq!['/']);
            assert(rest.drop_first() =~= component_views(c@).subrange(start, c@.len() as int));
        } else {
            assert(rest =~= component_views(c@).subrange(start, c@.len() as int));
            assert(!(rest.len() > 0 && rest[0] == seq!['/']));
        }
    }
    out
}

/// Why a book could not be imported.
#[derive(Debug)]
pub enum ImportError {
    /// The source file does not exist.
    SourceMissing,
    /// The source file lies inside a library.
    SourceInsideLibrary,
    /// The series to import into does not exist; its id.
    SeriesNotFound(String),
    /// The series is a oneshot and no book to upgrade was named.
    OneshotWithoutUpgrade,
    /// The book to upgrade does not exist; its id.
    UpgradeNotFound(String),
    /// The book to upgrade belongs to another series: the expected and the actual series.
    UpgradeSeriesMismatch(String, String),
    /// The destination name is not a plain file name; the name given.
    InvalidDestinationName(String),
    /// The destination file already exists; its path.
    DestinationExists(String),
    /// The imported file does not lie under the library root: the file and the root.
    OutsideLibraryRoot(String, String),
}

/// The human-readable description of an import failure.
pub open spec fn import_error_message(e: ImportError) -> Seq<char> {
    match e {
        ImportError::SourceMissing => "source file does not exist"@,
        ImportError::SourceInsideLibrary => "cannot import file that is part of an existing library"@,
        ImportError::SeriesNotFound(id) => "series target for import was not found: "@ + id@,
        ImportError::OneshotWithoutUpgrade => "destination series is oneshot but upgradeBookId is missing"@,
        ImportError::UpgradeNotFound(id) => "upgrade target for import was not found: "@ + id@,
        ImportError::UpgradeSeriesMismatch(expected, actual) =>
            "upgrade target series mismatch for import: expected "@ + expected@ + ", got "@ + actual@,
        ImportError::InvalidDestinationName(name) => "destination name for import is invalid: "@ + name@,
        ImportError::DestinationExists(path) => "destination file already exists: "@ + path@,
        ImportError::OutsideLibraryRoot(file, root) =>
            "derive imported book url '"@ + file@ + "' from library root '"@ + root@ + "'"@,
    }
}

impl ImportError {
    /// A human-readable description of the failure.
    pub fn message(&self) -> (text: String)
        ensures
            text@ == import_error_message(*self),
    {
        match self {
            ImportError::SourceMissing => String::from_str("source file does not exist"),
            ImportError::SourceInsideLibrary => String::from_str("cannot import file that is part of an existing library"),
            ImportError::SeriesNotFound(id) => {
                let mut t = String::from_str("series target for import was not found: ");
                t.append(id.as_str());
                t
            },
            ImportError::OneshotWithoutUpgrade => String::from_str("destination series is oneshot but upgradeBookId is missing"),
            ImportError::UpgradeNotFound(id) => {
                let mut t = String::from_str("upgrade target for import was not found: ");
                t.append(id.as_str());
                t
            },
            ImportError::UpgradeSeriesMismatch(expected, actual) => {
                let mut t = String::from_str("upgrade target series mismatch for import: expected ");
                t.append(expected.as_str());
                t.append(", got ");
                t.append(actual.as_str());
                t
            },
            ImportError::InvalidDestinationName(name) => {
                let mut t = String::from_str("destination name for import is invalid: ");
                t.append(name.as_str());
                t
            },
            ImportError::DestinationExists(path) => {
                let mut t = String::from_str("destination file already exists: ");
                t.append(path.as_str());
                t
            },
            ImportError::OutsideLibraryRoot(file, root) => {
                let mut t = String::from_str("derive imported book url '");
                t.append(file.as_str());
                t.append("' from library root '");
                t.append(root.as_str());
                t.append("'");
                t
            },
        }
    }
}

/// The URL under which an imported file is stored: its path relative to the library root,
/// with `/` separators; an error when the file is not under the root.
pub open spec fn library_relative_url(root: Seq<char>, file: Seq<char>) -> Option<Seq<char>> {
    let cf = path_components(file);
    let cr = path_components(root);
    if components_prefix(cf, cr) {
        Some(slash_separated(rebuild_path(cf.skip(cr.len() as int))))
    } else {
        None
    }
}

pub fn import_book_url_for_library_root(library_root: &str, destination_file: &str) -> (r: Result<String, ImportError>)
    ensures
        match r {
            Ok(url) => library_relative_url(library_root@, destination_file@) == Some(url@),
            Err(e) => library_relative_url(library_root@, destination_file@) is None
                && (e matches ImportError::OutsideLibraryRoot(f, root) && f@ == destination_file@ && root@ == library_root@),
        },
{
    let cf = components_of(destination_file);
    let cr = components_of(library_root);
    if !components_start_with(&cf, &cr) {
        return Err(ImportError::OutsideLibraryRoot(String::from_str(destination_file), String::from_str(library_root)));
    }
    let rel = rebuild_from(&cf, cr.len());
    let s = string_from_chars(rel.as_slice());
    Ok(crate::comicinfo_source::normalize_entry_name(s.as_str()))
}

/// The library-relative URL of a file that a maintenance task rewrote: its path relative to
/// the library root with `/` separators, or `None` when it is not under the root.
pub fn normalize_library_relative_url(library_root: &str, absolute_path: &str) -> (r: Option<String>)
    ensures
        match r {
            Some(url) => library_relative_url(library_root@, absolute_path@) == Some(url@),
            None => library_relative_url(library_root@, absolute_path@) is None,
        },
{
    match import_book_url_for_library_root(library_root, absolute_path) {
        Ok(url) => Some(url),
        Err(_) => None,
    }
}

/// The name an imported file takes: the destination name given, with the source file's
/// extension appended when it has a non-empty one (and none when the name holds a `/` or
/// `\`); else the source file's own name.
pub open spec fn destination_name_spec(source: Seq<char>, destination_name: Option<Seq<char>>) -> Option<Seq<char>> {
    match destination_name {
        Some(d) => if d.contains('/') || d.contains('\\') {
            None
        } else {
            match extension(source) {
                Some(e) => if e.len() > 0 { Some(d + seq!['.'] + e) } else { Some(d) },
                None => Some(d),
            }
        },
        None => file_name(source),
    }
}

fn contains_char(s: &[char], c: char) -> (r: bool)
    ensures
        r == s@.contains(c),
{
    let mut i: usize = 0;
    while i < s.len()
        invariant
            i <= s@.len(),
            forall|k: int| 0 <= k < i ==> s@[k] != c,
        decreases s@.len() - i,
    {
        if s[i] == c {
            proof {
                assert(s@[i as int] == c);
            }
            return true;
        }
        i += 1;
    }
    false
}

pub fn resolve_import_destination_name(source_file: &str, destination_name: Option<&str>) -> (r: Option<String>)
    ensures
        crate::metadata_support::opt_view(r) == destination_name_spec(source_file@, match destination_name {
            Some(d) => Some(d@),
            None => None,
        }),
{
    match destination_name {
        Some(d) => {
            let dc = chars_of(d);
            if contains_char(dc.as_slice(), '/') || contains_char(dc.as_slice(), '\\') {
                return None;
            }
            match path_extension(source_file) {
                Some(e) => {
                    let ec = chars_of(e.as_str());
                    if ec.len() > 0 {
                        let mut out = dc;
                        out.push('.');
                        push_chars(&mut out, ec.as_slice());
                        Some(string_from_chars(out.as_slice()))
                    } else {
                        Some(String::from_str(d))
                    }
                },
                None => Some(String::from_str(d)),
            }
        },
        None => path_file_name(source_file),
    }
}

/// The directory an imported book goes to: the series directory, or for a oneshot series
/// (whose URL is the book file) the directory holding that file, or the library root when
/// that has no parent.
pub open spec fn destination_dir_spec(library_root: Seq<char>, series_url: Seq<char>, oneshot: bool) -> Seq<char> {
    let series_path = join(library_root, series_url);
    if oneshot {
        match parent(series_path) {
            Some(p) => if p.len() > 0 { p } else { library_root },
            None => library_root,
        }
    } else {
        series_path
    }
}

pub fn resolve_import_destination_dir(library_root: &str, series_url: &str, oneshot: bool) -> (r: String)
    ensures
        r@ == destination_dir_spec(library_root@, series_url@, oneshot),
{
    let series_path = path_join(library_root, series_url);
    if oneshot {
        match path_parent(series_path.as_str()) {
            Some(p) => {
                if chars_of(p.as_str()).len() > 0 {
                    p
                } else {
                    String::from_str(library_root)
                }
            },
            None => String::from_str(library_root),
        }
    } else {
        series_path
    }
}

/// The image extensions that book artwork can have (compared lower-cased).
pub open spec fn is_artwork_extension(e: Seq<char>) -> bool {
    e == "png"@ || e == "jpeg"@ || e == "jpg"@ || e == "tbn"@ || e == "webp"@ || e == "gif"@
}

fn text_is(s: &str, expected: &str) -> (r: bool)
    ensures
        r == (s@ == expected@),
{
    let a = chars_of(s);
    let b = chars_of(expected);
    chars_equal(a.as_slice(), b.as_slice())
}

pub fn is_supported_book_artwork_extension(extension: &str) -> (r: bool)
    ensures
        r == is_artwork_extension(extension@),
{
    text_is(extension, "png") || text_is(extension, "jpeg") || text_is(extension, "jpg")
        || text_is(extension, "tbn") || text_is(extension, "webp") || text_is(extension, "gif")
}

/// What follows the book's name in the name of a piece of its artwork: nothing for the
/// same name (any ASCII case); a dash and one or more ASCII digits for numbered artwork.
pub open spec fn artwork_suffix(stem: Seq<char>, base: Seq<char>) -> Option<Seq<char>> {
    if ascii_lower(stem) == ascii_lower(base) {
        Some(Seq::empty())
    } else {
        let p = ascii_lower(base) + seq!['-'];
        let l = ascii_lower(stem);
        if has_prefix(l, p) && l.len() > p.len() && forall|i: int| p.len() <= i < l.len() ==> is_ascii_digit(#[trigger] l[i]) {
            Some(stem.skip(base.len() as int))
        } else {
            None
        }
    }
}

pub fn import_book_artwork_suffix(candidate_stem: &str, book_base_name: &str) -> (r: Option<String>)
    ensures
        crate::metadata_support::opt_view(r) == artwork_suffix(candidate_stem@, book_base_name@),
{
    if eq_ignore_ascii_case(candidate_stem, book_base_name) {
        return Some(String::new());
    }
    let stem = chars_of(candidate_stem);
    let l = lower_chars(stem.as_slice());
    let mut p = lower_chars(chars_of(book_base_name).as_slice());
    p.push('-');
    proof {
        assert(p@ =~= ascii_lower(book_base_name@) + seq!['-']);
    }
    if !crate::text::chars_start_with(l.as_slice(), p.as_slice()) || l.len() <= p.len() {
        return None;
    }
    let mut i = p.len();
    while i < l.len()
        invariant
            p@.len() <= i <= l@.len(),
            l@ == ascii_lower(candidate_stem@),
            p@ == ascii_lower(book_base_name@) + seq!['-'],
            ascii_lower(candidate_stem@) != ascii_lower(book_base_name@),
            has_prefix(l@, p@),
            l@.len() > p@.len(),
            forall|k: int| p@.len() <= k < i ==> is_ascii_digit(#[trigger] l@[k]),
        decreases l@.len() - i,
    {
        if !('0' <= l[i] && l[i] <= '9') {
            return None;
        }
        i += 1;
    }
    let start = p.len() - 1;
    let mut out: Vec<char> = Vec::new();
    let mut k = start;
    proof {
        assert(p@.len() - 1 == book_base_name@.len());
    }
    while k < stem.len()
        invariant
            start <= k <= stem@.len(),
            stem@.len() == l@.len(),
            out@ == stem@.subrange(start as int, k as int),
        decreases stem@.len() - k,
    {
        out.push(stem[k]);
        k += 1;
        proof {
            assert(out@ =~= stem@.subrange(start as int, k as int));
        }
    }
    proof {
        assert(out@ =~= candidate_stem@.skip(book_base_name@.len() as int));
    }
    Some(string_from_chars(out.as_slice()))
}

/// What a sidecar of a book is.
#[derive(Clone, Copy, Debug, PartialEq, Eq)]
pub enum ImportBookSidecarType {
    Metadata,
    Artwork,
}

/// How a sidecar file relates to its book: its kind, what follows the book's name in its
/// name, and its extension as written.
#[derive(Clone, Debug)]
pub struct ImportBookSidecarClassification {
    pub sidecar_type: ImportBookSidecarType,
    pub suffix: String,
    pub extension: String,
}

/// A sidecar of the book named `base`: an `xml` file with the book's name (any ASCII case)
/// holds metadata; an image with the book's name, or the name, a dash and digits, is
/// artwork.
pub open spec fn sidecar_class(path: Seq<char>, base: Seq<char>) -> Option<(ImportBookSidecarType, Seq<char>, Seq<char>)> {
    match (extension(path), file_stem(path)) {
        (Some(e), Some(stem)) => if ascii_lower(e) == "xml"@ && ascii_lower(stem) == ascii_lower(base) {
            Some((ImportBookSidecarType::Metadata, Seq::empty(), e))
        } else if !is_artwork_extension(ascii_lower(e)) {
            None
        } else {
            match artwork_suffix(stem, base) {
                Some(s) => Some((ImportBookSidecarType::Artwork, s, e)),
                None => None,
            }
        },
        _ => None,
    }
}

pub fn classify_import_book_sidecar(sidecar_path: &str, book_base_name: &str) -> (r: Option<ImportBookSidecarClassification>)
    ensures
        match r {
            Some(c) => sidecar_class(sidecar_path@, book_base_name@) == Some((c.sidecar_type, c.suffix@, c.extension@)),
            None => sidecar_class(sidecar_path@, book_base_name@) is None,
        },
{
    let ext = match path_extension(sidecar_path) {
        Some(e) => e,
        None => return None,
    };
    let stem = match path_file_stem(sidecar_path) {
        Some(s) => s,
        None => return None,
    };
    let lower = string_from_chars(lower_chars(chars_of(ext.as_str()).as_slice()).as_slice());
    if text_is(lower.as_str(), "xml") && eq_ignore_ascii_case(stem.as_str(), book_base_name) {
        return Some(ImportBookSidecarClassification { sidecar_type: ImportBookSidecarType::Metadata, suffix: String::new(), extension: ext });
    }
    if !is_supported_book_artwork_extension(lower.as_str()) {
        return None;
    }
    match import_book_artwork_suffix(stem.as_str(), book_base_name) {
        Some(suffix) => Some(ImportBookSidecarClassification { sidecar_type: ImportBookSidecarType::Artwork, suffix, extension: ext }),
        None => None,
    }
}

/// The sidecars of a book among the files of its directory: every file other than the book
/// that is a sidecar of the book's name, sorted by path.
pub open spec fn book_sidecars(book_file: Seq<char>, files: Seq<String>) -> Seq<Seq<char>> {
    match file_stem(book_file) {
        Some(base) => if parent(book_file) is Some {
            sorted_listing(Set::new(|p: Seq<char>| string_set(files).contains(p) && p != book_file && sidecar_class(p, base) is Some))
        } else {
            Seq::empty()
        },
        None => Seq::empty(),
    }
}

/// Picks the sidecars of `book_file` among the files listed in its directory (see
/// [`book_sidecars`]).
pub fn select_book_sidecar_paths(book_file: &str, files: &Vec<String>) -> (r: Vec<String>)
    ensures
        views(r@) == book_sidecars(book_file@, files@),
{
    let base = match path_file_stem(book_file) {
        Some(b) => b,
        None => {
            let r: Vec<String> = Vec::new();
            proof {
                assert(views(r@) =~= Seq::<Seq<char>>::empty());
            }
            return r;
        },
    };
    if path_parent(book_file).is_none() {
        let r: Vec<String> = Vec::new();
        proof {
            assert(views(r@) =~= Seq::<Seq<char>>::empty());
        }
        return r;
    }
    let ghost target = Set::new(|p: Seq<char>| string_set(files@).contains(p) && p != book_file@ && sidecar_class(p, base@) is Some);
    let mut chosen: Vec<String> = Vec::new();
    let mut i: usize = 0;
    proof {
        assert(string_set(chosen@) =~= Set::new(|p: Seq<char>| string_set(files@.take(0)).contains(p) && p != book_file@ && sidecar_class(p, base@) is Some));
    }
    while i < files.len()
        invariant
            i <= files@.len(),
            string_set(chosen@) == Set::new(|p: Seq<char>| string_set(files@.take(i as int)).contains(p) && p != book_file@ && sidecar_class(p, base@) is Some),
        decreases files@.len() - i,
    {
        let f = &files[i];
        let keep = !text_is(f.as_str(), book_file) && classify_import_book_sidecar(f.as_str(), base.as_str()).is_some();
        let ghost before = chosen@;
        if keep {
            chosen.push(f.clone());
        }
        proof {
            crate::string_set::lemma_string_set_take_next(files@, i as int);
            if keep {
                crate::string_set::lemma_string_set_push(before, files@[i as int]);
            }
            assert(string_set(chosen@) =~= Set::new(|p: Seq<char>| string_set(files@.take(i + 1)).contains(p) && p != book_file@ && sidecar_class(p, base@) is Some));
        }
        i += 1;
    }
    proof {
        crate::string_set::lemma_string_set_take_all(files@);
        assert(string_set(chosen@) =~= target);
    }
    sorted_unique_strings(&chosen)
}

/// A sidecar to carry over with an imported book.
#[derive(Clone, Debug)]
pub struct ImportBookSidecarTransfer {
    pub source_path: String,
    pub destination_path: String,
    pub sidecar_type: ImportBookSidecarType,
}

pub open spec fn transfer_views(v: Seq<ImportBookSidecarTransfer>) -> Seq<(Seq<char>, Seq<char>, ImportBookSidecarType)> {
    v.map_values(|t: ImportBookSidecarTransfer| (t.source_path@, t.destination_path@, t.sidecar_type))
}

/// Where one sidecar of the source goes: beside the destination file, named after it with
/// the sidecar's suffix and extension.
pub open spec fn transfer_of(source: Seq<char>, destination: Seq<char>, sidecar: Seq<char>) -> Option<(Seq<char>, Seq<char>, ImportBookSidecarType)> {
    match (parent(destination), file_stem(source), file_stem(destination)) {
        (Some(dir), Some(sbase), Some(dbase)) => match sidecar_class(sidecar, sbase) {
            Some((t, suffix, e)) => Some((sidecar, join(dir, dbase + suffix + seq!['.'] + e), t)),
            None => None,
        },
        _ => None,
    }
}

pub open spec fn transfers_of(source: Seq<char>, destination: Seq<char>, sidecars: Seq<Seq<char>>) -> Seq<(Seq<char>, Seq<char>, ImportBookSidecarType)>
    decreases sidecars.len(),
{
    if sidecars.len() == 0 {
        Seq::empty()
    } else {
        let rest = transfers_of(source, destination, sidecars.drop_last());
        match transfer_of(source, destination, sidecars.last()) {
            Some(t) => rest.push(t),
            None => rest,
        }
    }
}

/// The sidecars that travel with an imported book, in the order of `source_sidecars` (the
/// source's sidecars, sorted by path).
pub fn collect_import_book_sidecars(source_file: &str, destination_file: &str, source_sidecars: &Vec<String>) -> (r: Vec<ImportBookSidecarTransfer>)
    ensures
        transfer_views(r@) == transfers_of(source_file@, destination_file@, views(source_sidecars@)),
{
    let mut out: Vec<ImportBookSidecarTransfer> = Vec::new();
    let dir = path_parent(destination_file);
    let sbase = path_file_stem(source_file);
    let dbase = path_file_stem(destination_file);
    let mut i: usize = 0;
    let ghost vs = views(source_sidecars@);
    proof {
        assert(transfer_views(out@) =~= transfers_of(source_file@, destination_file@, vs.take(0)));
    }
    while i < source_sidecars.len()
        invariant
            i <= source_sidecars@.len(),
            vs == views(source_sidecars@),
            crate::metadata_support::opt_view(dir) == parent(destination_file@),
            crate::metadata_support::opt_view(sbase) == file_stem(source_file@),
            crate::metadata_support::opt_view(dbase) == file_stem(destination_file@),
            transfer_views(out@) == transfers_of(source_file@, destination_file@, vs.take(i as int)),
        decreases source_sidecars@.len() - i,
    {
        proof {
            assert(vs.take(i + 1).drop_last() =~= vs.take(i as int));
            assert(vs.take(i + 1).last() == source_sidecars@[i as int]@);
        }
        match (&dir, &sbase, &dbase) {
            (Some(d), Some(sb), Some(db)) => {
                let path = &source_sidecars[i];
                match classify_import_book_sidecar(path.as_str(), sb.as_str()) {
                    Some(c) => {
                        let mut name = chars_of(db.as_str());
                        push_chars(&mut name, chars_of(c.suffix.as_str()).as_slice());
                        name.push('.');
                        push_chars(&mut name, chars_of(c.extension.as_str()).as_slice());
                        let name_s = string_from_chars(name.as_slice());
                        let destination = path_join(d.as_str(), name_s.as_str());
                        let ghost before = transfer_views(out@);
                        out.push(ImportBookSidecarTransfer { source_path: path.clone(), destination_path: destination, sidecar_type: c.sidecar_type });
                        proof {
                            assert(name@ =~= db@ + c.suffix@ + seq!['.'] + c.extension@);
                            assert(transfer_views(out@) =~= before.push((path@, destination@, c.sidecar_type)));
                        }
                    },
                    None => {},
                }
            },
            _ => {},
        }
        i += 1;
    }
    proof {
        assert(vs.take(vs.len() as int) =~= vs);
    }
    out
}

/// Whether some sidecar of each kind is among the transfers.
pub fn import_book_sidecar_result(transfers: &Vec<ImportBookSidecarTransfer>) -> (r: (bool, bool))
    ensures
        r.0 == exists|i: int| 0 <= i < transfers@.len() && #[trigger] transfers@[i].sidecar_type == ImportBookSidecarType::Metadata,
        r.1 == exists|i: int| 0 <= i < transfers@.len() && #[trigger] transfers@[i].sidecar_type == ImportBookSidecarType::Artwork,
{
    let mut metadata = false;
    let mut artwork = false;
    let mut i: usize = 0;
    while i < transfers.len()
        invariant
            i <= transfers@.len(),
            metadata == exists|k: int| 0 <= k < i && #[trigger] transfers@[k].sidecar_type == ImportBookSidecarType::Metadata,
            artwork == exists|k: int| 0 <= k < i && #[trigger] transfers@[k].sidecar_type == ImportBookSidecarType::Artwork,
        decreases transfers@.len() - i,
    {
        match transfers[i].sidecar_type {
            ImportBookSidecarType::Metadata => metadata = true,
            ImportBookSidecarType::Artwork => artwork = true,
        }
        i += 1;
    }
    (metadata, artwork)
}

/// The identifier a scan gives the book at `path`: `book-` and the hash of the path.
pub fn scanner_book_id_for_path(path: &str) -> (id: String)
    ensures
        id@ == crate::ids::hashed_id("book"@, path@),
{
    hashed_id_for("book", path)
}

/// The checks of an import request that the series decides: a oneshot series can only
/// take an upgrade of its book.
pub fn check_import_series_target(oneshot: bool, has_upgrade_book: bool) -> (r: Result<(), ImportError>)
    ensures
        r is Ok <==> !(oneshot && !has_upgrade_book),
        r matches Err(e) ==> e is OneshotWithoutUpgrade,
{
    if oneshot && !has_upgrade_book {
        Err(ImportError::OneshotWithoutUpgrade)
    } else {
        Ok(())
    }
}

/// An upgraded book must belong to the series the import targets.
pub fn check_upgrade_series(expected_series_id: &String, upgrade_series_id: &String) -> (r: Result<(), ImportError>)
    ensures
        r is Ok <==> expected_series_id@ == upgrade_series_id@,
        r matches Err(e) ==> (e matches ImportError::UpgradeSeriesMismatch(a, b) && a@ == expected_series_id@ && b@ == upgrade_series_id@),
{
    if *expected_series_id == *upgrade_series_id {
        Ok(())
    } else {
        Err(ImportError::UpgradeSeriesMismatch(expected_series_id.clone(), upgrade_series_id.clone()))
    }
}

/// What moving a book's identity to its upgraded file writes: nothing when the identifier
/// does not change, else the new file's stem as name (empty when it has none) and its URL
/// under the library root.
pub fn upgrade_identity_migration(old_book_id: &String, new_book_id: &String, library_root: &str, destination_file: &str) -> (r: Result<Option<(String, String)>, ImportError>)
    ensures
        old_book_id@ == new_book_id@ ==> r matches Ok(None),
        old_book_id@ != new_book_id@ ==> match r {
            Ok(Some((name, url))) => name@ == (match file_stem(destination_file@) {
                Some(s) => s,
                None => Seq::empty(),
            }) && library_relative_url(library_root@, destination_file@) == Some(url@),
            Ok(None) => false,
            Err(e) => library_relative_url(library_root@, destination_file@) is None && e is OutsideLibraryRoot,
        },
{
    if *old_book_id == *new_book_id {
        return Ok(None);
    }
    let name = match path_file_stem(destination_file) {
        Some(s) => s,
        None => String::new(),
    };
    match import_book_url_for_library_root(library_root, destination_file) {
        Ok(url) => Ok(Some((name, url))),
        Err(e) => Err(e),
    }
}

/// When an upgraded book's old file is removed: before the copy when the new file takes its
/// place, after it otherwise.
pub fn remove_upgrade_before_copy(destination_file: &str, upgrade_file: &str) -> (r: bool)
    ensures
        r == (path_components(destination_file@) == path_components(upgrade_file@)),
{
    paths_equal(destination_file, upgrade_file)
}

} // verus!

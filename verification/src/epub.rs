//! Book and series metadata read from an EPUB package document, event by event.
use vstd::prelude::*;
use vstd::string::StringExecFns;
use crate::metadata_patch::{author_views, BookMetadataAuthor, SeriesReadingDirection};
use crate::metadata_support::{
    is_calendar_date, is_valid_calendar_date, isbn13_spec, nonblank, nonblank_spec, normalize_isbn13,
    opt_view,
};
use crate::text::{
    ascii_lower, chars_end_with, chars_equal, chars_of, char_is_whitespace, eq_ignore_ascii_case,
    format_int_padded, has_prefix, has_suffix, is_whitespace, lower_chars, parse_i32,
    parse_integer_in, parse_u8, push_int_padded, push_zero_padded, string_from_chars, trim,
    trim_chars, zero_padded,
};
use crate::xml::XmlAttribute;

verus! {

/// Whether an element or attribute name, as written, ends with the expected local name
/// (`dc:title` matches `title`).
pub open spec fn name_matches(actual: Seq<char>, expected: Seq<char>) -> bool {
    has_suffix(actual, expected)
}

pub fn xml_name_matches_local(actual: &str, expected: &str) -> (r: bool)
    ensures
        r == name_matches(actual@, expected@),
{
    let a = chars_of(actual);
    let e = chars_of(expected);
    chars_end_with(a.as_slice(), e.as_slice())
}

/// Why an EPUB package document could not be read.
#[derive(Debug)]
pub enum EpubError {
    /// The XML is malformed while book metadata is read; the reader's message.
    Malformed(String),
    /// The XML is malformed while series metadata is read; the reader's message.
    MalformedSeries(String),
    /// An attribute of a start tag is malformed.
    Attribute,
    /// An attribute's value could not be normalized.
    AttributeValue,
}

/// The ghost form of an [`EpubError`].
pub enum EpubFailure {
    Malformed(Seq<char>),
    MalformedSeries(Seq<char>),
    Attribute,
    AttributeValue,
}

impl View for EpubError {
    type V = EpubFailure;

    open spec fn view(&self) -> EpubFailure {
        match self {
            EpubError::Malformed(m) => EpubFailure::Malformed(m@),
            EpubError::MalformedSeries(m) => EpubFailure::MalformedSeries(m@),
            EpubError::Attribute => EpubFailure::Attribute,
            EpubError::AttributeValue => EpubFailure::AttributeValue,
        }
    }
}

/// The human-readable description of an EPUB package failure.
pub open spec fn epub_failure_message(f: EpubFailure) -> Seq<char> {
    match f {
        EpubFailure::Malformed(m) => "failed to parse EPUB package document for book metadata: "@ + m,
        EpubFailure::MalformedSeries(m) => "failed to parse EPUB package document for series metadata: "@ + m,
        EpubFailure::Attribute => "failed to parse EPUB package document attribute"@,
        EpubFailure::AttributeValue => "failed to parse EPUB package document attribute value: "@,
    }
}

impl EpubError {
    /// A human-readable description of the failure.
    pub fn message(&self) -> (text: String)
        ensures
            text@ == epub_failure_message(self@),
    {
        match self {
            EpubError::Malformed(m) => {
                let mut text = String::from_str("failed to parse EPUB package document for book metadata: ");
                text.append(m.as_str());
                text
            },
            EpubError::MalformedSeries(m) => {
                let mut text = String::from_str("failed to parse EPUB package document for series metadata: ");
                text.append(m.as_str());
                text
            },
            EpubError::Attribute => String::from_str("failed to parse EPUB package document attribute"),
            EpubError::AttributeValue => String::from_str("failed to parse EPUB package document attribute value: "),
        }
    }
}

/// Attribute lists with the same plain values give the same lookups.
proof fn lemma_attr_value_by_views(a: Seq<XmlAttribute>, b: Seq<XmlAttribute>)
    requires
        crate::xml::attribute_views(a) == crate::xml::attribute_views(b),
    ensures
        forall|key: Seq<char>| #[trigger] attr_value(a, key) == attr_value(b, key),
    decreases a.len(),
{
    assert(a.len() == crate::xml::attribute_views(a).len() && b.len() == crate::xml::attribute_views(b).len());
    if a.len() > 0 {
        assert(crate::xml::attribute_views(a.drop_first()) =~= crate::xml::attribute_views(a).drop_first());
        assert(crate::xml::attribute_views(b.drop_first()) =~= crate::xml::attribute_views(b).drop_first());
        lemma_attr_value_by_views(a.drop_first(), b.drop_first());
        assert(a[0]@ == crate::xml::attribute_views(a)[0]);
        assert(b[0]@ == crate::xml::attribute_views(b)[0]);
        assert forall|key: Seq<char>| #[trigger] attr_value(a, key) == attr_value(b, key) by {
            assert(attr_value(a.drop_first(), key) == attr_value(b.drop_first(), key));
        }
    } else {
        assert forall|key: Seq<char>| #[trigger] attr_value(a, key) == attr_value(b, key) by {}
    }
}

/// Items with the same plain values have attribute lists with the same lookups.
proof fn lemma_item_attrs_by_views(x: crate::xml::XmlItem, y: crate::xml::XmlItem)
    requires
        x@ == y@,
    ensures
        (x matches crate::xml::XmlItem::Start { attributes: p, .. } ==> (y matches crate::xml::XmlItem::Start { attributes: q, .. }
            && forall|key: Seq<char>| #[trigger] attr_value(p@, key) == attr_value(q@, key))),
        (x matches crate::xml::XmlItem::Empty { attributes: p, .. } ==> (y matches crate::xml::XmlItem::Empty { attributes: q, .. }
            && forall|key: Seq<char>| #[trigger] attr_value(p@, key) == attr_value(q@, key))),
{
    match (x, y) {
        (crate::xml::XmlItem::Start { attributes: p, .. }, crate::xml::XmlItem::Start { attributes: q, .. }) => {
            lemma_attr_value_by_views(p@, q@);
        },
        (crate::xml::XmlItem::Empty { attributes: p, .. }, crate::xml::XmlItem::Empty { attributes: q, .. }) => {
            lemma_attr_value_by_views(p@, q@);
        },
        _ => {},
    }
}

/// The value of the first attribute whose name matches `key`: `None` when no attribute
/// before the first malformed one matches; an error at a malformed attribute or value.
pub open spec fn attr_value(attrs: Seq<XmlAttribute>, key: Seq<char>) -> Result<Option<Seq<char>>, EpubFailure>
    decreases attrs.len(),
{
    if attrs.len() == 0 {
        Ok(None)
    } else {
        match attrs[0] {
            XmlAttribute::Malformed => Err(EpubFailure::Attribute),
            XmlAttribute::Attribute { key: k, value } => if name_matches(k@, key) {
                match value {
                    Some(v) => Ok(Some(v@)),
                    None => Err(EpubFailure::AttributeValue),
                }
            } else {
                attr_value(attrs.drop_first(), key)
            },
        }
    }
}

pub fn attribute_value(attrs: &Vec<XmlAttribute>, key: &str) -> (r: Result<Option<String>, EpubError>)
    ensures
        match r {
            Ok(v) => attr_value(attrs@, key@) == Ok::<Option<Seq<char>>, EpubFailure>(opt_view(v)),
            Err(e) => attr_value(attrs@, key@) == Err::<Option<Seq<char>>, EpubFailure>(e@),
        },
{
    let mut i: usize = 0;
    proof {
        assert(attrs@.skip(0) =~= attrs@);
    }
    while i < attrs.len()
        invariant
            i <= attrs@.len(),
            attr_value(attrs@, key@) == attr_value(attrs@.skip(i as int), key@),
        decreases attrs@.len() - i,
    {
        proof {
            assert(attrs@.skip(i as int)[0] == attrs@[i as int]);
            assert(attrs@.skip(i as int).drop_first() =~= attrs@.skip(i + 1));
        }
        match &attrs[i] {
            XmlAttribute::Malformed => return Err(EpubError::Attribute),
            XmlAttribute::Attribute { key: k, value } => {
                if xml_name_matches_local(k.as_str(), key) {
                    return match value {
                        Some(v) => Ok(Some(v.clone())),
                        None => Err(EpubError::AttributeValue),
                    };
                }
            },
        }
        i += 1;
    }
    proof {
        assert(attrs@.skip(i as int) =~= Seq::<XmlAttribute>::empty());
    }
    Ok(None)
}

/// `s` without its leading `#` characters.
pub open spec fn strip_hashes(s: Seq<char>) -> Seq<char>
    decreases s.len(),
{
    if s.len() > 0 && s[0] == '#' {
        strip_hashes(s.drop_first())
    } else {
        s
    }
}

/// The id that a `refines` attribute points at: trimmed, without leading `#`.
pub open spec fn refines_id(value: Seq<char>) -> Seq<char> {
    strip_hashes(trim(value))
}

pub fn normalize_epub_refines(value: &str) -> (r: String)
    ensures
        r@ == refines_id(value@),
{
    let chars = chars_of(value);
    let t = trim_chars(chars.as_slice());
    let mut i: usize = 0;
    proof {
        assert(t@.skip(0) =~= t@);
    }
    while i < t.len() && t[i] == '#'
        invariant
            i <= t@.len(),
            t@ == trim(value@),
            strip_hashes(t@) == strip_hashes(t@.skip(i as int)),
        decreases t@.len() - i,
    {
        proof {
            assert(t@.skip(i as int).drop_first() =~= t@.skip(i + 1));
        }
        i += 1;
    }
    let mut out: Vec<char> = Vec::new();
    let start = i;
    while i < t.len()
        invariant
            start <= i <= t@.len(),
            out@ == t@.subrange(start as int, i as int),
        decreases t@.len() - i,
    {
        out.push(t[i]);
        i += 1;
        proof {
            assert(out@ =~= t@.subrange(start as int, i as int));
        }
    }
    proof {
        assert(out@ =~= t@.skip(start as int));
    }
    string_from_chars(out.as_slice())
}

/// The author role that a MARC relator code gives (trimmed, any ASCII case; `writer` when
/// none is given): `aut` writer, `clr` colorist, `cov` cover, `edt` editor, `art` and `ill`
/// penciller, `trl` translator, anything else writer.
pub open spec fn author_role(value: Option<Seq<char>>) -> Seq<char> {
    match value {
        None => "writer"@,
        Some(v) => {
            let c = ascii_lower(trim(v));
            if c == ascii_lower("aut"@) {
                "writer"@
            } else if c == ascii_lower("clr"@) {
                "colorist"@
            } else if c == ascii_lower("cov"@) {
                "cover"@
            } else if c == ascii_lower("edt"@) {
                "editor"@
            } else if c == ascii_lower("art"@) || c == ascii_lower("ill"@) {
                "penciller"@
            } else if c == ascii_lower("trl"@) {
                "translator"@
            } else {
                "writer"@
            }
        },
    }
}

pub fn map_epub_author_role(value: Option<&str>) -> (r: &'static str)
    ensures
        r@ == author_role(match value {
            Some(v) => Some(v@),
            None => None,
        }),
{
    let v = match value {
        Some(v) => v,
        None => return "writer",
    };
    let t = string_from_chars(trim_chars(chars_of(v).as_slice()).as_slice());
    let c = t.as_str();
    if eq_ignore_ascii_case(c, "aut") {
        "writer"
    } else if eq_ignore_ascii_case(c, "clr") {
        "colorist"
    } else if eq_ignore_ascii_case(c, "cov") {
        "cover"
    } else if eq_ignore_ascii_case(c, "edt") {
        "editor"
    } else if eq_ignore_ascii_case(c, "art") || eq_ignore_ascii_case(c, "ill") {
        "penciller"
    } else if eq_ignore_ascii_case(c, "trl") {
        "translator"
    } else {
        "writer"
    }
}

/// The release date `YYYY-MM-DD` that an EPUB date gives: its first ten characters (after
/// trimming) must read year, `-`, month, `-`, day, with a 32-bit year and a day that exists.
pub open spec fn epub_date(value: Seq<char>) -> Option<Seq<char>> {
    let t = trim(value);
    let c = if t.len() >= 10 { t.take(10) } else { t };
    if c.len() != 10 || c[4] != '-' || c[7] != '-' {
        None
    } else {
        match (parse_integer_in(c.take(4), true, i32::MIN as int, i32::MAX as int),
            parse_integer_in(c.subrange(5, 7), false, 0, 255),
            parse_integer_in(c.subrange(8, 10), false, 0, 255)) {
            (Some(y), Some(m), Some(d)) => if is_calendar_date(y, m, d) {
                Some(format_int_padded(y, 4) + seq!['-'] + zero_padded(m as nat, 2) + seq!['-'] + zero_padded(d as nat, 2))
            } else {
                None
            },
            _ => None,
        }
    }
}

fn sub_chars(s: &[char], from: usize, to: usize) -> (r: Vec<char>)
    requires
        from <= to <= s@.len(),
    ensures
        r@ == s@.subrange(from as int, to as int),
{
    let mut out: Vec<char> = Vec::new();
    let mut i = from;
    while i < to
        invariant
            from <= i <= to,
            to <= s@.len(),
            out@ == s@.subrange(from as int, i as int),
        decreases to - i,
    {
        out.push(s[i]);
        i += 1;
        proof {
            assert(out@ =~= s@.subrange(from as int, i as int));
        }
    }
    out
}

pub fn normalize_epub_date(value: &str) -> (r: Option<String>)
    ensures
        opt_view(r) == epub_date(value@),
{
    let t = trim_chars(chars_of(value).as_slice());
    if t.len() < 10 {
        return None;
    }
    let c = sub_chars(t.as_slice(), 0, 10);
    proof {
        assert(c@ =~= trim(value@).take(10));
    }
    if c[4] != '-' || c[7] != '-' {
        return None;
    }
    let ys = sub_chars(c.as_slice(), 0, 4);
    let ms = sub_chars(c.as_slice(), 5, 7);
    let ds = sub_chars(c.as_slice(), 8, 10);
    proof {
        assert(ys@ =~= c@.take(4));
    }
    let year = match parse_i32(ys.as_slice()) {
        Some(y) => y,
        None => return None,
    };
    let month = match parse_u8(ms.as_slice()) {
        Some(m) => m,
        None => return None,
    };
    let day = match parse_u8(ds.as_slice()) {
        Some(d) => d,
        None => return None,
    };
    if !is_valid_calendar_date(year, month, day) {
        return None;
    }
    let mut out: Vec<char> = Vec::new();
    push_int_padded(&mut out, year as i64, 4);
    out.push('-');
    push_zero_padded(&mut out, month as u64, 2);
    out.push('-');
    push_zero_padded(&mut out, day as u64, 2);
    proof {
        assert(out@ =~= format_int_padded(year as int, 4) + seq!['-'] + zero_padded(month as nat, 2) + seq!['-'] + zero_padded(day as nat, 2));
    }
    Some(string_from_chars(out.as_slice()))
}

/// The ISBN-13 of an EPUB identifier: trimmed and ASCII-lower-cased, without a leading
/// `isbn:`.
pub open spec fn epub_identifier_isbn(value: Seq<char>) -> Option<Seq<char>> {
    let l = ascii_lower(trim(value));
    let prefix = seq!['i', 's', 'b', 'n', ':'];
    isbn13_spec(if has_prefix(l, prefix) { l.skip(5) } else { l })
}

pub fn normalize_epub_identifier_isbn(value: &str) -> (r: Option<String>)
    ensures
        opt_view(r) == epub_identifier_isbn(value@),
{
    let l = lower_chars(trim_chars(chars_of(value).as_slice()).as_slice());
    let prefix = ['i', 's', 'b', 'n', ':'];
    proof {
        assert(prefix@ =~= seq!['i', 's', 'b', 'n', ':']);
    }
    let candidate = if crate::text::chars_start_with(l.as_slice(), prefix.as_slice()) {
        sub_chars(l.as_slice(), 5, l.len())
    } else {
        sub_chars(l.as_slice(), 0, l.len())
    };
    proof {
        assert(l@.subrange(5, l@.len() as int) =~= l@.skip(5));
        assert(l@.subrange(0, l@.len() as int) =~= l@);
    }
    let s = string_from_chars(candidate.as_slice());
    normalize_isbn13(s.as_str())
}

/// Markup tags replaced by single spaces: `<` and `>` each give a space unless the output
/// already ends with one, and what lies between them is dropped.
pub open spec fn untagged(s: Seq<char>) -> (Seq<char>, bool)
    decreases s.len(),
{
    if s.len() == 0 {
        (Seq::empty(), false)
    } else {
        let (out, inside) = untagged(s.drop_last());
        let c = s.last();
        let spaced = if out.len() > 0 && out.last() == ' ' { out } else { out.push(' ') };
        if c == '<' {
            (spaced, true)
        } else if c == '>' {
            (spaced, false)
        } else if !inside {
            (out.push(c), inside)
        } else {
            (out, inside)
        }
    }
}

/// The words of `s` (runs without white space) joined by single spaces, with a flag telling
/// whether white space followed the last word.
pub open spec fn joined_words(s: Seq<char>) -> (Seq<char>, bool)
    decreases s.len(),
{
    if s.len() == 0 {
        (Seq::empty(), false)
    } else {
        let (out, pending) = joined_words(s.drop_last());
        let c = s.last();
        if is_whitespace(c) {
            (out, out.len() > 0)
        } else if pending {
            (out.push(' ').push(c), false)
        } else {
            (out.push(c), false)
        }
    }
}

/// A description without markup: tags become spaces and white space collapses to single
/// spaces between words.
pub open spec fn stripped_markup(s: Seq<char>) -> Seq<char> {
    joined_words(untagged(s).0).0
}

pub fn strip_markup_tags(value: &str) -> (r: String)
    ensures
        r@ == stripped_markup(value@),
{
    let chars = chars_of(value);
    let mut out: Vec<char> = Vec::new();
    let mut inside = false;
    let mut i: usize = 0;
    while i < chars.len()
        invariant
            i <= chars@.len(),
            chars@ == value@,
            untagged(value@.take(i as int)) == (out@, inside),
        decreases chars@.len() - i,
    {
        proof {
            assert(value@.take(i + 1).drop_last() =~= value@.take(i as int));
        }
        let c = chars[i];
        if c == '<' || c == '>' {
            inside = c == '<';
            if !(out.len() > 0 && out[out.len() - 1] == ' ') {
                out.push(' ');
            }
        } else if !inside {
            out.push(c);
        }
        i += 1;
    }
    proof {
        assert(value@.take(value@.len() as int) =~= value@);
    }
    let ghost u = out@;
    let mut words: Vec<char> = Vec::new();
    let mut pending = false;
    let mut k: usize = 0;
    while k < out.len()
        invariant
            k <= out@.len(),
            out@ == u,
            joined_words(u.take(k as int)) == (words@, pending),
        decreases out@.len() - k,
    {
        proof {
            assert(u.take(k + 1).drop_last() =~= u.take(k as int));
        }
        let c = out[k];
        if char_is_whitespace(c) {
            pending = words.len() > 0;
        } else {
            if pending {
                words.push(' ');
            }
            words.push(c);
            pending = false;
        }
        k += 1;
    }
    proof {
        assert(u.take(u.len() as int) =~= u);
    }
    string_from_chars(words.as_slice())
}

/// The value stored under `key` in an association list where the first entry for a key
/// wins.
pub open spec fn first_value(v: Seq<(Seq<char>, Seq<char>)>, key: Seq<char>) -> Option<Seq<char>>
    decreases v.len(),
{
    if v.len() == 0 {
        None
    } else {
        match first_value(v.drop_last(), key) {
            Some(x) => Some(x),
            None => if v.last().0 == key {
                Some(v.last().1)
            } else {
                None
            },
        }
    }
}

/// Adds `key` with `value` unless the key is already there.
pub open spec fn insert_first(v: Seq<(Seq<char>, Seq<char>)>, key: Seq<char>, value: Seq<char>) -> Seq<(Seq<char>, Seq<char>)> {
    if first_value(v, key) is Some {
        v
    } else {
        v.push((key, value))
    }
}

pub open spec fn pair_views(v: Seq<(String, String)>) -> Seq<(Seq<char>, Seq<char>)> {
    v.map_values(|p: (String, String)| (p.0@, p.1@))
}

proof fn lemma_first_value_persists(v: Seq<(Seq<char>, Seq<char>)>, key: Seq<char>, k: int)
    requires
        0 <= k <= v.len(),
        first_value(v.take(k), key) is Some,
    ensures
        first_value(v, key) == first_value(v.take(k), key),
    decreases v.len() - k,
{
    if k < v.len() {
        assert(v.take(k + 1).drop_last() =~= v.take(k));
        lemma_first_value_persists(v, key, k + 1);
    } else {
        assert(v.take(k) =~= v);
    }
}

/// The value stored under `key` (see [`first_value`]).
fn lookup_first(v: &Vec<(String, String)>, key: &String) -> (r: Option<String>)
    ensures
        opt_view(r) == first_value(pair_views(v@), key@),
{
    let ghost pv = pair_views(v@);
    let mut i: usize = 0;
    proof {
        assert(pv.take(0) =~= Seq::<(Seq<char>, Seq<char>)>::empty());
    }
    while i < v.len()
        invariant
            i <= v@.len(),
            pv == pair_views(v@),
            first_value(pv.take(i as int), key@) is None,
        decreases v@.len() - i,
    {
        proof {
            assert(pv.take(i + 1).drop_last() =~= pv.take(i as int));
            assert(pv.take(i + 1).last() == pv[i as int]);
        }
        if v[i].0 == *key {
            proof {
                lemma_first_value_persists(pv, key@, i + 1);
            }
            return Some(v[i].1.clone());
        }
        i += 1;
    }
    proof {
        assert(pv.take(pv.len() as int) =~= pv);
    }
    None
}

/// Adds `key` with `value` unless the key is already there (see [`insert_first`]).
fn insert_first_value(v: &mut Vec<(String, String)>, key: String, value: String)
    ensures
        pair_views(final(v)@) == insert_first(pair_views(old(v)@), key@, value@),
{
    if lookup_first(v, &key).is_none() {
        let ghost before = pair_views(v@);
        let ghost kv = (key@, value@);
        v.push((key, value));
        proof {
            assert(pair_views(v@) =~= before.push(kv));
        }
    }
}

/// What text is being collected for.
#[derive(Debug)]
pub enum EpubTextTarget {
    Title,
    Description,
    Date,
    Identifier,
    Creator { id: Option<String>, role_attr: Option<String> },
    RoleMeta { refines: Option<String> },
    GroupPosition { refines: Option<String> },
}

/// The ghost form of an [`EpubTextTarget`].
pub enum EpubTarget {
    Title,
    Description,
    Date,
    Identifier,
    Creator { id: Option<Seq<char>>, role_attr: Option<Seq<char>> },
    RoleMeta { refines: Option<Seq<char>> },
    GroupPosition { refines: Option<Seq<char>> },
}

impl View for EpubTextTarget {
    type V = EpubTarget;

    open spec fn view(&self) -> EpubTarget {
        match self {
            EpubTextTarget::Title => EpubTarget::Title,
            EpubTextTarget::Description => EpubTarget::Description,
            EpubTextTarget::Date => EpubTarget::Date,
            EpubTextTarget::Identifier => EpubTarget::Identifier,
            EpubTextTarget::Creator { id, role_attr } => EpubTarget::Creator { id: opt_view(*id), role_attr: opt_view(*role_attr) },
            EpubTextTarget::RoleMeta { refines } => EpubTarget::RoleMeta { refines: opt_view(*refines) },
            EpubTextTarget::GroupPosition { refines } => EpubTarget::GroupPosition { refines: opt_view(*refines) },
        }
    }
}

/// The state of reading book metadata from a package document.
pub struct EpubBookParse {
    pub target: Option<EpubTarget>,
    pub text: Seq<char>,
    pub title: Option<Seq<char>>,
    pub description: Option<Seq<char>>,
    pub release_date: Option<Seq<char>>,
    pub identifiers: Seq<Seq<char>>,
    pub authors: Seq<(Seq<char>, Seq<char>)>,
    /// Roles given by `refines` metadata, by the id of the creator they refine.
    pub roles: Seq<(Seq<char>, Seq<char>)>,
    /// Group positions given by `refines` metadata, by the id of the collection.
    pub positions: Seq<(Seq<char>, Seq<char>)>,
    /// The id of the first collection the book belongs to.
    pub collection_id: Option<Seq<char>>,
    /// Set once the document has ended or failed.
    pub outcome: Option<Result<(), EpubFailure>>,
}

pub open spec fn epub_book_start() -> EpubBookParse {
    EpubBookParse {
        target: None,
        text: Seq::empty(),
        title: None,
        description: None,
        release_date: None,
        identifiers: Seq::empty(),
        authors: Seq::empty(),
        roles: Seq::empty(),
        positions: Seq::empty(),
        collection_id: None,
        outcome: None,
    }
}

pub open spec fn book_failed(s: EpubBookParse, e: EpubFailure) -> EpubBookParse {
    EpubBookParse { outcome: Some(Err(e)), ..s }
}

/// The target that a start tag opens: title, description, date, identifier, or a creator
/// with its `id` and `role` attributes.
pub open spec fn target_from_start(name: Seq<char>, attrs: Seq<XmlAttribute>) -> Result<Option<EpubTarget>, EpubFailure> {
    if name_matches(name, "title"@) {
        Ok(Some(EpubTarget::Title))
    } else if name_matches(name, "description"@) {
        Ok(Some(EpubTarget::Description))
    } else if name_matches(name, "date"@) {
        Ok(Some(EpubTarget::Date))
    } else if name_matches(name, "identifier"@) {
        Ok(Some(EpubTarget::Identifier))
    } else if name_matches(name, "creator"@) {
        match attr_value(attrs, "id"@) {
            Err(e) => Err(e),
            Ok(id) => match attr_value(attrs, "role"@) {
                Err(e) => Err(e),
                Ok(role) => Ok(Some(EpubTarget::Creator { id, role_attr: role })),
            },
        }
    } else {
        Ok(None)
    }
}

pub open spec fn property_is(property: Option<Seq<char>>, name: Seq<char>) -> bool {
    match property {
        Some(p) => ascii_lower(p) == ascii_lower(name),
        None => false,
    }
}

pub open spec fn refines_of(r: Option<Seq<char>>) -> Option<Seq<char>> {
    match r {
        Some(v) => Some(refines_id(v)),
        None => None,
    }
}

pub open spec fn nonblank_opt(o: Option<Seq<char>>) -> Option<Seq<char>> {
    match o {
        Some(v) => nonblank_spec(v),
        None => None,
    }
}

/// A `meta` element: a MARC relator role or a group position for the element it refines,
/// given by `content` or by the text that follows; or the id of the collection the book
/// belongs to (the first one counts).
pub open spec fn meta_step(s: EpubBookParse, attrs: Seq<XmlAttribute>) -> EpubBookParse {
    match attr_value(attrs, "property"@) {
        Err(e) => book_failed(s, e),
        Ok(property) => match attr_value(attrs, "content"@) {
            Err(e) => book_failed(s, e),
            Ok(content) => {
                let value = nonblank_opt(content);
                if property_is(property, "role"@) {
                    match attr_value(attrs, "scheme"@) {
                        Err(e) => book_failed(s, e),
                        Ok(scheme) => if !property_is(scheme, "marc:relators"@) {
                            s
                        } else {
                            match attr_value(attrs, "refines"@) {
                                Err(e) => book_failed(s, e),
                                Ok(r) => {
                                    let refines = refines_of(r);
                                    match value {
                                        Some(v) => match refines {
                                            Some(rf) => EpubBookParse { roles: insert_first(s.roles, rf, v), ..s },
                                            None => s,
                                        },
                                        None => EpubBookParse { target: Some(EpubTarget::RoleMeta { refines }), text: Seq::empty(), ..s },
                                    }
                                },
                            }
                        },
                    }
                } else if property_is(property, "belongs-to-collection"@) {
                    if s.collection_id is None {
                        match attr_value(attrs, "id"@) {
                            Err(e) => book_failed(s, e),
                            Ok(id) => EpubBookParse { collection_id: nonblank_opt(id), ..s },
                        }
                    } else {
                        s
                    }
                } else if property_is(property, "group-position"@) {
                    match attr_value(attrs, "refines"@) {
                        Err(e) => book_failed(s, e),
                        Ok(r) => {
                            let refines = refines_of(r);
                            match value {
                                Some(v) => match refines {
                                    Some(rf) => EpubBookParse { positions: insert_first(s.positions, rf, v), ..s },
                                    None => s,
                                },
                                None => EpubBookParse { target: Some(EpubTarget::GroupPosition { refines }), text: Seq::empty(), ..s },
                            }
                        },
                    }
                } else {
                    s
                }
            },
        },
    }
}

/// Whether a closing tag ends the text being collected.
pub open spec fn target_matches_end(target: Option<EpubTarget>, name: Seq<char>) -> bool {
    match target {
        Some(EpubTarget::Title) => name_matches(name, "title"@),
        Some(EpubTarget::Description) => name_matches(name, "description"@),
        Some(EpubTarget::Date) => name_matches(name, "date"@),
        Some(EpubTarget::Identifier) => name_matches(name, "identifier"@),
        Some(EpubTarget::Creator { .. }) => name_matches(name, "creator"@),
        Some(EpubTarget::RoleMeta { .. }) => name_matches(name, "meta"@),
        Some(EpubTarget::GroupPosition { .. }) => name_matches(name, "meta"@),
        None => false,
    }
}

/// What the collected (trimmed) text gives: the first title, description and date; every
/// identifier; a creator with the role its `role` attribute, or else the role that refines
/// its id, names; a refined role or group position unless one is already known.
pub open spec fn finalize_target(s: EpubBookParse, target: EpubTarget, value: Seq<char>) -> EpubBookParse {
    match target {
        EpubTarget::Title => if s.title is None {
            EpubBookParse { title: nonblank_spec(value), ..s }
        } else {
            s
        },
        EpubTarget::Description => if s.description is None {
            EpubBookParse { description: nonblank_spec(value), ..s }
        } else {
            s
        },
        EpubTarget::Date => if s.release_date is None {
            EpubBookParse { release_date: epub_date(value), ..s }
        } else {
            s
        },
        EpubTarget::Identifier => match nonblank_spec(value) {
            Some(v) => EpubBookParse { identifiers: s.identifiers.push(v), ..s },
            None => s,
        },
        EpubTarget::Creator { id, role_attr } => match nonblank_spec(value) {
            Some(name) => {
                let refined = match id {
                    Some(i) => first_value(s.roles, i),
                    None => None,
                };
                let role = author_role(if role_attr is Some { role_attr } else { refined });
                EpubBookParse { authors: s.authors.push((name, role)), ..s }
            },
            None => s,
        },
        EpubTarget::RoleMeta { refines } => match (refines, nonblank_spec(value)) {
            (Some(r), Some(v)) => EpubBookParse { roles: insert_first(s.roles, r, v), ..s },
            _ => s,
        },
        EpubTarget::GroupPosition { refines } => match (refines, nonblank_spec(value)) {
            (Some(r), Some(v)) => EpubBookParse { positions: insert_first(s.positions, r, v), ..s },
            _ => s,
        },
    }
}

/// One event's effect on reading book metadata.
pub open spec fn epub_book_step(s: EpubBookParse, item: crate::xml::XmlItem) -> EpubBookParse {
    if s.outcome is Some {
        s
    } else {
        match item {
            crate::xml::XmlItem::Start { name, attributes } => if name_matches(name@, "meta"@) {
                meta_step(s, attributes@)
            } else {
                match target_from_start(name@, attributes@) {
                    Err(e) => book_failed(s, e),
                    Ok(Some(t)) => EpubBookParse { target: Some(t), text: Seq::empty(), ..s },
                    Ok(None) => s,
                }
            },
            crate::xml::XmlItem::Empty { name, attributes } => if name_matches(name@, "meta"@) {
                meta_step(s, attributes@)
            } else {
                s
            },
            crate::xml::XmlItem::Text { raw, .. } => if s.target is Some {
                EpubBookParse { text: s.text + raw@, ..s }
            } else {
                s
            },
            crate::xml::XmlItem::CData { text } => if s.target is Some {
                EpubBookParse { text: s.text + text@, ..s }
            } else {
                s
            },
            crate::xml::XmlItem::End { name } => if target_matches_end(s.target, name@) {
                let f = finalize_target(s, s.target->0, trim(s.text));
                EpubBookParse { target: None, text: Seq::empty(), ..f }
            } else {
                s
            },
            crate::xml::XmlItem::Eof => EpubBookParse { outcome: Some(Ok(())), ..s },
            crate::xml::XmlItem::Failed(m) => book_failed(s, EpubFailure::Malformed(m@)),
            _ => s,
        }
    }
}

pub open spec fn epub_book_run(items: Seq<crate::xml::XmlItem>) -> EpubBookParse
    decreases items.len(),
{
    if items.len() == 0 {
        epub_book_start()
    } else {
        epub_book_step(epub_book_run(items.drop_last()), items.last())
    }
}

proof fn lemma_book_outcome_persists(items: Seq<crate::xml::XmlItem>, k: int)
    requires
        0 <= k <= items.len(),
        epub_book_run(items.take(k)).outcome is Some,
    ensures
        epub_book_run(items) == epub_book_run(items.take(k)),
    decreases items.len() - k,
{
    if k < items.len() {
        assert(items.take(k + 1).drop_last() =~= items.take(k));
        lemma_book_outcome_persists(items, k + 1);
    } else {
        assert(items.take(k) =~= items);
    }
}

/// The exec state of reading book metadata.
pub struct EpubBookReader {
    pub target: Option<EpubTextTarget>,
    pub text: Vec<char>,
    pub title: Option<String>,
    pub description: Option<String>,
    pub release_date: Option<String>,
    pub identifiers: Vec<String>,
    pub authors: Vec<BookMetadataAuthor>,
    pub roles: Vec<(String, String)>,
    pub positions: Vec<(String, String)>,
    pub collection_id: Option<String>,
}

impl View for EpubBookReader {
    type V = EpubBookParse;

    open spec fn view(&self) -> EpubBookParse {
        EpubBookParse {
            target: match self.target {
                Some(t) => Some(t@),
                None => None,
            },
            text: self.text@,
            title: opt_view(self.title),
            description: opt_view(self.description),
            release_date: opt_view(self.release_date),
            identifiers: crate::ordering::views(self.identifiers@),
            authors: author_views(self.authors@),
            roles: pair_views(self.roles@),
            positions: pair_views(self.positions@),
            collection_id: opt_view(self.collection_id),
            outcome: None,
        }
    }
}

fn clone_opt(o: &Option<String>) -> (r: Option<String>)
    ensures
        r == *o,
{
    match o {
        Some(s) => Some(s.clone()),
        None => None,
    }
}

fn epub_text_target_from_start(name: &str, attrs: &Vec<XmlAttribute>) -> (r: Result<Option<EpubTextTarget>, EpubError>)
    ensures
        match r {
            Ok(Some(t)) => target_from_start(name@, attrs@) == Ok::<Option<EpubTarget>, EpubFailure>(Some(t@)),
            Ok(None) => target_from_start(name@, attrs@) == Ok::<Option<EpubTarget>, EpubFailure>(None),
            Err(e) => target_from_start(name@, attrs@) == Err::<Option<EpubTarget>, EpubFailure>(e@),
        },
{
    if xml_name_matches_local(name, "title") {
        Ok(Some(EpubTextTarget::Title))
    } else if xml_name_matches_local(name, "description") {
        Ok(Some(EpubTextTarget::Description))
    } else if xml_name_matches_local(name, "date") {
        Ok(Some(EpubTextTarget::Date))
    } else if xml_name_matches_local(name, "identifier") {
        Ok(Some(EpubTextTarget::Identifier))
    } else if xml_name_matches_local(name, "creator") {
        let id = match attribute_value(attrs, "id") {
            Ok(v) => v,
            Err(e) => return Err(e),
        };
        let role_attr = match attribute_value(attrs, "role") {
            Ok(v) => v,
            Err(e) => return Err(e),
        };
        Ok(Some(EpubTextTarget::Creator { id, role_attr }))
    } else {
        Ok(None)
    }
}

fn property_is_exec(property: &Option<String>, name: &str) -> (r: bool)
    ensures
        r == property_is(opt_view(*property), name@),
{
    match property {
        Some(p) => eq_ignore_ascii_case(p.as_str(), name),
        None => false,
    }
}

fn refines_of_exec(r: Option<String>) -> (o: Option<String>)
    ensures
        opt_view(o) == refines_of(opt_view(r)),
{
    match r {
        Some(v) => Some(normalize_epub_refines(v.as_str())),
        None => None,
    }
}

fn nonblank_opt_exec(o: &Option<String>) -> (r: Option<String>)
    ensures
        opt_view(r) == nonblank_opt(opt_view(*o)),
{
    match o {
        Some(v) => nonblank(v.as_str()),
        None => None,
    }
}

fn handle_epub_meta_event(st: &mut EpubBookReader, attrs: &Vec<XmlAttribute>) -> (r: Result<(), EpubError>)
    ensures
        match r {
            Ok(()) => meta_step(old(st)@, attrs@) == final(st)@,
            Err(e) => meta_step(old(st)@, attrs@) == book_failed(old(st)@, e@),
        },
{
    let property = match attribute_value(attrs, "property") {
        Ok(v) => v,
        Err(e) => return Err(e),
    };
    let content = match attribute_value(attrs, "content") {
        Ok(v) => v,
        Err(e) => return Err(e),
    };
    let value = nonblank_opt_exec(&content);
    if property_is_exec(&property, "role") {
        let scheme = match attribute_value(attrs, "scheme") {
            Ok(v) => v,
            Err(e) => return Err(e),
        };
        if !property_is_exec(&scheme, "marc:relators") {
            return Ok(());
        }
        let r = match attribute_value(attrs, "refines") {
            Ok(v) => v,
            Err(e) => return Err(e),
        };
        let refines = refines_of_exec(r);
        match value {
            Some(v) => match refines {
                Some(rf) => insert_first_value(&mut st.roles, rf, v),
                None => {},
            },
            None => {
                st.target = Some(EpubTextTarget::RoleMeta { refines });
                st.text = Vec::new();
            },
        }
        Ok(())
    } else if property_is_exec(&property, "belongs-to-collection") {
        if st.collection_id.is_none() {
            let id = match attribute_value(attrs, "id") {
                Ok(v) => v,
                Err(e) => return Err(e),
            };
            st.collection_id = nonblank_opt_exec(&id);
        }
        Ok(())
    } else if property_is_exec(&property, "group-position") {
        let r = match attribute_value(attrs, "refines") {
            Ok(v) => v,
            Err(e) => return Err(e),
        };
        let refines = refines_of_exec(r);
        match value {
            Some(v) => match refines {
                Some(rf) => insert_first_value(&mut st.positions, rf, v),
                None => {},
            },
            None => {
                st.target = Some(EpubTextTarget::GroupPosition { refines });
                st.text = Vec::new();
            },
        }
        Ok(())
    } else {
        Ok(())
    }
}

pub fn epub_text_target_matches_end(target: &Option<EpubTextTarget>, name: &str) -> (r: bool)
    ensures
        r == target_matches_end(match *target {
            Some(t) => Some(t@),
            None => None,
        }, name@),
{
    match target {
        Some(EpubTextTarget::Title) => xml_name_matches_local(name, "title"),
        Some(EpubTextTarget::Description) => xml_name_matches_local(name, "description"),
        Some(EpubTextTarget::Date) => xml_name_matches_local(name, "date"),
        Some(EpubTextTarget::Identifier) => xml_name_matches_local(name, "identifier"),
        Some(EpubTextTarget::Creator { .. }) => xml_name_matches_local(name, "creator"),
        Some(EpubTextTarget::RoleMeta { .. }) => xml_name_matches_local(name, "meta"),
        Some(EpubTextTarget::GroupPosition { .. }) => xml_name_matches_local(name, "meta"),
        None => false,
    }
}

fn finalize_epub_text_target(st: &mut EpubBookReader, target: EpubTextTarget, value: &str)
    ensures
        final(st)@ == finalize_target(old(st)@, target@, value@),
{
    match target {
        EpubTextTarget::Title => {
            if st.title.is_none() {
                st.title = nonblank(value);
            }
        },
        EpubTextTarget::Description => {
            if st.description.is_none() {
                st.description = nonblank(value);
            }
        },
        EpubTextTarget::Date => {
            if st.release_date.is_none() {
                st.release_date = normalize_epub_date(value);
            }
        },
        EpubTextTarget::Identifier => {
            match nonblank(value) {
                Some(v) => {
                    let ghost before = crate::ordering::views(st.identifiers@);
                    st.identifiers.push(v);
                    proof {
                        assert(crate::ordering::views(st.identifiers@) =~= before.push(v@));
                    }
                },
                None => {},
            }
        },
        EpubTextTarget::Creator { id, role_attr } => {
            match nonblank(value) {
                Some(name) => {
                    let refined = match &id {
                        Some(i) => lookup_first(&st.roles, i),
                        None => None,
                    };
                    let chosen = if role_attr.is_some() { role_attr } else { refined };
                    let role = match &chosen {
                        Some(c) => map_epub_author_role(Some(c.as_str())),
                        None => map_epub_author_role(None),
                    };
                    let ghost before = author_views(st.authors@);
                    let author = BookMetadataAuthor { name, role: String::from_str(role) };
                    proof {
                        assert(opt_view(chosen) == (if opt_view(role_attr) is Some { opt_view(role_attr) } else { match opt_view(id) {
                            Some(i) => first_value(old(st)@.roles, i),
                            None => None,
                        } }));
                    }
                    st.authors.push(author);
                    proof {
                        assert(author_views(st.authors@) =~= before.push((name@, role@)));
                    }
                },
                None => {},
            }
        },
        EpubTextTarget::RoleMeta { refines } => {
            match (refines, nonblank(value)) {
                (Some(r), Some(v)) => insert_first_value(&mut st.roles, r, v),
                _ => {},
            }
        },
        EpubTextTarget::GroupPosition { refines } => {
            match (refines, nonblank(value)) {
                (Some(r), Some(v)) => insert_first_value(&mut st.positions, r, v),
                _ => {},
            }
        },
    }
}

fn append_text(text: &mut Vec<char>, more: &str)
    ensures
        final(text)@ == old(text)@ + more@,
{
    let chars = chars_of(more);
    let ghost start = text@;
    let mut i: usize = 0;
    while i < chars.len()
        invariant
            i <= chars@.len(),
            chars@ == more@,
            text@ == start + chars@.take(i as int),
        decreases chars@.len() - i,
    {
        text.push(chars[i]);
        i += 1;
        proof {
            assert(text@ =~= start + chars@.take(i as int));
        }
    }
    proof {
        assert(chars@.take(chars@.len() as int) =~= chars@);
    }
}

/// One event of the package document; `Ok(true)` at its end.
fn book_step(st: &mut EpubBookReader, item: &crate::xml::XmlItem) -> (r: Result<bool, EpubError>)
    ensures
        match r {
            Ok(false) => epub_book_step(old(st)@, *item) == final(st)@,
            Ok(true) => epub_book_step(old(st)@, *item) == EpubBookParse { outcome: Some(Ok(())), ..old(st)@ } && final(st)@ == old(st)@,
            Err(e) => epub_book_step(old(st)@, *item).outcome == Some(Err::<(), EpubFailure>(e@)),
        },
{
    match item {
        crate::xml::XmlItem::Start { name, attributes } => {
            if xml_name_matches_local(name.as_str(), "meta") {
                handle_epub_meta_event(st, attributes)?;
            } else {
                match epub_text_target_from_start(name.as_str(), attributes) {
                    Err(e) => return Err(e),
                    Ok(Some(t)) => {
                        st.target = Some(t);
                        st.text = Vec::new();
                    },
                    Ok(None) => {},
                }
            }
            Ok(false)
        },
        crate::xml::XmlItem::Empty { name, attributes } => {
            if xml_name_matches_local(name.as_str(), "meta") {
                handle_epub_meta_event(st, attributes)?;
            }
            Ok(false)
        },
        crate::xml::XmlItem::Text { raw, .. } => {
            if st.target.is_some() {
                append_text(&mut st.text, raw.as_str());
            }
            Ok(false)
        },
        crate::xml::XmlItem::CData { text } => {
            if st.target.is_some() {
                append_text(&mut st.text, text.as_str());
            }
            Ok(false)
        },
        crate::xml::XmlItem::End { name } => {
            if epub_text_target_matches_end(&st.target, name.as_str()) {
                let target = st.target.take().unwrap();
                let value = string_from_chars(trim_chars(st.text.as_slice()).as_slice());
                let ghost mid = st@;
                finalize_epub_text_target(st, target, value.as_str());
                st.text = Vec::new();
            }
            Ok(false)
        },
        crate::xml::XmlItem::Eof => Ok(true),
        crate::xml::XmlItem::Failed(m) => Err(EpubError::Malformed(m.clone())),
        _ => Ok(false),
    }
}

/// The ISBN-13 of the first identifier that gives one.
pub open spec fn first_isbn(ids: Seq<Seq<char>>) -> Option<Seq<char>>
    decreases ids.len(),
{
    if ids.len() == 0 {
        None
    } else {
        match epub_identifier_isbn(ids[0]) {
            Some(x) => Some(x),
            None => first_isbn(ids.drop_first()),
        }
    }
}

/// The book metadata that a finished reading state gives: title, summary (the description
/// without markup, when something is left), the group position of the book's collection
/// as number (when not blank), release date, authors (when there are any), and the ISBN of
/// the first identifier that is one.
pub open spec fn epub_book_patch_matches(s: EpubBookParse, p: crate::metadata_patch::BookMetadataImportPatch) -> bool {
    &&& opt_view(p.title) == s.title
    &&& opt_view(p.summary) == match s.description {
        Some(d) => if stripped_markup(d).len() > 0 { Some(stripped_markup(d)) } else { None },
        None => None,
    }
    &&& opt_view(p.number) == match s.collection_id {
        Some(id) => match first_value(s.positions, id) {
            Some(v) => if trim(v).len() > 0 { Some(v) } else { None },
            None => None,
        },
        None => None,
    }
    &&& opt_view(p.release_date) == s.release_date
    &&& match p.authors {
        Some(a) => author_views(a@) == s.authors && s.authors.len() > 0,
        None => s.authors.len() == 0,
    }
    &&& p.tags is None
    &&& p.links is None
    &&& opt_view(p.isbn) == first_isbn(s.identifiers)
}

/// What reading book metadata from the events yields: the final state, or the failure.
pub open spec fn epub_book_outcome(items: Seq<crate::xml::XmlItem>) -> Result<EpubBookParse, EpubFailure> {
    let s = epub_book_run(items);
    match s.outcome {
        Some(Err(e)) => Err(e),
        _ => Ok(s),
    }
}

fn first_isbn_exec(ids: &Vec<String>) -> (r: Option<String>)
    ensures
        opt_view(r) == first_isbn(crate::ordering::views(ids@)),
{
    let ghost v = crate::ordering::views(ids@);
    let mut i: usize = 0;
    proof {
        assert(v.skip(0) =~= v);
    }
    while i < ids.len()
        invariant
            i <= ids@.len(),
            v == crate::ordering::views(ids@),
            first_isbn(v) == first_isbn(v.skip(i as int)),
        decreases ids@.len() - i,
    {
        proof {
            assert(v.skip(i as int)[0] == ids@[i as int]@);
            assert(v.skip(i as int).drop_first() =~= v.skip(i + 1));
        }
        match normalize_epub_identifier_isbn(ids[i].as_str()) {
            Some(x) => return Some(x),
            None => {},
        }
        i += 1;
    }
    proof {
        assert(v.skip(i as int) =~= Seq::<Seq<char>>::empty());
    }
    None
}

fn finish_book_patch(st: EpubBookReader) -> (p: crate::metadata_patch::BookMetadataImportPatch)
    ensures
        epub_book_patch_matches(st@, p),
{
    let ghost s = st@;
    let number = match &st.collection_id {
        Some(id) => match lookup_first(&st.positions, id) {
            Some(v) => {
                let t = trim_chars(chars_of(v.as_str()).as_slice());
                if t.len() > 0 { Some(v) } else { None }
            },
            None => None,
        },
        None => None,
    };
    let summary = match &st.description {
        Some(d) => {
            let stripped = strip_markup_tags(d.as_str());
            let sc = chars_of(stripped.as_str());
            if sc.len() > 0 { Some(stripped) } else { None }
        },
        None => None,
    };
    let isbn = first_isbn_exec(&st.identifiers);
    let authors = if st.authors.len() > 0 { Some(st.authors) } else { None };
    crate::metadata_patch::BookMetadataImportPatch {
        title: st.title,
        summary,
        number,
        release_date: st.release_date,
        authors,
        tags: None,
        isbn,
        links: None,
    }
}

/// Reads a book's metadata from the events of its package document (see
/// [`epub_book_patch_matches`]); a malformed document or attribute fails.
pub fn extract_epub_book_patch_items(items: &Vec<crate::xml::XmlItem>) -> (r: Result<crate::metadata_patch::BookMetadataImportPatch, EpubError>)
    ensures
        match r {
            Ok(p) => match epub_book_outcome(items@) {
                Ok(s) => epub_book_patch_matches(s, p),
                Err(_) => false,
            },
            Err(e) => epub_book_outcome(items@) == Err::<EpubBookParse, EpubFailure>(e@),
        },
{
    let mut st = EpubBookReader {
        target: None,
        text: Vec::new(),
        title: None,
        description: None,
        release_date: None,
        identifiers: Vec::new(),
        authors: Vec::new(),
        roles: Vec::new(),
        positions: Vec::new(),
        collection_id: None,
    };
    proof {
        assert(crate::ordering::views(st.identifiers@) =~= Seq::<Seq<char>>::empty());
        assert(author_views(st.authors@) =~= Seq::<(Seq<char>, Seq<char>)>::empty());
        assert(pair_views(st.roles@) =~= Seq::<(Seq<char>, Seq<char>)>::empty());
        assert(pair_views(st.positions@) =~= Seq::<(Seq<char>, Seq<char>)>::empty());
        assert(st.text@ =~= Seq::<char>::empty());
        assert(items@.take(0) =~= Seq::<crate::xml::XmlItem>::empty());
        assert(st@ == epub_book_start());
    }
    let mut i: usize = 0;
    while i < items.len()
        invariant
            i <= items@.len(),
            epub_book_run(items@.take(i as int)) == st@,
        decreases items@.len() - i,
    {
        proof {
            assert(items@.take(i + 1).drop_last() =~= items@.take(i as int));
            assert(items@.take(i + 1).last() == items@[i as int]);
        }
        let ghost before = st@;
        match book_step(&mut st, &items[i]) {
            Ok(false) => {},
            Ok(true) => {
                proof {
                    lemma_book_outcome_persists(items@, i + 1);
                }
                return Ok(finish_book_patch(st));
            },
            Err(e) => {
                proof {
                    lemma_book_outcome_persists(items@, i + 1);
                }
                return Err(e);
            },
        }
        i += 1;
    }
    proof {
        assert(items@.take(items@.len() as int) =~= items@);
    }
    Ok(finish_book_patch(st))
}

/// Whether `r` is what reading book metadata from the events `items` yields.
pub open spec fn epub_book_result_of(items: Seq<crate::xml::XmlItem>, r: Result<crate::metadata_patch::BookMetadataImportPatch, EpubError>) -> bool {
    match r {
        Ok(p) => match epub_book_outcome(items) {
            Ok(s) => epub_book_patch_matches(s, p),
            Err(_) => false,
        },
        Err(e) => epub_book_outcome(items) == Err::<EpubBookParse, EpubFailure>(e@),
    }
}

/// Events with the same plain values are read alike: the outcome depends on the events'
/// values alone.
pub proof fn lemma_epub_book_outcome_by_views(a: Seq<crate::xml::XmlItem>, b: Seq<crate::xml::XmlItem>)
    requires
        crate::xml::item_views(a) == crate::xml::item_views(b),
    ensures
        epub_book_outcome(a) == epub_book_outcome(b),
{
    lemma_epub_book_run_by_views(a, b);
}

proof fn lemma_epub_book_run_by_views(a: Seq<crate::xml::XmlItem>, b: Seq<crate::xml::XmlItem>)
    requires
        crate::xml::item_views(a) == crate::xml::item_views(b),
    ensures
        epub_book_run(a) == epub_book_run(b),
    decreases a.len(),
{
    assert(a.len() == crate::xml::item_views(a).len() && b.len() == crate::xml::item_views(b).len());
    if a.len() > 0 {
        assert(crate::xml::item_views(a.drop_last()) =~= crate::xml::item_views(a).drop_last());
        assert(crate::xml::item_views(b.drop_last()) =~= crate::xml::item_views(b).drop_last());
        lemma_epub_book_run_by_views(a.drop_last(), b.drop_last());
        assert(a.last()@ == crate::xml::item_views(a)[a.len() - 1]);
        assert(b.last()@ == crate::xml::item_views(b)[b.len() - 1]);
        lemma_item_attrs_by_views(a.last(), b.last());
        let s = epub_book_run(a.drop_last());
        assert(epub_book_step(s, a.last()) == epub_book_step(s, b.last()));
    }
}

/// Reads a book's metadata from an EPUB package document: its `quick-xml` events with text
/// trimmed ([`crate::xml::xml_items_of`]), interpreted as [`extract_epub_book_patch_items`]
/// does (any list of items with those values gives the result, and such a list exists).
pub fn extract_epub_book_patch(package_document: &[u8]) -> (r: Result<crate::metadata_patch::BookMetadataImportPatch, EpubError>)
    ensures
        forall|items: Seq<crate::xml::XmlItem>| #[trigger] crate::xml::item_views(items) == crate::xml::xml_items_of(package_document@, true)
            ==> epub_book_result_of(items, r),
        exists|items: Seq<crate::xml::XmlItem>| #[trigger] crate::xml::item_views(items) == crate::xml::xml_items_of(package_document@, true),
{
    let items = crate::xml::read_xml_items(package_document, true);
    let r = extract_epub_book_patch_items(&items);
    proof {
        assert forall|other: Seq<crate::xml::XmlItem>| #[trigger] crate::xml::item_views(other) == crate::xml::xml_items_of(package_document@, true)
            implies epub_book_result_of(other, r) by {
            lemma_epub_book_outcome_by_views(other, items@);
        }
        assert(crate::xml::item_views(items@) == crate::xml::xml_items_of(package_document@, true) && epub_book_result_of(items@, r));
    }
    r
}

/// What text is being collected for series metadata.
#[derive(Clone, Copy, Debug, PartialEq, Eq)]
pub enum EpubSeriesTextTarget {
    Collection,
    Publisher,
    Language,
    Subject,
}

/// The state of reading series metadata from a package document.
pub struct EpubSeriesParse {
    pub target: Option<EpubSeriesTextTarget>,
    pub text: Seq<char>,
    pub collection: Option<Seq<char>>,
    pub publisher: Option<Seq<char>>,
    pub language: Option<Seq<char>>,
    pub genres: Seq<Seq<char>>,
    pub reading_direction: Option<SeriesReadingDirection>,
    pub outcome: Option<Result<(), EpubFailure>>,
}

pub open spec fn epub_series_start() -> EpubSeriesParse {
    EpubSeriesParse {
        target: None,
        text: Seq::empty(),
        collection: None,
        publisher: None,
        language: None,
        genres: Seq::empty(),
        reading_direction: None,
        outcome: None,
    }
}

pub open spec fn series_failed(s: EpubSeriesParse, e: EpubFailure) -> EpubSeriesParse {
    EpubSeriesParse { outcome: Some(Err(e)), ..s }
}

/// The reading direction of a `spine`'s `page-progression-direction` (trimmed, any ASCII
/// case): `rtl` or `ltr`, anything else none.
pub open spec fn page_progression(attrs: Seq<XmlAttribute>) -> Result<Option<SeriesReadingDirection>, EpubFailure> {
    match attr_value(attrs, "page-progression-direction"@) {
        Err(e) => Err(e),
        Ok(v) => {
            let d = ascii_lower(trim(match v {
                Some(x) => x,
                None => Seq::empty(),
            }));
            if d == ascii_lower("rtl"@) {
                Ok(Some(SeriesReadingDirection::RightToLeft))
            } else if d == ascii_lower("ltr"@) {
                Ok(Some(SeriesReadingDirection::LeftToRight))
            } else {
                Ok(None)
            }
        },
    }
}

/// A `meta` element names the collection when its `property` is `belongs-to-collection`
/// (trimmed, any ASCII case).
pub open spec fn series_target_from_meta(attrs: Seq<XmlAttribute>) -> Result<Option<EpubSeriesTextTarget>, EpubFailure> {
    match attr_value(attrs, "property"@) {
        Err(e) => Err(e),
        Ok(p) => if ascii_lower(trim(match p {
            Some(x) => x,
            None => Seq::empty(),
        })) == ascii_lower("belongs-to-collection"@) {
            Ok(Some(EpubSeriesTextTarget::Collection))
        } else {
            Ok(None)
        },
    }
}

pub open spec fn series_target_from_start(name: Seq<char>) -> Option<EpubSeriesTextTarget> {
    if name_matches(name, "publisher"@) {
        Some(EpubSeriesTextTarget::Publisher)
    } else if name_matches(name, "language"@) {
        Some(EpubSeriesTextTarget::Language)
    } else if name_matches(name, "subject"@) {
        Some(EpubSeriesTextTarget::Subject)
    } else {
        None
    }
}

pub open spec fn series_target_matches_end(target: Option<EpubSeriesTextTarget>, name: Seq<char>) -> bool {
    match target {
        Some(EpubSeriesTextTarget::Collection) => name_matches(name, "meta"@),
        Some(EpubSeriesTextTarget::Publisher) => name_matches(name, "publisher"@),
        Some(EpubSeriesTextTarget::Language) => name_matches(name, "language"@),
        Some(EpubSeriesTextTarget::Subject) => name_matches(name, "subject"@),
        None => false,
    }
}

/// What a non-blank value gives: the first collection, publisher and language, and every
/// subject as a genre.
pub open spec fn apply_series_value(s: EpubSeriesParse, target: EpubSeriesTextTarget, value: Seq<char>) -> EpubSeriesParse {
    match nonblank_spec(value) {
        None => s,
        Some(v) => match target {
            EpubSeriesTextTarget::Collection => if s.collection is None {
                EpubSeriesParse { collection: Some(v), ..s }
            } else {
                s
            },
            EpubSeriesTextTarget::Publisher => if s.publisher is None {
                EpubSeriesParse { publisher: Some(v), ..s }
            } else {
                s
            },
            EpubSeriesTextTarget::Language => if s.language is None {
                EpubSeriesParse { language: Some(v), ..s }
            } else {
                s
            },
            EpubSeriesTextTarget::Subject => EpubSeriesParse { genres: s.genres.push(v), ..s },
        },
    }
}

pub open spec fn spine_step(s: EpubSeriesParse, attrs: Seq<XmlAttribute>) -> EpubSeriesParse {
    match page_progression(attrs) {
        Err(e) => series_failed(s, e),
        Ok(d) => EpubSeriesParse { reading_direction: if d is Some { d } else { s.reading_direction }, ..s },
    }
}

/// One event's effect on reading series metadata.
pub open spec fn epub_series_step(s: EpubSeriesParse, item: crate::xml::XmlItem) -> EpubSeriesParse {
    if s.outcome is Some {
        s
    } else {
        match item {
            crate::xml::XmlItem::Start { name, attributes } => if name_matches(name@, "spine"@) {
                spine_step(s, attributes@)
            } else if name_matches(name@, "meta"@) {
                match series_target_from_meta(attributes@) {
                    Err(e) => series_failed(s, e),
                    Ok(None) => s,
                    Ok(Some(t)) => match attr_value(attributes@, "content"@) {
                        Err(e) => series_failed(s, e),
                        Ok(c) => match nonblank_opt(c) {
                            Some(v) => apply_series_value(s, t, v),
                            None => EpubSeriesParse { target: Some(t), text: Seq::empty(), ..s },
                        },
                    },
                }
            } else {
                match series_target_from_start(name@) {
                    Some(t) => EpubSeriesParse { target: Some(t), text: Seq::empty(), ..s },
                    None => s,
                }
            },
            crate::xml::XmlItem::Empty { name, attributes } => if name_matches(name@, "spine"@) {
                spine_step(s, attributes@)
            } else if name_matches(name@, "meta"@) {
                match series_target_from_meta(attributes@) {
                    Err(e) => series_failed(s, e),
                    Ok(None) => s,
                    Ok(Some(t)) => match attr_value(attributes@, "content"@) {
                        Err(e) => series_failed(s, e),
                        Ok(c) => match nonblank_opt(c) {
                            Some(v) => apply_series_value(s, t, v),
                            None => s,
                        },
                    },
                }
            } else {
                s
            },
            crate::xml::XmlItem::Text { raw, .. } => if s.target is Some {
                EpubSeriesParse { text: s.text + raw@, ..s }
            } else {
                s
            },
            crate::xml::XmlItem::CData { text } => if s.target is Some {
                EpubSeriesParse { text: s.text + text@, ..s }
            } else {
                s
            },
            crate::xml::XmlItem::End { name } => if series_target_matches_end(s.target, name@) {
                let f = apply_series_value(s, s.target->0, trim(s.text));
                EpubSeriesParse { target: None, text: Seq::empty(), ..f }
            } else {
                s
            },
            crate::xml::XmlItem::Eof => EpubSeriesParse { outcome: Some(Ok(())), ..s },
            crate::xml::XmlItem::Failed(m) => series_failed(s, EpubFailure::MalformedSeries(m@)),
            _ => s,
        }
    }
}

pub open spec fn epub_series_run(items: Seq<crate::xml::XmlItem>) -> EpubSeriesParse
    decreases items.len(),
{
    if items.len() == 0 {
        epub_series_start()
    } else {
        epub_series_step(epub_series_run(items.drop_last()), items.last())
    }
}

proof fn lemma_series_outcome_persists(items: Seq<crate::xml::XmlItem>, k: int)
    requires
        0 <= k <= items.len(),
        epub_series_run(items.take(k)).outcome is Some,
    ensures
        epub_series_run(items) == epub_series_run(items.take(k)),
    decreases items.len() - k,
{
    if k < items.len() {
        assert(items.take(k + 1).drop_last() =~= items.take(k));
        lemma_series_outcome_persists(items, k + 1);
    } else {
        assert(items.take(k) =~= items);
    }
}

/// The exec state of reading series metadata.
pub struct EpubSeriesReader {
    pub target: Option<EpubSeriesTextTarget>,
    pub text: Vec<char>,
    pub collection: Option<String>,
    pub publisher: Option<String>,
    pub language: Option<String>,
    pub genres: Vec<String>,
    pub reading_direction: Option<SeriesReadingDirection>,
}

impl View for EpubSeriesReader {
    type V = EpubSeriesParse;

    open spec fn view(&self) -> EpubSeriesParse {
        EpubSeriesParse {
            target: self.target,
            text: self.text@,
            collection: opt_view(self.collection),
            publisher: opt_view(self.publisher),
            language: opt_view(self.language),
            genres: crate::ordering::views(self.genres@),
            reading_direction: self.reading_direction,
            outcome: None,
        }
    }
}

fn page_progression_direction(attrs: &Vec<XmlAttribute>) -> (r: Result<Option<SeriesReadingDirection>, EpubError>)
    ensures
        match r {
            Ok(d) => page_progression(attrs@) == Ok::<Option<SeriesReadingDirection>, EpubFailure>(d),
            Err(e) => page_progression(attrs@) == Err::<Option<SeriesReadingDirection>, EpubFailure>(e@),
        },
{
    let v = match attribute_value(attrs, "page-progression-direction") {
        Ok(v) => v,
        Err(e) => return Err(e),
    };
    let raw = match v {
        Some(x) => x,
        None => String::new(),
    };
    let t = string_from_chars(trim_chars(chars_of(raw.as_str()).as_slice()).as_slice());
    if eq_ignore_ascii_case(t.as_str(), "rtl") {
        Ok(Some(SeriesReadingDirection::RightToLeft))
    } else if eq_ignore_ascii_case(t.as_str(), "ltr") {
        Ok(Some(SeriesReadingDirection::LeftToRight))
    } else {
        Ok(None)
    }
}

fn epub_series_text_target_from_meta(attrs: &Vec<XmlAttribute>) -> (r: Result<Option<EpubSeriesTextTarget>, EpubError>)
    ensures
        match r {
            Ok(t) => series_target_from_meta(attrs@) == Ok::<Option<EpubSeriesTextTarget>, EpubFailure>(t),
            Err(e) => series_target_from_meta(attrs@) == Err::<Option<EpubSeriesTextTarget>, EpubFailure>(e@),
        },
{
    let p = match attribute_value(attrs, "property") {
        Ok(v) => v,
        Err(e) => return Err(e),
    };
    let raw = match p {
        Some(x) => x,
        None => String::new(),
    };
    let t = string_from_chars(trim_chars(chars_of(raw.as_str()).as_slice()).as_slice());
    if eq_ignore_ascii_case(t.as_str(), "belongs-to-collection") {
        Ok(Some(EpubSeriesTextTarget::Collection))
    } else {
        Ok(None)
    }
}

fn epub_series_text_target_from_start(name: &str) -> (r: Option<EpubSeriesTextTarget>)
    ensures
        r == series_target_from_start(name@),
{
    if xml_name_matches_local(name, "publisher") {
        Some(EpubSeriesTextTarget::Publisher)
    } else if xml_name_matches_local(name, "language") {
        Some(EpubSeriesTextTarget::Language)
    } else if xml_name_matches_local(name, "subject") {
        Some(EpubSeriesTextTarget::Subject)
    } else {
        None
    }
}

pub fn epub_series_text_target_matches_end(target: Option<EpubSeriesTextTarget>, name: &str) -> (r: bool)
    ensures
        r == series_target_matches_end(target, name@),
{
    match target {
        Some(EpubSeriesTextTarget::Collection) => xml_name_matches_local(name, "meta"),
        Some(EpubSeriesTextTarget::Publisher) => xml_name_matches_local(name, "publisher"),
        Some(EpubSeriesTextTarget::Language) => xml_name_matches_local(name, "language"),
        Some(EpubSeriesTextTarget::Subject) => xml_name_matches_local(name, "subject"),
        None => false,
    }
}

/// Applies a collected value to the series metadata (see [`apply_series_value`]).
pub fn apply_epub_series_text_target(st: &mut EpubSeriesReader, target: EpubSeriesTextTarget, value: &str)
    ensures
        final(st)@ == apply_series_value(old(st)@, target, value@),
{
    let v = match nonblank(value) {
        Some(v) => v,
        None => return,
    };
    match target {
        EpubSeriesTextTarget::Collection => {
            if st.collection.is_none() {
                st.collection = Some(v);
            }
        },
        EpubSeriesTextTarget::Publisher => {
            if st.publisher.is_none() {
                st.publisher = Some(v);
            }
        },
        EpubSeriesTextTarget::Language => {
            if st.language.is_none() {
                st.language = Some(v);
            }
        },
        EpubSeriesTextTarget::Subject => {
            let ghost before = crate::ordering::views(st.genres@);
            st.genres.push(v);
            proof {
                assert(crate::ordering::views(st.genres@) =~= before.push(v@));
            }
        },
    }
}

fn spine_step_exec(st: &mut EpubSeriesReader, attrs: &Vec<XmlAttribute>) -> (r: Result<(), EpubError>)
    ensures
        match r {
            Ok(()) => spine_step(old(st)@, attrs@) == final(st)@,
            Err(e) => spine_step(old(st)@, attrs@) == series_failed(old(st)@, e@),
        },
{
    match page_progression_direction(attrs) {
        Err(e) => Err(e),
        Ok(d) => {
            if d.is_some() {
                st.reading_direction = d;
            }
            Ok(())
        },
    }
}

fn series_step(st: &mut EpubSeriesReader, item: &crate::xml::XmlItem) -> (r: Result<bool, EpubError>)
    ensures
        match r {
            Ok(false) => epub_series_step(old(st)@, *item) == final(st)@,
            Ok(true) => epub_series_step(old(st)@, *item) == EpubSeriesParse { outcome: Some(Ok(())), ..old(st)@ } && final(st)@ == old(st)@,
            Err(e) => epub_series_step(old(st)@, *item).outcome == Some(Err::<(), EpubFailure>(e@)),
        },
{
    match item {
        crate::xml::XmlItem::Start { name, attributes } => {
            if xml_name_matches_local(name.as_str(), "spine") {
                spine_step_exec(st, attributes)?;
            } else if xml_name_matches_local(name.as_str(), "meta") {
                match epub_series_text_target_from_meta(attributes) {
                    Err(e) => return Err(e),
                    Ok(None) => {},
                    Ok(Some(t)) => match attribute_value(attributes, "content") {
                        Err(e) => return Err(e),
                        Ok(c) => match nonblank_opt_exec(&c) {
                            Some(v) => apply_epub_series_text_target(st, t, v.as_str()),
                            None => {
                                st.target = Some(t);
                                st.text = Vec::new();
                            },
                        },
                    },
                }
            } else {
                match epub_series_text_target_from_start(name.as_str()) {
                    Some(t) => {
                        st.target = Some(t);
                        st.text = Vec::new();
                    },
                    None => {},
                }
            }
            Ok(false)
        },
        crate::xml::XmlItem::Empty { name, attributes } => {
            if xml_name_matches_local(name.as_str(), "spine") {
                spine_step_exec(st, attributes)?;
            } else if xml_name_matches_local(name.as_str(), "meta") {
                match epub_series_text_target_from_meta(attributes) {
                    Err(e) => return Err(e),
                    Ok(None) => {},
                    Ok(Some(t)) => match attribute_value(attributes, "content") {
                        Err(e) => return Err(e),
                        Ok(c) => match nonblank_opt_exec(&c) {
                            Some(v) => apply_epub_series_text_target(st, t, v.as_str()),
                            None => {},
                        },
                    },
                }
            }
            Ok(false)
        },
        crate::xml::XmlItem::Text { raw, .. } => {
            if st.target.is_some() {
                append_text(&mut st.text, raw.as_str());
            }
            Ok(false)
        },
        crate::xml::XmlItem::CData { text } => {
            if st.target.is_some() {
                append_text(&mut st.text, text.as_str());
            }
            Ok(false)
        },
        crate::xml::XmlItem::End { name } => {
            if epub_series_text_target_matches_end(st.target, name.as_str()) {
                let target = st.target.unwrap();
                let value = string_from_chars(trim_chars(st.text.as_slice()).as_slice());
                apply_epub_series_text_target(st, target, value.as_str());
                st.target = None;
                st.text = Vec::new();
            }
            Ok(false)
        },
        crate::xml::XmlItem::Eof => Ok(true),
        crate::xml::XmlItem::Failed(m) => Err(EpubError::MalformedSeries(m.clone())),
        _ => Ok(false),
    }
}

/// The series metadata that a finished reading state gives: the collection as title and
/// sort title, the reading direction, publisher and language, and the subjects as a
/// canonical set of genres (`None` when empty).
pub open spec fn epub_series_patch_matches(s: EpubSeriesParse, p: crate::metadata_patch::SeriesMetadataImportPatch) -> bool {
    let genres = crate::metadata_support::canonical_string_set(s.genres);
    &&& opt_view(p.title) == s.collection
    &&& opt_view(p.title_sort) == s.collection
    &&& p.status is None
    &&& p.summary is None
    &&& p.reading_direction == s.reading_direction
    &&& opt_view(p.publisher) == s.publisher
    &&& p.age_rating is None
    &&& opt_view(p.language) == s.language
    &&& crate::metadata_patch::opt_views(p.genres) == (if genres.len() > 0 { Some(genres) } else { None })
    &&& p.total_book_count is None
    &&& p.collections@.len() == 0
}

pub open spec fn epub_series_outcome(items: Seq<crate::xml::XmlItem>) -> Result<EpubSeriesParse, EpubFailure> {
    let s = epub_series_run(items);
    match s.outcome {
        Some(Err(e)) => Err(e),
        _ => Ok(s),
    }
}

fn finish_series_patch(st: EpubSeriesReader) -> (p: crate::metadata_patch::SeriesMetadataImportPatch)
    ensures
        epub_series_patch_matches(st@, p),
{
    let genres = crate::metadata_support::canonicalize_string_set(&st.genres);
    let genres_field = if genres.len() > 0 { Some(genres) } else { None };
    crate::metadata_patch::SeriesMetadataImportPatch {
        title: clone_opt(&st.collection),
        title_sort: st.collection,
        status: None,
        summary: None,
        reading_direction: st.reading_direction,
        publisher: st.publisher,
        age_rating: None,
        language: st.language,
        genres: genres_field,
        total_book_count: None,
        collections: Vec::new(),
    }
}

/// Reads a series' metadata from the events of a package document (see
/// [`epub_series_patch_matches`]); a malformed document or attribute fails.
pub fn extract_epub_series_patch_items(items: &Vec<crate::xml::XmlItem>) -> (r: Result<crate::metadata_patch::SeriesMetadataImportPatch, EpubError>)
    ensures
        match r {
            Ok(p) => match epub_series_outcome(items@) {
                Ok(s) => epub_series_patch_matches(s, p),
                Err(_) => false,
            },
            Err(e) => epub_series_outcome(items@) == Err::<EpubSeriesParse, EpubFailure>(e@),
        },
{
    let mut st = EpubSeriesReader {
        target: None,
        text: Vec::new(),
        collection: None,
        publisher: None,
        language: None,
        genres: Vec::new(),
        reading_direction: None,
    };
    proof {
        assert(crate::ordering::views(st.genres@) =~= Seq::<Seq<char>>::empty());
        assert(st.text@ =~= Seq::<char>::empty());
        assert(items@.take(0) =~= Seq::<crate::xml::XmlItem>::empty());
        assert(st@ == epub_series_start());
    }
    let mut i: usize = 0;
    while i < items.len()
        invariant
            i <= items@.len(),
            epub_series_run(items@.take(i as int)) == st@,
        decreases items@.len() - i,
    {
        proof {
            assert(items@.take(i + 1).drop_last() =~= items@.take(i as int));
            assert(items@.take(i + 1).last() == items@[i as int]);
        }
        match series_step(&mut st, &items[i]) {
            Ok(false) => {},
            Ok(true) => {
                proof {
                    lemma_series_outcome_persists(items@, i + 1);
                }
                return Ok(finish_series_patch(st));
            },
            Err(e) => {
                proof {
                    lemma_series_outcome_persists(items@, i + 1);
                }
                return Err(e);
            },
        }
        i += 1;
    }
    proof {
        assert(items@.take(items@.len() as int) =~= items@);
    }
    Ok(finish_series_patch(st))
}

/// Whether `r` is what reading series metadata from the events `items` yields.
pub open spec fn epub_series_result_of(items: Seq<crate::xml::XmlItem>, r: Result<crate::metadata_patch::SeriesMetadataImportPatch, EpubError>) -> bool {
    match r {
        Ok(p) => match epub_series_outcome(items) {
            Ok(s) => epub_series_patch_matches(s, p),
            Err(_) => false,
        },
        Err(e) => epub_series_outcome(items) == Err::<EpubSeriesParse, EpubFailure>(e@),
    }
}

/// Events with the same plain values are read alike: the outcome depends on the events'
/// values alone.
pub proof fn lemma_epub_series_outcome_by_views(a: Seq<crate::xml::XmlItem>, b: Seq<crate::xml::XmlItem>)
    requires
        crate::xml::item_views(a) == crate::xml::item_views(b),
    ensures
        epub_series_outcome(a) == epub_series_outcome(b),
{
    lemma_epub_series_run_by_views(a, b);
}

proof fn lemma_epub_series_run_by_views(a: Seq<crate::xml::XmlItem>, b: Seq<crate::xml::XmlItem>)
    requires
        crate::xml::item_views(a) == crate::xml::item_views(b),
    ensures
        epub_series_run(a) == epub_series_run(b),
    decreases a.len(),
{
    assert(a.len() == crate::xml::item_views(a).len() && b.len() == crate::xml::item_views(b).len());
    if a.len() > 0 {
        assert(crate::xml::item_views(a.drop_last()) =~= crate::xml::item_views(a).drop_last());
        assert(crate::xml::item_views(b.drop_last()) =~= crate::xml::item_views(b).drop_last());
        lemma_epub_series_run_by_views(a.drop_last(), b.drop_last());
        assert(a.last()@ == crate::xml::item_views(a)[a.len() - 1]);
        assert(b.last()@ == crate::xml::item_views(b)[b.len() - 1]);
        lemma_item_attrs_by_views(a.last(), b.last());
        let s = epub_series_run(a.drop_last());
        assert(epub_series_step(s, a.last()) == epub_series_step(s, b.last()));
    }
}

/// Reads a series' metadata from an EPUB package document: its `quick-xml` events with text
/// trimmed ([`crate::xml::xml_items_of`]), interpreted as [`extract_epub_series_patch_items`]
/// does (any list of items with those values gives the result, and such a list exists).
pub fn extract_epub_series_patch(package_document: &[u8]) -> (r: Result<crate::metadata_patch::SeriesMetadataImportPatch, EpubError>)
    ensures
        forall|items: Seq<crate::xml::XmlItem>| #[trigger] crate::xml::item_views(items) == crate::xml::xml_items_of(package_document@, true)
            ==> epub_series_result_of(items, r),
        exists|items: Seq<crate::xml::XmlItem>| #[trigger] crate::xml::item_views(items) == crate::xml::xml_items_of(package_document@, true),
{
    let items = crate::xml::read_xml_items(package_document, true);
    let r = extract_epub_series_patch_items(&items);
    proof {
        assert forall|other: Seq<crate::xml::XmlItem>| #[trigger] crate::xml::item_views(other) == crate::xml::xml_items_of(package_document@, true)
            implies epub_series_result_of(other, r) by {
            lemma_epub_series_outcome_by_views(other, items@);
        }
        assert(crate::xml::item_views(items@) == crate::xml::xml_items_of(package_document@, true) && epub_series_result_of(items@, r));
    }
    r
}


/// EPUB creator roles follow the MARC relator table, whatever the code's case and the white
/// space around it: `aut` is a writer, `clr` a colorist, `cov` a cover artist, `edt` an
/// editor, `art` and `ill` pencillers, `trl` a translator; any other code, and no code at
/// all, gives a writer.
pub proof fn law_epub_roles_follow_the_relator_table(code: Option<Seq<char>>)
    ensures
        ({
            let c = match code {
                Some(v) => Some(ascii_lower(trim(v))),
                None => None,
            };
            let role = author_role(code);
            &&& c == Some(seq!['a', 'u', 't']) ==> role == seq!['w', 'r', 'i', 't', 'e', 'r']
            &&& c == Some(seq!['c', 'l', 'r']) ==> role == seq!['c', 'o', 'l', 'o', 'r', 'i', 's', 't']
            &&& c == Some(seq!['c', 'o', 'v']) ==> role == seq!['c', 'o', 'v', 'e', 'r']
            &&& c == Some(seq!['e', 'd', 't']) ==> role == seq!['e', 'd', 'i', 't', 'o', 'r']
            &&& c == Some(seq!['a', 'r', 't']) ==> role == seq!['p', 'e', 'n', 'c', 'i', 'l', 'l', 'e', 'r']
            &&& c == Some(seq!['i', 'l', 'l']) ==> role == seq!['p', 'e', 'n', 'c', 'i', 'l', 'l', 'e', 'r']
            &&& c == Some(seq!['t', 'r', 'l']) ==> role == seq!['t', 'r', 'a', 'n', 's', 'l', 'a', 't', 'o', 'r']
            &&& (c != Some(seq!['a', 'u', 't']) && c != Some(seq!['c', 'l', 'r']) && c != Some(seq!['c', 'o', 'v'])
                && c != Some(seq!['e', 'd', 't']) && c != Some(seq!['a', 'r', 't']) && c != Some(seq!['i', 'l', 'l'])
                && c != Some(seq!['t', 'r', 'l'])) ==> role == seq!['w', 'r', 'i', 't', 'e', 'r']
        }),
{
    reveal_strlit("aut");
    reveal_strlit("clr");
    reveal_strlit("cov");
    reveal_strlit("edt");
    reveal_strlit("art");
    reveal_strlit("ill");
    reveal_strlit("trl");
    reveal_strlit("writer");
    reveal_strlit("colorist");
    reveal_strlit("cover");
    reveal_strlit("editor");
    reveal_strlit("penciller");
    reveal_strlit("translator");
    assert(ascii_lower("aut"@) =~= seq!['a', 'u', 't']);
    assert(ascii_lower("clr"@) =~= seq!['c', 'l', 'r']);
    assert(ascii_lower("cov"@) =~= seq!['c', 'o', 'v']);
    assert(ascii_lower("edt"@) =~= seq!['e', 'd', 't']);
    assert(ascii_lower("art"@) =~= seq!['a', 'r', 't']);
    assert(ascii_lower("ill"@) =~= seq!['i', 'l', 'l']);
    assert(ascii_lower("trl"@) =~= seq!['t', 'r', 'l']);
    assert("writer"@ =~= seq!['w', 'r', 'i', 't', 'e', 'r']);
    assert("colorist"@ =~= seq!['c', 'o', 'l', 'o', 'r', 'i', 's', 't']);
    assert("cover"@ =~= seq!['c', 'o', 'v', 'e', 'r']);
    assert("editor"@ =~= seq!['e', 'd', 'i', 't', 'o', 'r']);
    assert("penciller"@ =~= seq!['p', 'e', 'n', 'c', 'i', 'l', 'l', 'e', 'r']);
    assert("translator"@ =~= seq!['t', 'r', 'a', 'n', 's', 'l', 'a', 't', 'o', 'r']);
    assert(seq!['a', 'u', 't'] != seq!['c', 'l', 'r']);
}

} // verus!

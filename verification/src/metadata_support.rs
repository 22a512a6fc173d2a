//! Rules shared by the metadata readers: blank values, calendar dates, ISBN-13 numbers,
//! lists of names, and the age ratings that ComicInfo documents name.
use vstd::prelude::*;
use crate::ordering::{sorted_listing, sorted_unique_strings, views};
use crate::string_set::{lemma_string_set_push, string_set};
use crate::text::{
    ascii_lower, chars_of, is_ascii_digit, lower_chars, nonblank_trimmed, split_on,
    split_trimmed_nonblank, string_from_chars, trim, trim_chars,
};

verus! {

/// The value without surrounding white space, unless nothing else is left.
pub open spec fn nonblank_spec(s: Seq<char>) -> Option<Seq<char>> {
    if trim(s).len() > 0 {
        Some(trim(s))
    } else {
        None
    }
}

pub open spec fn opt_view(o: Option<String>) -> Option<Seq<char>> {
    match o {
        Some(s) => Some(s@),
        None => None,
    }
}

/// The value trimmed, or `None` when it is blank.
pub fn nonblank(value: &str) -> (r: Option<String>)
    ensures
        opt_view(r) == nonblank_spec(value@),
{
    let chars = chars_of(value);
    let trimmed = trim_chars(chars.as_slice());
    if trimmed.len() == 0 {
        None
    } else {
        Some(string_from_chars(trimmed.as_slice()))
    }
}

/// Gregorian leap years: divisible by 4, except centuries not divisible by 400.
pub open spec fn is_leap_year(year: int) -> bool {
    let a = if year < 0 { -year } else { year };
    (a % 4 == 0 && a % 100 != 0) || a % 400 == 0
}

pub open spec fn days_in_month(year: int, month: int) -> int {
    if month == 2 {
        if is_leap_year(year) { 29 } else { 28 }
    } else if month == 4 || month == 6 || month == 9 || month == 11 {
        30
    } else {
        31
    }
}

/// A day that exists in the (proleptic) Gregorian calendar.
pub open spec fn is_calendar_date(year: int, month: int, day: int) -> bool {
    1 <= month <= 12 && 1 <= day <= days_in_month(year, month)
}

/// Whether `year-month-day` is a day of the Gregorian calendar.
pub fn is_valid_calendar_date(year: i32, month: u8, day: u8) -> (r: bool)
    ensures
        r == is_calendar_date(year as int, month as int, day as int),
{
    if month < 1 || month > 12 || day < 1 {
        return false;
    }
    let a: u64 = if year < 0 { (0i64 - year as i64) as u64 } else { year as u64 };
    let leap = (a % 4 == 0 && a % 100 != 0) || a % 400 == 0;
    let days: u8 = if month == 2 {
        if leap { 29 } else { 28 }
    } else if month == 4 || month == 6 || month == 9 || month == 11 {
        30
    } else {
        31
    };
    day <= days
}

/// `value` with every `-` and space removed.
pub open spec fn without_separators(s: Seq<char>) -> Seq<char>
    decreases s.len(),
{
    if s.len() == 0 {
        Seq::empty()
    } else {
        let rest = without_separators(s.drop_last());
        if s.last() == '-' || s.last() == ' ' {
            rest
        } else {
            rest.push(s.last())
        }
    }
}

pub open spec fn digit_value(c: char) -> int {
    (c as int) - ('0' as int)
}

/// The EAN-13 weighted sum of the first `n` digits: weight 1 at even positions, 3 at odd.
pub open spec fn ean_weighted_sum(digits: Seq<char>, n: int) -> int
    decreases n,
{
    if n <= 0 {
        0
    } else {
        ean_weighted_sum(digits, n - 1) + digit_value(digits[n - 1]) * (if (n - 1) % 2 == 0 { 1int } else { 3int })
    }
}

/// An ISBN-13: thirteen ASCII digits starting with 978 or 979 whose EAN-13 checksum holds.
pub open spec fn is_isbn13(d: Seq<char>) -> bool {
    &&& d.len() == 13
    &&& forall|i: int| 0 <= i < 13 ==> is_ascii_digit(#[trigger] d[i])
    &&& d[0] == '9' && d[1] == '7' && (d[2] == '8' || d[2] == '9')
    &&& ean_weighted_sum(d, 13) % 10 == 0
}

/// The ISBN-13 that `value` writes, with hyphens and spaces allowed between digits.
pub open spec fn isbn13_spec(value: Seq<char>) -> Option<Seq<char>> {
    let d = without_separators(value);
    if is_isbn13(d) {
        Some(d)
    } else {
        None
    }
}

/// The ISBN-13 that `value` writes, as thirteen digits, or `None` when it writes none.
pub fn normalize_isbn13(value: &str) -> (r: Option<String>)
    ensures
        opt_view(r) == isbn13_spec(value@),
{
    let chars = chars_of(value);
    let mut d: Vec<char> = Vec::new();
    let mut i: usize = 0;
    while i < chars.len()
        invariant
            i <= chars@.len(),
            chars@ == value@,
            d@ == without_separators(value@.take(i as int)),
        decreases chars@.len() - i,
    {
        proof {
            assert(value@.take(i + 1).drop_last() =~= value@.take(i as int));
        }
        let c = chars[i];
        if c != '-' && c != ' ' {
            d.push(c);
        }
        i += 1;
    }
    proof {
        assert(value@.take(value@.len() as int) =~= value@);
    }
    if d.len() != 13 {
        return None;
    }
    let mut sum: u64 = 0;
    let mut k: usize = 0;
    while k < 13
        invariant
            k <= 13,
            d@.len() == 13,
            d@ == without_separators(value@),
            forall|j: int| 0 <= j < k ==> is_ascii_digit(#[trigger] d@[j]),
            sum == ean_weighted_sum(d@, k as int),
            sum <= 27 * k,
        decreases 13 - k,
    {
        let c = d[k];
        if !('0' <= c && c <= '9') {
            return None;
        }
        let v = (c as u64) - 48;
        let w: u64 = if k % 2 == 0 { 1 } else { 3 };
        sum = sum + v * w;
        k += 1;
    }
    if !(d[0] == '9' && d[1] == '7' && (d[2] == '8' || d[2] == '9')) {
        return None;
    }
    if sum % 10 != 0 {
        return None;
    }
    Some(string_from_chars(d.as_slice()))
}

/// The values, trimmed and ASCII-lower-cased, without the blank ones.
pub open spec fn canonical_members(values: Seq<Seq<char>>) -> Set<Seq<char>> {
    Set::new(|x: Seq<char>| exists|i: int| 0 <= i < values.len() && trim(#[trigger] values[i]).len() > 0
        && x == ascii_lower(trim(values[i])))
}

/// Canonical members of a set of names, sorted, each once.
pub open spec fn canonical_string_set(values: Seq<Seq<char>>) -> Seq<Seq<char>> {
    sorted_listing(canonical_members(values))
}

/// A set of names as stored: trimmed, ASCII-lower-cased, without blanks, sorted, each once.
pub fn canonicalize_string_set(values: &Vec<String>) -> (r: Vec<String>)
    ensures
        views(r@) == canonical_string_set(views(values@)),
{
    let ghost vs = views(values@);
    let mut flat: Vec<String> = Vec::new();
    let mut i: usize = 0;
    proof {
        assert(string_set(flat@) =~= canonical_members(vs.take(0)));
    }
    while i < values.len()
        invariant
            i <= values@.len(),
            vs == views(values@),
            string_set(flat@) == canonical_members(vs.take(i as int)),
        decreases values@.len() - i,
    {
        let chars = chars_of(values[i].as_str());
        let trimmed = trim_chars(chars.as_slice());
        let ghost before = flat@;
        let ghost p = vs.take(i + 1);
        let ghost q = vs.take(i as int);
        proof {
            assert(p[i as int] == values@[i as int]@);
        }
        if trimmed.len() > 0 {
            let lowered = lower_chars(trimmed.as_slice());
            let s = string_from_chars(lowered.as_slice());
            flat.push(s);
            proof {
                lemma_string_set_push(before, s);
                assert forall|x: Seq<char>| canonical_members(p).contains(x) <==> canonical_members(q).insert(s@).contains(x) by {
                    if canonical_members(p).contains(x) {
                        let k = choose|k: int| 0 <= k < p.len() && trim(#[trigger] p[k]).len() > 0 && x == ascii_lower(trim(p[k]));
                        if k < i {
                            assert(trim(q[k]).len() > 0 && x == ascii_lower(trim(q[k])));
                        }
                    }
                    if canonical_members(q).contains(x) {
                        let k = choose|k: int| 0 <= k < q.len() && trim(#[trigger] q[k]).len() > 0 && x == ascii_lower(trim(q[k]));
                        assert(trim(p[k]).len() > 0 && x == ascii_lower(trim(p[k])));
                    }
                    if x == s@ {
                        assert(trim(p[i as int]).len() > 0 && x == ascii_lower(trim(p[i as int])));
                    }
                }
                assert(canonical_members(p) =~= canonical_members(q).insert(s@));
            }
        } else {
            proof {
                assert forall|x: Seq<char>| canonical_members(p).contains(x) <==> canonical_members(q).contains(x) by {
                    if canonical_members(p).contains(x) {
                        let k = choose|k: int| 0 <= k < p.len() && trim(#[trigger] p[k]).len() > 0 && x == ascii_lower(trim(p[k]));
                        if k < i {
                            assert(trim(q[k]).len() > 0 && x == ascii_lower(trim(q[k])));
                        }
                    }
                    if canonical_members(q).contains(x) {
                        let k = choose|k: int| 0 <= k < q.len() && trim(#[trigger] q[k]).len() > 0 && x == ascii_lower(trim(q[k]));
                        assert(trim(p[k]).len() > 0 && x == ascii_lower(trim(p[k])));
                    }
                }
                assert(canonical_members(p) =~= canonical_members(q));
            }
        }
        i += 1;
    }
    proof {
        assert(vs.take(vs.len() as int) =~= vs);
    }
    sorted_unique_strings(&flat)
}

/// The comma-separated entries of an optional list, trimmed, without blanks.
pub open spec fn list_entries(value: Option<Seq<char>>) -> Seq<Seq<char>> {
    match value {
        Some(v) => nonblank_trimmed(split_on(v, ',')),
        None => Seq::empty(),
    }
}

/// Splits a comma-separated list into its trimmed, non-blank entries.
pub fn split_comicinfo_list(value: &Option<String>) -> (r: Vec<String>)
    ensures
        views(r@) == list_entries(opt_view(*value)),
{
    match value {
        Some(v) => {
            let r = split_trimmed_nonblank(v.as_str(), ',');
            proof {
                assert(views(r@) =~= r@.map_values(|s: String| s@));
            }
            r
        },
        None => {
            let r: Vec<String> = Vec::new();
            proof {
                assert(views(r@) =~= Seq::<Seq<char>>::empty());
            }
            r
        },
    }
}

/// The values in order, each kept only at its first occurrence.
pub open spec fn first_occurrences(s: Seq<Seq<char>>) -> Seq<Seq<char>>
    decreases s.len(),
{
    if s.len() == 0 {
        Seq::empty()
    } else {
        let rest = first_occurrences(s.drop_last());
        if rest.contains(s.last()) {
            rest
        } else {
            rest.push(s.last())
        }
    }
}

pub proof fn lemma_first_occurrences_members(s: Seq<Seq<char>>, x: Seq<char>)
    ensures
        first_occurrences(s).contains(x) <==> s.contains(x),
    decreases s.len(),
{
    if s.len() > 0 {
        let s1 = s.drop_last();
        let l = s.last();
        let f1 = first_occurrences(s1);
        lemma_first_occurrences_members(s1, x);
        if first_occurrences(s).contains(x) {
            if f1.contains(x) {
                let k = choose|k: int| 0 <= k < s1.len() && s1[k] == x;
                assert(s[k] == x);
            } else {
                assert(!f1.contains(l) && first_occurrences(s) == f1.push(l));
                let k = choose|k: int| 0 <= k < f1.push(l).len() && f1.push(l)[k] == x;
                assert(k == f1.len());
                assert(s[s.len() - 1] == x);
            }
        }
        if s.contains(x) {
            let k = choose|k: int| 0 <= k < s.len() && s[k] == x;
            if k < s.len() - 1 {
                assert(s1[k] == x);
                let m = choose|m: int| 0 <= m < f1.len() && f1[m] == x;
                if !f1.contains(l) {
                    assert(f1.push(l)[m] == x);
                }
            } else {
                if !f1.contains(l) {
                    assert(f1.push(l)[f1.len() as int] == x);
                }
            }
        }
    }
}

/// Drops repeated names, keeping the first occurrence of each, in order.
pub fn dedupe_strings_preserve_order(values: &Vec<String>) -> (r: Vec<String>)
    ensures
        views(r@) == first_occurrences(views(values@)),
{
    let mut out: Vec<String> = Vec::new();
    let mut i: usize = 0;
    proof {
        assert(views(values@).take(0) =~= Seq::<Seq<char>>::empty());
        assert(views(out@) =~= first_occurrences(views(values@).take(0)));
    }
    while i < values.len()
        invariant
            i <= values@.len(),
            views(out@) == first_occurrences(views(values@).take(i as int)),
        decreases values@.len() - i,
    {
        proof {
            assert(views(values@).take(i + 1).drop_last() =~= views(values@).take(i as int));
            assert(views(values@).take(i + 1).last() == values@[i as int]@);
        }
        if !crate::string_set::contains_string(&out, values[i].as_str()) {
            proof {
                if views(out@).contains(values@[i as int]@) {
                    let k = choose|k: int| 0 <= k < views(out@).len() && views(out@)[k] == values@[i as int]@;
                    assert(out@[k]@ == values@[i as int]@);
                }
            }
            let ghost before = views(out@);
            out.push(values[i].clone());
            proof {
                assert(views(out@) =~= before.push(values@[i as int]@));
            }
        } else {
            proof {
                let k = choose|k: int| 0 <= k < out@.len() && #[trigger] out@[k]@ == values@[i as int]@;
                assert(views(out@)[k] == values@[i as int]@);
            }
        }
        i += 1;
    }
    proof {
        assert(views(values@).take(values@.len() as int) =~= views(values@));
    }
    out
}

/// The series title that also names its volume: the title alone for the first volume or an
/// unknown one, else the title followed by the volume in brackets.
pub open spec fn series_with_volume(series: Option<Seq<char>>, volume: Option<int>) -> Option<Seq<char>> {
    match series {
        None => None,
        Some(s) => match volume {
            None => Some(s),
            Some(v) => if v == 1 {
                Some(s)
            } else {
                Some(s + seq![' ', '('] + crate::text::format_int_padded(v, 0) + seq![')'])
            },
        },
    }
}

pub fn compute_series_from_series_and_volume(series: Option<String>, volume: Option<i64>) -> (r: Option<String>)
    ensures
        opt_view(r) == series_with_volume(opt_view(series), match volume {
            Some(v) => Some(v as int),
            None => None,
        }),
{
    match series {
        None => None,
        Some(s) => match volume {
            None => Some(s),
            Some(v) => if v == 1 {
                Some(s)
            } else {
                let mut out = chars_of(s.as_str());
                out.push(' ');
                out.push('(');
                crate::text::push_int_padded(&mut out, v, 0);
                out.push(')');
                proof {
                    assert(out@ =~= s@ + seq![' ', '('] + crate::text::format_int_padded(v as int, 0) + seq![')']);
                }
                Some(string_from_chars(out.as_slice()))
            },
        },
    }
}

/// The minimum age that a ComicInfo age rating names; `None` for an unknown or pending
/// rating and for a name that is not a rating. Names are compared after trimming, without
/// regard to ASCII case.
pub open spec fn comicinfo_age_rating(name: Seq<char>) -> Option<int> {
    let n = ascii_lower(trim(name));
    if n == ascii_lower("Adults Only 18+"@) || n == ascii_lower("R18+"@) || n == ascii_lower("X18+"@) {
        Some(18)
    } else if n == ascii_lower("Early Childhood"@) {
        Some(3)
    } else if n == ascii_lower("Everyone"@) || n == ascii_lower("G"@) {
        Some(0)
    } else if n == ascii_lower("Everyone 10+"@) {
        Some(10)
    } else if n == ascii_lower("Kids to Adults"@) {
        Some(6)
    } else if n == ascii_lower("M"@) || n == ascii_lower("Mature 17+"@) {
        Some(17)
    } else if n == ascii_lower("MA15+"@) {
        Some(15)
    } else if n == ascii_lower("PG"@) {
        Some(8)
    } else if n == ascii_lower("Teen"@) {
        Some(13)
    } else {
        None
    }
}

pub fn normalize_comicinfo_age_rating(name: &str) -> (r: Option<u32>)
    ensures
        match r {
            Some(v) => comicinfo_age_rating(name@) == Some(v as int),
            None => comicinfo_age_rating(name@) is None,
        },
{
    let chars = chars_of(name);
    let trimmed = string_from_chars(trim_chars(chars.as_slice()).as_slice());
    let t = trimmed.as_str();
    let is = |expected: &str| -> (b: bool)
        ensures
            b == (ascii_lower(trim(name@)) == ascii_lower(expected@)),
        { crate::text::eq_ignore_ascii_case(t, expected) };
    if is("Adults Only 18+") || is("R18+") || is("X18+") {
        Some(18)
    } else if is("Early Childhood") {
        Some(3)
    } else if is("Everyone") || is("G") {
        Some(0)
    } else if is("Everyone 10+") {
        Some(10)
    } else if is("Kids to Adults") {
        Some(6)
    } else if is("M") || is("Mature 17+") {
        Some(17)
    } else if is("MA15+") {
        Some(15)
    } else if is("PG") {
        Some(8)
    } else if is("Teen") {
        Some(13)
    } else {
        None
    }
}

} // verus!

//! Character-level string utilities with their mathematical meaning.
use vstd::prelude::*;

verus! {

/// The characters of `s`, in order.
pub fn chars_of(s: &str) -> (v: Vec<char>)
    ensures
        v@ == s@,
{
    let mut v: Vec<char> = Vec::new();
    for c in it: s.chars()
        invariant
            v@ == it.seq().take(it.index() as int),
            it.seq() == s@,
    {
        v.push(c);
    }
    v
}

/// Collects characters into an owned string (`FromIterator<&char> for String`).
#[verifier::external_body]
pub(crate) fn string_from_chars(chars: &[char]) -> (s: String)
    ensures
        s@ == chars@,
{
    chars.iter().collect()
}

/// The ASCII lower-case form of one character; other characters are unchanged.
pub open spec fn ascii_lower_char(c: char) -> char {
    if 'A' <= c && c <= 'Z' {
        ((c as u32) + 32) as char
    } else {
        c
    }
}

/// The ASCII lower-case form of a string.
pub open spec fn ascii_lower(s: Seq<char>) -> Seq<char> {
    s.map_values(|c: char| ascii_lower_char(c))
}

/// Whether `c` is an ASCII decimal digit.
pub open spec fn is_ascii_digit(c: char) -> bool {
    '0' <= c && c <= '9'
}

/// Whether `c` is an ASCII hexadecimal digit.
pub open spec fn is_ascii_hex_digit(c: char) -> bool {
    ('0' <= c && c <= '9') || ('a' <= c && c <= 'f') || ('A' <= c && c <= 'F')
}

/// Unicode `White_Space`, as `char::is_whitespace` tests it.
pub open spec fn is_whitespace(c: char) -> bool {
    ||| ('\t' <= c && c <= '\r')
    ||| c == ' '
    ||| c == '\u{85}'
    ||| c == '\u{a0}'
    ||| c == '\u{1680}'
    ||| ('\u{2000}' <= c && c <= '\u{200a}')
    ||| c == '\u{2028}'
    ||| c == '\u{2029}'
    ||| c == '\u{202f}'
    ||| c == '\u{205f}'
    ||| c == '\u{3000}'
}

pub fn lower_char(c: char) -> (r: char)
    ensures
        r == ascii_lower_char(c),
{
    if 'A' <= c && c <= 'Z' {
        let code = (c as u32) + 32;
        proof {
            assert(code <= 0x7f);
        }
        (code as u8) as char
    } else {
        c
    }
}

pub fn char_is_whitespace(c: char) -> (r: bool)
    ensures
        r == is_whitespace(c),
{
    ('\t' <= c && c <= '\r') || c == ' ' || c == '\u{85}' || c == '\u{a0}' || c == '\u{1680}'
        || ('\u{2000}' <= c && c <= '\u{200a}') || c == '\u{2028}' || c == '\u{2029}' || c
        == '\u{202f}' || c == '\u{205f}' || c == '\u{3000}'
}

/// `str::to_ascii_lowercase`.
pub fn to_ascii_lowercase(s: &str) -> (r: String)
    ensures
        r@ == ascii_lower(s@),
{
    let chars = chars_of(s);
    let mut out: Vec<char> = Vec::new();
    let mut i: usize = 0;
    while i < chars.len()
        invariant
            i <= chars@.len(),
            chars@ == s@,
            out@ == ascii_lower(s@.take(i as int)),
        decreases chars@.len() - i,
    {
        out.push(lower_char(chars[i]));
        i = i + 1;
        proof {
            assert(ascii_lower(s@.take(i as int)) =~= ascii_lower(s@.take(i - 1)).push(
                ascii_lower_char(s@[i - 1]),
            ));
        }
    }
    proof {
        assert(s@.take(s@.len() as int) =~= s@);
    }
    string_from_chars(out.as_slice())
}

/// Lower-cases a character sequence.
pub fn lower_chars(chars: &[char]) -> (r: Vec<char>)
    ensures
        r@ == ascii_lower(chars@),
{
    let mut out: Vec<char> = Vec::new();
    let mut i: usize = 0;
    while i < chars.len()
        invariant
            i <= chars@.len(),
            out@ == ascii_lower(chars@.take(i as int)),
        decreases chars@.len() - i,
    {
        out.push(lower_char(chars[i]));
        i = i + 1;
        proof {
            assert(ascii_lower(chars@.take(i as int)) =~= ascii_lower(chars@.take(i - 1)).push(
                ascii_lower_char(chars@[i - 1]),
            ));
        }
    }
    proof {
        assert(chars@.take(chars@.len() as int) =~= chars@);
    }
    out
}

/// Whether two character sequences are equal.
pub fn chars_equal(a: &[char], b: &[char]) -> (r: bool)
    ensures
        r == (a@ == b@),
{
    if a.len() != b.len() {
        return false;
    }
    let mut i: usize = 0;
    while i < a.len()
        invariant
            a@.len() == b@.len(),
            i <= a@.len(),
            forall|j: int| 0 <= j < i ==> a@[j] == b@[j],
        decreases a@.len() - i,
    {
        if a[i] != b[i] {
            return false;
        }
        i = i + 1;
    }
    proof {
        assert(a@ =~= b@);
    }
    true
}

/// `str::eq_ignore_ascii_case`.
pub fn eq_ignore_ascii_case(a: &str, b: &str) -> (r: bool)
    ensures
        r == (ascii_lower(a@) == ascii_lower(b@)),
{
    let la = lower_chars(chars_of(a).as_slice());
    let lb = lower_chars(chars_of(b).as_slice());
    chars_equal(la.as_slice(), lb.as_slice())
}

/// Whether `s` begins with `prefix`.
pub open spec fn has_prefix(s: Seq<char>, prefix: Seq<char>) -> bool {
    prefix.len() <= s.len() && s.take(prefix.len() as int) == prefix
}

/// Whether `s` ends with `suffix`.
pub open spec fn has_suffix(s: Seq<char>, suffix: Seq<char>) -> bool {
    suffix.len() <= s.len() && s.skip(s.len() - suffix.len()) == suffix
}

/// Whether `needle` occurs in `s` as a contiguous run.
pub open spec fn contains_run(s: Seq<char>, needle: Seq<char>) -> bool {
    exists|i: int| 0 <= i && i + needle.len() <= s.len() && #[trigger] s.subrange(i, i + needle.len()) == needle
}

pub fn chars_start_with(s: &[char], prefix: &[char]) -> (r: bool)
    ensures
        r == has_prefix(s@, prefix@),
{
    if prefix.len() > s.len() {
        return false;
    }
    let mut i: usize = 0;
    while i < prefix.len()
        invariant
            prefix@.len() <= s@.len(),
            i <= prefix@.len(),
            forall|j: int| 0 <= j < i ==> s@[j] == prefix@[j],
        decreases prefix@.len() - i,
    {
        if s[i] != prefix[i] {
            proof {
                assert(s@.take(prefix@.len() as int)[i as int] != prefix@[i as int]);
            }
            return false;
        }
        i = i + 1;
    }
    proof {
        assert(s@.take(prefix@.len() as int) =~= prefix@);
    }
    true
}

pub fn chars_end_with(s: &[char], suffix: &[char]) -> (r: bool)
    ensures
        r == has_suffix(s@, suffix@),
{
    if suffix.len() > s.len() {
        return false;
    }
    let offset = s.len() - suffix.len();
    let mut i: usize = 0;
    while i < suffix.len()
        invariant
            suffix@.len() <= s@.len(),
            offset == s@.len() - suffix@.len(),
            s@.len() == s.len(),
            i <= suffix@.len(),
            forall|j: int| 0 <= j < i ==> s@[offset + j] == suffix@[j],
        decreases suffix@.len() - i,
    {
        if s[offset + i] != suffix[i] {
            proof {
                assert(s@.skip(offset as int)[i as int] != suffix@[i as int]);
            }
            return false;
        }
        i = i + 1;
    }
    proof {
        assert(s@.skip(offset as int) =~= suffix@);
    }
    true
}

/// Whether `needle` occurs in `s` (`str::contains` with a string pattern).
pub fn chars_contain(s: &[char], needle: &[char]) -> (r: bool)
    ensures
        r == contains_run(s@, needle@),
{
    if needle.len() > s.len() {
        proof {
            assert forall|i: int|
                0 <= i && i + needle@.len() <= s@.len() implies #[trigger] s@.subrange(
                i,
                i + needle@.len(),
            ) != needle@ by {}
        }
        return false;
    }
    let last = s.len() - needle.len();
    let mut start: usize = 0;
    while start <= last
        invariant
            needle@.len() <= s@.len(),
            last == s@.len() - needle@.len(),
            start <= last + 1,
            forall|i: int| 0 <= i < start ==> #[trigger] s@.subrange(i, i + needle@.len()) != needle@,
        decreases last + 1 - start,
    {
        let mut k: usize = 0;
        let mut matched = true;
        while k < needle.len()
            invariant
                needle@.len() <= s@.len(),
                start <= last,
                last == s@.len() - needle@.len(),
                s@.len() == s.len(),
                k <= needle@.len(),
                matched == (forall|j: int| 0 <= j < k ==> s@[start + j] == needle@[j]),
            decreases needle@.len() - k,
        {
            if s[start + k] != needle[k] {
                matched = false;
            }
            k = k + 1;
        }
        if matched {
            proof {
                assert(s@.subrange(start as int, start + needle@.len()) =~= needle@);
            }
            return true;
        } else {
            proof {
                let j = choose|j: int| 0 <= j < needle@.len() && s@[start + j] != needle@[j];
                assert(s@.subrange(start as int, start + needle@.len())[j] != needle@[j]);
            }
        }
        if start == last {
            return false;
        }
        start = start + 1;
    }
    false
}

} // verus!

verus! {

/// `s` without its leading white space.
pub open spec fn trim_start(s: Seq<char>) -> Seq<char>
    decreases s.len(),
{
    if s.len() > 0 && is_whitespace(s[0]) {
        trim_start(s.drop_first())
    } else {
        s
    }
}

/// `s` without its trailing white space.
pub open spec fn trim_end(s: Seq<char>) -> Seq<char>
    decreases s.len(),
{
    if s.len() > 0 && is_whitespace(s.last()) {
        trim_end(s.drop_last())
    } else {
        s
    }
}

/// `str::trim`: `s` without leading and trailing white space.
pub open spec fn trim(s: Seq<char>) -> Seq<char> {
    trim_end(trim_start(s))
}

proof fn lemma_trim_start_skip(s: Seq<char>, i: int)
    requires
        0 <= i <= s.len(),
        forall|j: int| 0 <= j < i ==> is_whitespace(#[trigger] s[j]),
        i == s.len() || !is_whitespace(s[i]),
    ensures
        trim_start(s) == s.skip(i),
    decreases i,
{
    if i > 0 {
        assert(is_whitespace(s[0]));
        let t = s.drop_first();
        assert forall|j: int| 0 <= j < i - 1 implies is_whitespace(#[trigger] t[j]) by {
            assert(t[j] == s[j + 1]);
        }
        lemma_trim_start_skip(t, i - 1);
        assert(t.skip(i - 1) =~= s.skip(i));
    } else {
        assert(s.skip(0) =~= s);
    }
}

proof fn lemma_trim_end_take(s: Seq<char>, e: int)
    requires
        0 <= e <= s.len(),
        forall|j: int| e <= j < s.len() ==> is_whitespace(#[trigger] s[j]),
        e == 0 || !is_whitespace(s[e - 1]),
    ensures
        trim_end(s) == s.take(e),
    decreases s.len() - e,
{
    if e < s.len() {
        assert(is_whitespace(s.last()));
        let t = s.drop_last();
        assert forall|j: int| e <= j < t.len() implies is_whitespace(#[trigger] t[j]) by {
            assert(t[j] == s[j]);
        }
        lemma_trim_end_take(t, e);
        assert(t.take(e) =~= s.take(e));
    } else {
        assert(s.take(e) =~= s);
    }
}

/// What trimming leaves starts and ends with a character that is not white space.
pub proof fn lemma_trim_ends(s: Seq<char>)
    ensures
        trim(s).len() > 0 ==> !is_whitespace(trim(s)[0]) && !is_whitespace(trim(s).last()),
{
    lemma_trim_start_first(s);
    lemma_trim_end_prefix(trim_start(s));
    if trim(s).len() > 0 {
        assert(trim(s)[0] == trim_start(s)[0]);
    }
}

proof fn lemma_trim_start_first(s: Seq<char>)
    ensures
        trim_start(s).len() > 0 ==> !is_whitespace(trim_start(s)[0]),
    decreases s.len(),
{
    if s.len() > 0 && is_whitespace(s[0]) {
        lemma_trim_start_first(s.drop_first());
    }
}

proof fn lemma_trim_end_prefix(u: Seq<char>)
    ensures
        trim_end(u).len() <= u.len(),
        trim_end(u) == u.take(trim_end(u).len() as int),
        trim_end(u).len() > 0 ==> !is_whitespace(trim_end(u).last()),
    decreases u.len(),
{
    if u.len() > 0 && is_whitespace(u.last()) {
        lemma_trim_end_prefix(u.drop_last());
        assert(u.drop_last().take(trim_end(u).len() as int) =~= u.take(trim_end(u).len() as int));
    } else {
        assert(u.take(u.len() as int) =~= u);
    }
}

/// A string that neither starts nor ends with white space is its own trimmed form.
pub proof fn lemma_trim_unchanged(t: Seq<char>)
    requires
        t.len() == 0 || (!is_whitespace(t[0]) && !is_whitespace(t.last())),
    ensures
        trim(t) == t,
{
    lemma_trim_start_skip(t, 0);
    assert(t.skip(0) =~= t);
    if t.len() > 0 {
        lemma_trim_end_take(t, t.len() as int);
    } else {
        assert(trim_end(t) == t);
    }
}

/// ASCII lower-casing keeps white space white space, and other characters not.
pub proof fn lemma_lower_char_whitespace(c: char)
    ensures
        is_whitespace(ascii_lower_char(c)) == is_whitespace(c),
        ascii_lower_char(ascii_lower_char(c)) == ascii_lower_char(c),
{
    if 'A' <= c && c <= 'Z' {
        let l = ((c as u32) + 32) as char;
        assert('a' <= l && l <= 'z');
    }
}

/// The trimmed form of `chars`.
pub fn trim_chars(chars: &[char]) -> (r: Vec<char>)
    ensures
        r@ == trim(chars@),
{
    let mut start: usize = 0;
    while start < chars.len() && char_is_whitespace(chars[start])
        invariant
            start <= chars@.len(),
            forall|j: int| 0 <= j < start ==> is_whitespace(#[trigger] chars@[j]),
        decreases chars@.len() - start,
    {
        start = start + 1;
    }
    proof {
        lemma_trim_start_skip(chars@, start as int);
    }
    let ghost rest = chars@.skip(start as int);
    let mut end: usize = chars.len();
    while end > start && char_is_whitespace(chars[end - 1])
        invariant
            start <= end <= chars@.len(),
            rest == chars@.skip(start as int),
            forall|j: int| end - start <= j < rest.len() ==> is_whitespace(#[trigger] rest[j]),
        decreases end,
    {
        end = end - 1;
        proof {
            assert(rest[end - start] == chars@[end as int]);
        }
    }
    proof {
        if end > start {
            assert(rest[end - start - 1] == chars@[end - 1]);
        }
        lemma_trim_end_take(rest, end - start);
    }
    let mut out: Vec<char> = Vec::new();
    let mut i: usize = start;
    while i < end
        invariant
            start <= i <= end <= chars@.len(),
            out@ == chars@.subrange(start as int, i as int),
        decreases end - i,
    {
        out.push(chars[i]);
        i = i + 1;
        proof {
            assert(out@ =~= chars@.subrange(start as int, i as int));
        }
    }
    proof {
        assert(out@ =~= rest.take(end - start));
    }
    out
}

/// `str::trim`, producing an owned string.
pub fn trim_str(s: &str) -> (r: String)
    ensures
        r@ == trim(s@),
{
    let chars = chars_of(s);
    let trimmed = trim_chars(chars.as_slice());
    string_from_chars(trimmed.as_slice())
}

/// The pieces of `s` between occurrences of `separator` (`str::split` with a `char`).
pub open spec fn split_on(s: Seq<char>, separator: char) -> Seq<Seq<char>>
    decreases s.len(),
{
    if s.len() == 0 {
        seq![Seq::<char>::empty()]
    } else {
        let previous = split_on(s.drop_last(), separator);
        if s.last() == separator {
            previous.push(Seq::<char>::empty())
        } else {
            previous.update(previous.len() - 1, previous.last().push(s.last()))
        }
    }
}

pub proof fn lemma_split_on_nonempty(s: Seq<char>, separator: char)
    ensures
        split_on(s, separator).len() >= 1,
    decreases s.len(),
{
    if s.len() > 0 {
        lemma_split_on_nonempty(s.drop_last(), separator);
    }
}

/// Splits `chars` at every `separator`.
pub fn split_chars(chars: &[char], separator: char) -> (pieces: Vec<Vec<char>>)
    ensures
        pieces@.len() == split_on(chars@, separator).len(),
        forall|i: int| 0 <= i < pieces@.len() ==> #[trigger] pieces@[i]@ == split_on(chars@, separator)[i],
{
    let mut pieces: Vec<Vec<char>> = Vec::new();
    let mut current: Vec<char> = Vec::new();
    let mut i: usize = 0;
    while i < chars.len()
        invariant
            i <= chars@.len(),
            ({
                let expected = split_on(chars@.take(i as int), separator);
                &&& pieces@.len() + 1 == expected.len()
                &&& forall|k: int| 0 <= k < pieces@.len() ==> #[trigger] pieces@[k]@ == expected[k]
                &&& current@ == expected.last()
            }),
        decreases chars@.len() - i,
    {
        let ghost before = split_on(chars@.take(i as int), separator);
        proof {
            assert(chars@.take(i as int + 1).drop_last() =~= chars@.take(i as int));
            lemma_split_on_nonempty(chars@.take(i as int), separator);
        }
        let c = chars[i];
        if c == separator {
            let finished = current;
            pieces.push(finished);
            current = Vec::new();
        } else {
            current.push(c);
        }
        i = i + 1;
        proof {
            let expected = split_on(chars@.take(i as int), separator);
            assert(current@ =~= expected.last());
        }
    }
    pieces.push(current);
    proof {
        assert(chars@.take(chars@.len() as int) =~= chars@);
    }
    pieces
}

} // verus!

verus! {

/// The numeric value of a run of ASCII decimal digits.
pub open spec fn decimal_value(s: Seq<char>) -> int
    decreases s.len(),
{
    if s.len() == 0 {
        0
    } else {
        decimal_value(s.drop_last()) * 10 + ((s.last() as int) - ('0' as int))
    }
}

/// Whether `s` is a non-empty run of ASCII decimal digits.
pub open spec fn is_digit_run(s: Seq<char>) -> bool {
    s.len() > 0 && forall|i: int| 0 <= i < s.len() ==> is_ascii_digit(#[trigger] s[i])
}

/// The integer that `s` spells in Rust's `FromStr` syntax for integers: an optional sign
/// (`-` only where `allow_minus`), then one or more ASCII digits.
pub open spec fn parse_integer(s: Seq<char>, allow_minus: bool) -> Option<int> {
    if s.len() > 0 && (s[0] == '+' || (allow_minus && s[0] == '-')) {
        let digits = s.drop_first();
        if is_digit_run(digits) {
            Some(if s[0] == '-' { -decimal_value(digits) } else { decimal_value(digits) })
        } else {
            None
        }
    } else if is_digit_run(s) {
        Some(decimal_value(s))
    } else {
        None
    }
}

/// `s.parse::<T>()` for an integer type `T` with the given bounds and signedness.
pub open spec fn parse_integer_in(s: Seq<char>, signed: bool, min: int, max: int) -> Option<int> {
    match parse_integer(s, signed) {
        Some(v) => if min <= v && v <= max {
            Some(v)
        } else {
            None
        },
        None => None,
    }
}

proof fn lemma_decimal_value_nonneg(s: Seq<char>)
    requires
        forall|i: int| 0 <= i < s.len() ==> is_ascii_digit(#[trigger] s[i]),
    ensures
        decimal_value(s) >= 0,
    decreases s.len(),
{
    if s.len() > 0 {
        lemma_decimal_value_nonneg(s.drop_last());
    }
}

proof fn lemma_decimal_value_monotone(s: Seq<char>, i: int)
    requires
        0 <= i <= s.len(),
        forall|k: int| 0 <= k < s.len() ==> is_ascii_digit(#[trigger] s[k]),
    ensures
        decimal_value(s.take(i)) <= decimal_value(s),
    decreases s.len() - i,
{
    if i < s.len() {
        lemma_decimal_value_monotone(s, i + 1);
        assert(s.take(i + 1).drop_last() =~= s.take(i));
        lemma_decimal_value_nonneg(s.take(i));
    } else {
        assert(s.take(i) =~= s);
    }
}

/// The value of a run of digits, or `None` when some character is not a digit, the run is
/// empty, or the value exceeds `u64::MAX`.
pub fn decimal_digits_value(digits: &[char]) -> (r: Option<u64>)
    ensures
        r is Some <==> (is_digit_run(digits@) && decimal_value(digits@) <= u64::MAX),
        r matches Some(v) ==> v == decimal_value(digits@),
{
    if digits.len() == 0 {
        return None;
    }
    let mut value: u64 = 0;
    let mut i: usize = 0;
    while i < digits.len()
        invariant
            i <= digits@.len(),
            digits@.len() > 0,
            forall|k: int| 0 <= k < i ==> is_ascii_digit(#[trigger] digits@[k]),
            value == decimal_value(digits@.take(i as int)),
        decreases digits@.len() - i,
    {
        let c = digits[i];
        if !('0' <= c && c <= '9') {
            return None;
        }
        let d = (c as u32 - '0' as u32) as u64;
        proof {
            assert(digits@.take(i as int + 1).drop_last() =~= digits@.take(i as int));
        }
        match value.checked_mul(10) {
            Some(scaled) => match scaled.checked_add(d) {
                Some(next) => {
                    value = next;
                },
                None => {
                    proof {
                        assert forall|k: int| 0 <= k < i + 1 implies is_ascii_digit(#[trigger] digits@.take(i as int + 1)[k]) by {}
                        lemma_integer_prefix_bound(digits@, i as int + 1);
                    }
                    return None;
                },
            },
            None => {
                proof {
                    lemma_integer_prefix_bound(digits@, i as int + 1);
                }
                return None;
            },
        }
        i = i + 1;
    }
    proof {
        assert(digits@.take(digits@.len() as int) =~= digits@);
    }
    Some(value)
}

proof fn lemma_integer_prefix_bound(s: Seq<char>, i: int)
    requires
        0 <= i <= s.len(),
        forall|k: int| 0 <= k < i ==> is_ascii_digit(#[trigger] s[k]),
    ensures
        is_digit_run(s) ==> decimal_value(s.take(i)) <= decimal_value(s),
{
    if is_digit_run(s) {
        lemma_decimal_value_monotone(s, i);
    }
}

/// Parses an integer in `min..=max` the way Rust's `FromStr` for integers does.
pub fn parse_integer_chars(s: &[char], signed: bool, min: i64, max: u64) -> (r: Option<(bool, u64)>)
    requires
        min <= 0,
    ensures
        r is Some <==> parse_integer_in(s@, signed, min as int, max as int) is Some,
        r matches Some((negative, magnitude)) ==> parse_integer_in(s@, signed, min as int, max as int)
            == Some(if negative { -(magnitude as int) } else { magnitude as int }),
{
    let has_sign = s.len() > 0 && (s[0] == '+' || (signed && s[0] == '-'));
    let negative = has_sign && s[0] == '-';
    let mut digits: Vec<char> = Vec::new();
    let mut i: usize = if has_sign { 1 } else { 0 };
    let start = i;
    while i < s.len()
        invariant
            start <= i <= s@.len(),
            start == (if has_sign { 1int } else { 0int }),
            digits@ == s@.subrange(start as int, i as int),
        decreases s@.len() - i,
    {
        digits.push(s[i]);
        i = i + 1;
        proof {
            assert(digits@ =~= s@.subrange(start as int, i as int));
        }
    }
    proof {
        if has_sign {
            assert(digits@ =~= s@.drop_first());
        } else {
            assert(digits@ =~= s@);
        }
    }
    match decimal_digits_value(digits.as_slice()) {
        Some(magnitude) => {
            if negative {
                if (magnitude as u128) <= (0i128 - min as i128) as u128 {
                    Some((true, magnitude))
                } else {
                    None
                }
            } else if magnitude <= max {
                Some((false, magnitude))
            } else {
                None
            }
        },
        None => {
            proof {
                if is_digit_run(digits@) {
                    assert(decimal_value(digits@) > u64::MAX);
                }
            }
            None
        },
    }
}

/// `str::parse::<i64>`.
pub fn parse_i64(s: &[char]) -> (r: Option<i64>)
    ensures
        r is Some <==> parse_integer_in(s@, true, i64::MIN as int, i64::MAX as int) is Some,
        r matches Some(v) ==> parse_integer_in(s@, true, i64::MIN as int, i64::MAX as int) == Some(
            v as int,
        ),
{
    match parse_integer_chars(s, true, i64::MIN, i64::MAX as u64) {
        Some((negative, magnitude)) => if negative {
            Some((0i128 - magnitude as i128) as i64)
        } else {
            Some(magnitude as i64)
        },
        None => None,
    }
}

/// `str::parse::<i32>`.
pub fn parse_i32(s: &[char]) -> (r: Option<i32>)
    ensures
        r is Some <==> parse_integer_in(s@, true, i32::MIN as int, i32::MAX as int) is Some,
        r matches Some(v) ==> parse_integer_in(s@, true, i32::MIN as int, i32::MAX as int) == Some(
            v as int,
        ),
{
    match parse_integer_chars(s, true, i32::MIN as i64, i32::MAX as u64) {
        Some((negative, magnitude)) => if negative {
            Some((0i64 - magnitude as i64) as i32)
        } else {
            Some(magnitude as i32)
        },
        None => None,
    }
}

/// `str::parse::<u8>`.
pub fn parse_u8(s: &[char]) -> (r: Option<u8>)
    ensures
        r is Some <==> parse_integer_in(s@, false, 0, u8::MAX as int) is Some,
        r matches Some(v) ==> parse_integer_in(s@, false, 0, u8::MAX as int) == Some(v as int),
{
    match parse_integer_chars(s, false, 0, u8::MAX as u64) {
        Some((_negative, magnitude)) => Some(magnitude as u8),
        None => None,
    }
}

} // verus!

verus! {

/// The lower-case hexadecimal digit for `n < 16`.
pub open spec fn hex_digit(n: nat) -> char {
    if n < 10 {
        ((n + 48) as u32) as char
    } else {
        ((n + 87) as u32) as char
    }
}

/// `value` written with exactly `width` lower-case hexadecimal digits (the low ones).
pub open spec fn hex_fixed(value: nat, width: nat) -> Seq<char>
    decreases width,
{
    if width == 0 {
        Seq::empty()
    } else {
        hex_fixed(value / 16, (width - 1) as nat).push(hex_digit(value % 16))
    }
}

pub proof fn lemma_hex_fixed_is_hex(value: nat, width: nat)
    ensures
        hex_fixed(value, width).len() == width,
        forall|i: int| 0 <= i < width ==> is_ascii_hex_digit(#[trigger] hex_fixed(value, width)[i]),
        forall|i: int| 0 <= i < width ==> !('A' <= #[trigger] hex_fixed(value, width)[i] && hex_fixed(value, width)[i] <= 'Z'),
    decreases width,
{
    if width > 0 {
        lemma_hex_fixed_is_hex(value / 16, (width - 1) as nat);
    }
}

pub fn hex_digit_char(n: u64) -> (c: char)
    requires
        n < 16,
    ensures
        c == hex_digit(n as nat),
{
    if n < 10 {
        ((n + 48) as u8) as char
    } else {
        ((n + 87) as u8) as char
    }
}

/// Appends `value` as exactly `width` lower-case hexadecimal digits.
pub fn push_hex_fixed(out: &mut Vec<char>, value: u64, width: usize)
    ensures
        final(out)@ == old(out)@ + hex_fixed(value as nat, width as nat),
    decreases width,
{
    if width == 0 {
        proof {
            assert(old(out)@ + hex_fixed(value as nat, 0) =~= old(out)@);
        }
        return;
    }
    push_hex_fixed(out, value / 16, width - 1);
    out.push(hex_digit_char(value % 16));
    proof {
        assert(final(out)@ =~= old(out)@ + hex_fixed(value as nat, width as nat));
    }
}

} // verus!

verus! {

/// The decimal digits of `n`, without leading zeros (`0` is "0").
pub open spec fn decimal_digits(n: nat) -> Seq<char>
    decreases n,
{
    if n < 10 {
        seq![((n + 48) as u32) as char]
    } else {
        decimal_digits(n / 10).push((((n % 10) + 48) as u32) as char)
    }
}

/// `n` in decimal, left-padded with zeros to at least `width` characters.
pub open spec fn zero_padded(n: nat, width: nat) -> Seq<char> {
    let d = decimal_digits(n);
    if d.len() >= width {
        d
    } else {
        Seq::new((width - d.len()) as nat, |i: int| '0') + d
    }
}

/// `format!("{:0width$}", v)`: a minus sign for negatives, counted in the width.
pub open spec fn format_int_padded(v: int, width: nat) -> Seq<char> {
    if v < 0 {
        seq!['-'] + zero_padded((-v) as nat, if width > 0 { (width - 1) as nat } else { 0 })
    } else {
        zero_padded(v as nat, width)
    }
}

/// Appends the decimal digits of `n`.
pub fn push_decimal(out: &mut Vec<char>, n: u64)
    ensures
        final(out)@ == old(out)@ + decimal_digits(n as nat),
    decreases n,
{
    if n < 10 {
        out.push(((n + 48) as u8) as char);
        proof {
            assert(final(out)@ =~= old(out)@ + decimal_digits(n as nat));
        }
    } else {
        push_decimal(out, n / 10);
        out.push((((n % 10) + 48) as u8) as char);
        proof {
            assert(final(out)@ =~= old(out)@ + decimal_digits(n as nat));
        }
    }
}

/// Appends `n` in decimal, left-padded with zeros to `width` characters.
pub fn push_zero_padded(out: &mut Vec<char>, n: u64, width: usize)
    ensures
        final(out)@ == old(out)@ + zero_padded(n as nat, width as nat),
{
    let mut digits: Vec<char> = Vec::new();
    push_decimal(&mut digits, n);
    proof {
        assert(digits@ =~= decimal_digits(n as nat));
    }
    let ghost start = out@;
    if digits.len() < width {
        let pad = width - digits.len();
        let mut k: usize = 0;
        while k < pad
            invariant
                k <= pad,
                out@ == start + Seq::new(k as nat, |i: int| '0'),
            decreases pad - k,
        {
            out.push('0');
            k = k + 1;
            proof {
                assert(out@ =~= start + Seq::new(k as nat, |i: int| '0'));
            }
        }
    }
    let ghost middle = out@;
    let mut i: usize = 0;
    while i < digits.len()
        invariant
            i <= digits@.len(),
            out@ == middle + digits@.take(i as int),
        decreases digits@.len() - i,
    {
        out.push(digits[i]);
        i = i + 1;
        proof {
            assert(out@ =~= middle + digits@.take(i as int));
        }
    }
    proof {
        assert(digits@.take(digits@.len() as int) =~= digits@);
        if digits@.len() < width {
            assert(out@ =~= start + (Seq::new((width - digits@.len()) as nat, |i: int| '0') + digits@));
        } else {
            assert(out@ =~= start + digits@);
        }
    }
}

/// Appends `v` as `format!("{:0width$}", v)` does.
pub fn push_int_padded(out: &mut Vec<char>, v: i64, width: usize)
    ensures
        final(out)@ == old(out)@ + format_int_padded(v as int, width as nat),
{
    if v < 0 {
        out.push('-');
        let magnitude = (0i128 - v as i128) as u64;
        let w = if width > 0 { width - 1 } else { 0 };
        let ghost mid = out@;
        push_zero_padded(out, magnitude, w);
        proof {
            assert(final(out)@ =~= old(out)@ + format_int_padded(v as int, width as nat));
        }
    } else {
        push_zero_padded(out, v as u64, width);
    }
}

} // verus!

verus! {

/// The pieces, trimmed, that are not blank.
pub open spec fn nonblank_trimmed(pieces: Seq<Seq<char>>) -> Seq<Seq<char>>
    decreases pieces.len(),
{
    if pieces.len() == 0 {
        Seq::empty()
    } else {
        let rest = nonblank_trimmed(pieces.drop_last());
        let t = trim(pieces.last());
        if t.len() == 0 {
            rest
        } else {
            rest.push(t)
        }
    }
}

/// `value.split(separator).map(str::trim).filter(|v| !v.is_empty())`.
pub fn split_trimmed_nonblank(value: &str, separator: char) -> (r: Vec<String>)
    ensures
        r@.map_values(|s: String| s@) == nonblank_trimmed(split_on(value@, separator)),
{
    let chars = chars_of(value);
    let pieces = split_chars(chars.as_slice(), separator);
    let ghost all = split_on(value@, separator);
    let mut out: Vec<String> = Vec::new();
    let mut i: usize = 0;
    proof {
        assert(all.take(0) =~= Seq::<Seq<char>>::empty());
        assert(out@.map_values(|s: String| s@) =~= Seq::<Seq<char>>::empty());
    }
    while i < pieces.len()
        invariant
            i <= pieces@.len(),
            pieces@.len() == all.len(),
            forall|k: int| 0 <= k < pieces@.len() ==> #[trigger] pieces@[k]@ == all[k],
            out@.map_values(|s: String| s@) == nonblank_trimmed(all.take(i as int)),
        decreases pieces@.len() - i,
    {
        proof {
            assert(all.take(i as int + 1).drop_last() =~= all.take(i as int));
        }
        let t = trim_chars(pieces[i].as_slice());
        if t.len() > 0 {
            let ghost before = out@.map_values(|s: String| s@);
            out.push(string_from_chars(t.as_slice()));
            proof {
                assert(out@.map_values(|s: String| s@) =~= before.push(t@));
            }
        }
        i = i + 1;
    }
    proof {
        assert(all.take(all.len() as int) =~= all);
    }
    out
}

} // verus!

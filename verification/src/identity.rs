//! User identity helpers: random credentials, digests written in hexadecimal, and the
//! rules that pick a user by e-mail address.
use vstd::prelude::*;
use std::collections::hash_map::RandomState;
use std::hash::BuildHasher;
use sha2::Digest;
use crate::text::{
    ascii_lower, eq_ignore_ascii_case, hex_fixed, is_ascii_hex_digit, lemma_hex_fixed_is_hex,
    push_hex_fixed, string_from_chars, to_ascii_lowercase, trim, trim_str,
};

verus! {

/// A user row as the bootstrap step reads it back.
#[derive(Clone, Debug)]
pub struct PersistedBootstrapUser {
    pub id: String,
    pub email: String,
}

/// A user that the bootstrap step creates on an empty installation.
#[derive(Clone, Debug)]
pub struct InitialBootstrapUserWriteModel {
    pub id: String,
    pub email: String,
    pub hashed_password: String,
    pub roles: Vec<String>,
}

/// Each byte as two lower-case hexadecimal digits, in order (`format!("{:02x}")` per byte).
pub open spec fn hex_bytes(bytes: Seq<u8>) -> Seq<char>
    decreases bytes.len(),
{
    if bytes.len() == 0 {
        Seq::empty()
    } else {
        hex_bytes(bytes.drop_last()) + hex_fixed(bytes.last() as nat, 2)
    }
}

/// Lower-case hexadecimal text: every character is an ASCII hex digit and none is upper case.
pub open spec fn is_lower_hex(s: Seq<char>) -> bool {
    forall|i: int| 0 <= i < s.len() ==> is_ascii_hex_digit(#[trigger] s[i]) && !('A' <= s[i] && s[i] <= 'Z')
}

pub proof fn lemma_hex_bytes_shape(bytes: Seq<u8>)
    ensures
        hex_bytes(bytes).len() == 2 * bytes.len(),
        is_lower_hex(hex_bytes(bytes)),
    decreases bytes.len(),
{
    if bytes.len() > 0 {
        lemma_hex_bytes_shape(bytes.drop_last());
        lemma_hex_fixed_is_hex(bytes.last() as nat, 2);
        let prefix = hex_bytes(bytes.drop_last());
        let tail = hex_fixed(bytes.last() as nat, 2);
        assert forall|i: int| 0 <= i < hex_bytes(bytes).len() implies is_ascii_hex_digit(
            #[trigger] hex_bytes(bytes)[i],
        ) && !('A' <= hex_bytes(bytes)[i] && hex_bytes(bytes)[i] <= 'Z') by {
            if i < prefix.len() {
                assert(hex_bytes(bytes)[i] == prefix[i]);
            } else {
                assert(hex_bytes(bytes)[i] == tail[i - prefix.len()]);
            }
        }
    }
}

/// The bytes written as lower-case hexadecimal, two digits each.
pub fn hex_string(bytes: &[u8]) -> (s: String)
    ensures
        s@ == hex_bytes(bytes@),
{
    let mut out: Vec<char> = Vec::new();
    let mut i: usize = 0;
    while i < bytes.len()
        invariant
            i <= bytes@.len(),
            out@ == hex_bytes(bytes@.take(i as int)),
        decreases bytes@.len() - i,
    {
        push_hex_fixed(&mut out, bytes[i] as u64, 2);
        proof {
            assert(bytes@.take(i + 1).drop_last() =~= bytes@.take(i as int));
        }
        i += 1;
    }
    proof {
        assert(bytes@.take(bytes@.len() as int) =~= bytes@);
    }
    string_from_chars(out.as_slice())
}

/// What SHA-512 gives for a byte string.
pub uninterp spec fn sha512_digest(bytes: Seq<u8>) -> Seq<u8>;

/// What SHA-256 gives for a byte string.
pub uninterp spec fn sha256_digest(bytes: Seq<u8>) -> Seq<u8>;

/// `sha2::Sha512::digest`: the digest of `bytes`, which is 64 bytes long.
#[verifier::external_body]
fn sha512_of(bytes: &[u8]) -> (d: Vec<u8>)
    ensures
        d@ == sha512_digest(bytes@),
        d@.len() == 64,
{
    sha2::Sha512::digest(bytes).to_vec()
}

/// `sha2::Sha256::digest`: the digest of `bytes`, which is 32 bytes long.
#[verifier::external_body]
fn sha256_of(bytes: &[u8]) -> (d: Vec<u8>)
    ensures
        d@ == sha256_digest(bytes@),
        d@.len() == 32,
{
    sha2::Sha256::digest(bytes).to_vec()
}

/// The SHA-512 digest of the UTF-8 bytes of `value`, in lower-case hexadecimal (128 digits).
/// API keys are stored under this form.
pub fn sha512_hex(value: &str) -> (s: String)
    ensures
        s@ == hex_bytes(sha512_digest(vstd::utf8::encode_utf8(value@))),
        s@.len() == 128,
        is_lower_hex(s@),
{
    let digest = sha512_of(value.as_bytes());
    proof {
        lemma_hex_bytes_shape(digest@);
    }
    hex_string(digest.as_slice())
}

/// The SHA-256 digest of `bytes`, in lower-case hexadecimal (64 digits).
pub fn sha256_hex(bytes: &[u8]) -> (s: String)
    ensures
        s@ == hex_bytes(sha256_digest(bytes@)),
        s@.len() == 64,
        is_lower_hex(s@),
{
    let digest = sha256_of(bytes);
    proof {
        lemma_hex_bytes_shape(digest@);
    }
    hex_string(digest.as_slice())
}

/// A `RandomState` with freshly drawn keys (`std::collections::hash_map::RandomState::new`).
#[verifier::external_body]
fn fresh_random_state() -> RandomState {
    RandomState::new()
}

/// `BuildHasher::hash_one` of `counter` under `state`. The value rests on the keys that the
/// process drew at random, so nothing is stated of it.
#[verifier::external_body]
fn keyed_word(state: &RandomState, counter: u64) -> u64 {
    state.hash_one(counter)
}

/// The low byte of each word, in order.
pub fn low_bytes(words: &[u64]) -> (bytes: Vec<u8>)
    ensures
        bytes@ == words@.map_values(|w: u64| (w % 256) as u8),
{
    let mut bytes: Vec<u8> = Vec::new();
    let mut i: usize = 0;
    while i < words.len()
        invariant
            i <= words@.len(),
            bytes@ == words@.take(i as int).map_values(|w: u64| (w % 256) as u8),
        decreases words@.len() - i,
    {
        bytes.push((words[i] % 256) as u8);
        i += 1;
        proof {
            assert(bytes@ =~= words@.take(i as int).map_values(|w: u64| (w % 256) as u8));
        }
    }
    proof {
        assert(words@.take(words@.len() as int) =~= words@);
    }
    bytes
}

/// `count` unpredictable bytes: the low bytes ([`low_bytes`]) of `count` words drawn from a
/// freshly keyed hasher, one per position.
pub fn random_bytes(count: usize) -> (bytes: Vec<u8>)
    ensures
        bytes@.len() == count,
{
    let state = fresh_random_state();
    let mut words: Vec<u64> = Vec::new();
    let mut i: usize = 0;
    while i < count
        invariant
            i <= count,
            words@.len() == i,
        decreases count - i,
    {
        words.push(keyed_word(&state, i as u64));
        i += 1;
    }
    low_bytes(words.as_slice())
}

/// `byte_count` unpredictable bytes written as lower-case hexadecimal: `2 * byte_count` digits.
pub fn random_hex_token(byte_count: usize) -> (token: String)
    ensures
        token@.len() == 2 * byte_count,
        is_lower_hex(token@),
{
    let bytes = random_bytes(byte_count);
    proof {
        lemma_hex_bytes_shape(bytes@);
    }
    hex_string(bytes.as_slice())
}

/// The secret of a new API key: 64 random bytes, 128 hexadecimal digits.
pub fn generated_api_key_secret() -> (secret: String)
    ensures
        secret@.len() == 128,
        is_lower_hex(secret@),
{
    random_hex_token(64)
}

/// The identifier of a new API key: 12 random bytes, 24 hexadecimal digits.
pub fn generated_api_key_id() -> (id: String)
    ensures
        id@.len() == 24,
        is_lower_hex(id@),
{
    random_hex_token(12)
}

/// The password given to a user created through OAuth: 32 random bytes, 64 hexadecimal digits,
/// so that it shares no guessable prefix with the e-mail address.
pub fn generated_oauth_password() -> (password: String)
    ensures
        password@.len() == 64,
        is_lower_hex(password@),
{
    random_hex_token(32)
}

/// `prefix`, a dash, then 24 random lower-case hexadecimal digits.
pub fn random_prefixed_id(prefix: &str) -> (id: String)
    ensures
        id@.len() == prefix@.len() + 25,
        id@.take(prefix@.len() as int) == prefix@,
        id@[prefix@.len() as int] == '-',
        is_lower_hex(id@.skip(prefix@.len() as int + 1)),
{
    let token = random_hex_token(12);
    let mut out: Vec<char> = crate::text::chars_of(prefix);
    out.push('-');
    let token_chars = crate::text::chars_of(token.as_str());
    let mut i: usize = 0;
    while i < token_chars.len()
        invariant
            i <= token_chars@.len(),
            token_chars@ == token@,
            out@ == prefix@ + seq!['-'] + token@.take(i as int),
        decreases token_chars@.len() - i,
    {
        out.push(token_chars[i]);
        proof {
            assert(token@.take(i + 1) =~= token@.take(i as int).push(token@[i as int]));
        }
        i += 1;
    }
    proof {
        assert(token@.take(token@.len() as int) =~= token@);
        assert(out@.take(prefix@.len() as int) =~= prefix@);
        assert(out@.skip(prefix@.len() as int + 1) =~= token@);
    }
    string_from_chars(out.as_slice())
}

/// The identifier of a new historical event: `historical-event-` and 24 random hex digits.
pub fn generated_historical_event_id() -> (id: String)
    ensures
        id@.len() == 41,
        id@.take(16) == "historical-event"@,
        id@[16] == '-',
        is_lower_hex(id@.skip(17)),
{
    let prefix = "historical-event";
    proof {
        reveal_strlit("historical-event");
    }
    random_prefixed_id(prefix)
}

/// The identifier given to a user created through OAuth: `oauth2-` and the SHA-256 digest, in
/// hexadecimal, of the trimmed, ASCII-lower-cased address.
pub open spec fn oauth_user_id_spec(email: Seq<char>) -> Seq<char> {
    "oauth2-"@ + hex_bytes(sha256_digest(vstd::utf8::encode_utf8(ascii_lower(trim(email)))))
}

pub fn oauth_user_id(email: &str) -> (id: String)
    ensures
        id@ == oauth_user_id_spec(email@),
{
    let trimmed = trim_str(email);
    let normalized = to_ascii_lowercase(trimmed.as_str());
    let digest_hex = sha256_hex(normalized.as_str().as_bytes());
    let mut out: Vec<char> = crate::text::chars_of("oauth2-");
    let hex_chars = crate::text::chars_of(digest_hex.as_str());
    let mut i: usize = 0;
    while i < hex_chars.len()
        invariant
            i <= hex_chars@.len(),
            out@ == "oauth2-"@ + hex_chars@.take(i as int),
        decreases hex_chars@.len() - i,
    {
        out.push(hex_chars[i]);
        proof {
            assert(hex_chars@.take(i + 1) =~= hex_chars@.take(i as int).push(hex_chars@[i as int]));
        }
        i += 1;
    }
    proof {
        assert(hex_chars@.take(hex_chars@.len() as int) =~= hex_chars@);
    }
    string_from_chars(out.as_slice())
}

/// The position of the first address equal to `email` when ASCII case is ignored.
pub open spec fn first_email_match(emails: Seq<Seq<char>>, email: Seq<char>) -> Option<int> {
    if exists|i: int| 0 <= i < emails.len() && ascii_lower(#[trigger] emails[i]) == ascii_lower(email) {
        Some(choose|i: int| 0 <= i < emails.len() && ascii_lower(#[trigger] emails[i]) == ascii_lower(email)
            && forall|j: int| 0 <= j < i ==> ascii_lower(#[trigger] emails[j]) != ascii_lower(email))
    } else {
        None
    }
}

/// Finds the user whose address matches `email` without regard to ASCII case: the first such
/// position, or `None`.
pub fn find_user_by_email(emails: &[String], email: &str) -> (found: Option<usize>)
    ensures
        match found {
            Some(i) => i < emails@.len()
                && ascii_lower(emails@[i as int]@) == ascii_lower(email@)
                && forall|j: int| 0 <= j < i ==> ascii_lower(#[trigger] emails@[j]@) != ascii_lower(email@),
            None => forall|j: int| 0 <= j < emails@.len() ==> ascii_lower(#[trigger] emails@[j]@) != ascii_lower(email@),
        },
{
    let mut i: usize = 0;
    while i < emails.len()
        invariant
            i <= emails@.len(),
            forall|j: int| 0 <= j < i ==> ascii_lower(#[trigger] emails@[j]@) != ascii_lower(email@),
        decreases emails@.len() - i,
    {
        if eq_ignore_ascii_case(emails[i].as_str(), email) {
            return Some(i);
        }
        i += 1;
    }
    None
}

/// Why an API key request was refused before any storage was touched.
#[derive(Clone, Copy, Debug, PartialEq, Eq)]
pub enum ApiKeyRequestError {
    BlankComment,
}

impl ApiKeyRequestError {
    /// The description of a refused API key request: the comment was blank.
    pub fn message(&self) -> (m: String)
        ensures
            m@ == "api key comment must not be blank"@,
    {
        String::from_str("api key comment must not be blank")
    }
}

/// The comment under which an API key is filed: the given text without surrounding white
/// space; a comment that is blank is refused.
pub fn normalize_api_key_comment(comment: &str) -> (r: Result<String, ApiKeyRequestError>)
    ensures
        match r {
            Ok(c) => trim(comment@).len() > 0 && c@ == trim(comment@),
            Err(e) => trim(comment@).len() == 0 && e == ApiKeyRequestError::BlankComment,
        },
{
    let chars = crate::text::chars_of(comment);
    let trimmed = crate::text::trim_chars(chars.as_slice());
    if trimmed.len() == 0 {
        Err(ApiKeyRequestError::BlankComment)
    } else {
        Ok(string_from_chars(trimmed.as_slice()))
    }
}

/// The key that an API request presents, trimmed; `None` when nothing but white space is left,
/// which the request answers as a missing key.
pub fn presented_api_key(api_key: &str) -> (r: Option<String>)
    ensures
        match r {
            Some(k) => trim(api_key@).len() > 0 && k@ == trim(api_key@),
            None => trim(api_key@).len() == 0,
        },
{
    match normalize_api_key_comment(api_key) {
        Ok(k) => Some(k),
        Err(_) => None,
    }
}

} // verus!

//! Which libraries a request may see, how a library root is written, and which file
//! removal errors are worth waiting out.
use vstd::prelude::*;
use crate::comicinfo_source::{normalize_entry_name, slash_separated};
use crate::ordering::views;
use crate::string_set::{contains_string, string_set};
use crate::text::{chars_of, string_from_chars};

verus! {

/// The requested libraries that are also authorized, in the requested order.
pub open spec fn authorized_subset(authorized: Set<Seq<char>>, requested: Seq<Seq<char>>) -> Seq<Seq<char>>
    decreases requested.len(),
{
    if requested.len() == 0 {
        Seq::empty()
    } else {
        let rest = authorized_subset(authorized, requested.drop_last());
        if authorized.contains(requested.last()) {
            rest.push(requested.last())
        } else {
            rest
        }
    }
}

pub fn intersection(authorized: &Vec<String>, requested: &Vec<String>) -> (r: Vec<String>)
    ensures
        views(r@) == authorized_subset(string_set(authorized@), views(requested@)),
{
    let ghost a = string_set(authorized@);
    let ghost req = views(requested@);
    let mut out: Vec<String> = Vec::new();
    let mut i: usize = 0;
    proof {
        assert(views(out@) =~= authorized_subset(a, req.take(0)));
    }
    while i < requested.len()
        invariant
            i <= requested@.len(),
            a == string_set(authorized@),
            req == views(requested@),
            views(out@) == authorized_subset(a, req.take(i as int)),
        decreases requested@.len() - i,
    {
        proof {
            assert(req.take(i + 1).drop_last() =~= req.take(i as int));
            assert(req.take(i + 1).last() == requested@[i as int]@);
        }
        if contains_string(authorized, requested[i].as_str()) {
            let ghost before = views(out@);
            let item = requested[i].clone();
            out.push(item);
            proof {
                assert(views(out@) =~= before.push(requested@[i as int]@));
            }
        }
        i += 1;
    }
    proof {
        assert(req.take(req.len() as int) =~= req);
    }
    out
}

/// The libraries a query covers: with both an authorization and a request, the requested
/// ones that are authorized; with one of them, that one; with neither, all (`None`).
pub fn effective_library_ids(authorized: Option<&Vec<String>>, requested: Option<&Vec<String>>) -> (r: Option<Vec<String>>)
    ensures
        match (authorized, requested) {
            (Some(a), Some(q)) => r matches Some(v) && views(v@) == authorized_subset(string_set(a@), views(q@)),
            (Some(a), None) => r matches Some(v) && views(v@) == views(a@),
            (None, Some(q)) => r matches Some(v) && views(v@) == views(q@),
            (None, None) => r is None,
        },
{
    match (authorized, requested) {
        (Some(a), Some(q)) => Some(intersection(a, q)),
        (Some(a), None) => Some(a.clone()),
        (None, Some(q)) => Some(q.clone()),
        (None, None) => None,
    }
}

/// `s` without trailing `/` characters.
pub open spec fn without_trailing_slashes(s: Seq<char>) -> Seq<char>
    decreases s.len(),
{
    if s.len() > 0 && s.last() == '/' {
        without_trailing_slashes(s.drop_last())
    } else {
        s
    }
}

/// A library root as it is compared: the resolved root with `/` separators and no
/// trailing `/`.
pub fn normalize_library_root(resolved_root: &str) -> (r: String)
    ensures
        r@ == without_trailing_slashes(slash_separated(resolved_root@)),
{
    let slashed = normalize_entry_name(resolved_root);
    let chars = chars_of(slashed.as_str());
    let mut end = chars.len();
    proof {
        assert(chars@.take(end as int) =~= chars@);
    }
    while end > 0 && chars[end - 1] == '/'
        invariant
            end <= chars@.len(),
            without_trailing_slashes(chars@) == without_trailing_slashes(chars@.take(end as int)),
        decreases end,
    {
        proof {
            assert(chars@.take(end as int).drop_last() =~= chars@.take(end - 1));
        }
        end -= 1;
    }
    let mut out: Vec<char> = Vec::new();
    let mut i: usize = 0;
    while i < end
        invariant
            i <= end <= chars@.len(),
            out@ == chars@.take(i as int),
        decreases end - i,
    {
        out.push(chars[i]);
        i += 1;
        proof {
            assert(out@ =~= chars@.take(i as int));
        }
    }
    string_from_chars(out.as_slice())
}

/// Whether a failed file removal is one that Windows reports while another process still
/// holds the file (access denied, sharing or lock violation: OS errors 5, 32 and 33), so
/// that the removal is tried again. Elsewhere no error is.
pub fn is_transient_windows_release_error(raw_os_error: Option<i32>, on_windows: bool) -> (r: bool)
    ensures
        r == (on_windows && (raw_os_error == Some(5i32) || raw_os_error == Some(32i32) || raw_os_error == Some(33i32))),
{
    if !on_windows {
        return false;
    }
    match raw_os_error {
        Some(code) => code == 5 || code == 32 || code == 33,
        None => false,
    }
}


/// How long a file removal keeps being retried while Windows holds the file, in seconds.
pub const FILE_RELEASE_RETRY_DEADLINE_SECS: u64 = 30;

/// The wait between two removal attempts, in milliseconds.
pub const FILE_RELEASE_RETRY_INTERVAL_MILLIS: u64 = 10;

/// What one attempt to remove a file gave.
#[derive(Clone, Copy, Debug, PartialEq, Eq)]
pub enum RemovalAttempt {
    Removed,
    /// The file was not there.
    NotFound,
    /// Any other failure, with the operating system's error code where it gave one.
    Failed(Option<i32>),
}

/// What to do after a removal attempt.
#[derive(Clone, Copy, Debug, PartialEq, Eq)]
pub enum RemovalStep {
    /// Stop: the file was removed (`true`) or was already gone (`false`).
    Finished(bool),
    /// Wait [`FILE_RELEASE_RETRY_INTERVAL_MILLIS`] and try again.
    RetryAfterWait,
    /// Stop and report the attempt's error.
    Fail,
}

/// The decision after one removal attempt: a removed or missing file ends the removal; a
/// failure is retried only before the deadline and only when it is one that Windows gives
/// while another process still holds the file; any other failure is reported.
pub fn file_removal_step(attempt: RemovalAttempt, before_deadline: bool, on_windows: bool) -> (r: RemovalStep)
    ensures
        r == match attempt {
            RemovalAttempt::Removed => RemovalStep::Finished(true),
            RemovalAttempt::NotFound => RemovalStep::Finished(false),
            RemovalAttempt::Failed(code) => if before_deadline && on_windows
                && (code == Some(5i32) || code == Some(32i32) || code == Some(33i32)) {
                RemovalStep::RetryAfterWait
            } else {
                RemovalStep::Fail
            },
        },
{
    match attempt {
        RemovalAttempt::Removed => RemovalStep::Finished(true),
        RemovalAttempt::NotFound => RemovalStep::Finished(false),
        RemovalAttempt::Failed(code) => {
            if before_deadline && is_transient_windows_release_error(code, on_windows) {
                RemovalStep::RetryAfterWait
            } else {
                RemovalStep::Fail
            }
        },
    }
}

} // verus!

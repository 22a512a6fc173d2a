//! The checks a library passes before it is stored: its root is an existing directory, its
//! name is its own, and its root neither equals nor nests with another library's root.
use vstd::prelude::*;
use crate::comicinfo_source::slash_separated;
use crate::library_access::{normalize_library_root, without_trailing_slashes};
use crate::text::{chars_equal, chars_of, chars_start_with, has_prefix};

verus! {

/// What the filesystem says of a library's root.
#[derive(Clone, Copy, Debug, PartialEq, Eq)]
pub enum LibraryRootState {
    Missing,
    NotDirectory,
    Directory,
}

/// Another stored library: its id, name and resolved root.
#[derive(Clone, Debug)]
pub struct ExistingLibrary {
    pub id: String,
    pub name: String,
    pub resolved_root: String,
}

/// Why a library cannot be stored.
#[derive(Clone, Copy, Debug, PartialEq, Eq)]
pub enum LibraryValidationError {
    RootMissing,
    RootNotDirectory,
    NameTaken,
    RootOverlap,
}

/// The human-readable description of a refused library.
pub open spec fn library_validation_message(e: LibraryValidationError) -> Seq<char> {
    match e {
        LibraryValidationError::RootMissing => "library root does not exist"@,
        LibraryValidationError::RootNotDirectory => "library root must be a directory"@,
        LibraryValidationError::NameTaken => "library name must be unique"@,
        LibraryValidationError::RootOverlap => "library root cannot overlap another library root"@,
    }
}

impl LibraryValidationError {
    pub fn message(&self) -> (s: String)
        ensures
            s@ == library_validation_message(*self),
    {
        match self {
            LibraryValidationError::RootMissing => String::from_str("library root does not exist"),
            LibraryValidationError::RootNotDirectory => String::from_str("library root must be a directory"),
            LibraryValidationError::NameTaken => String::from_str("library name must be unique"),
            LibraryValidationError::RootOverlap => String::from_str("library root cannot overlap another library root"),
        }
    }
}

/// A resolved root as roots are compared.
pub open spec fn comparable_root(resolved: Seq<char>) -> Seq<char> {
    without_trailing_slashes(slash_separated(resolved))
}

/// Two comparable roots overlap when they are equal or one lies inside the other.
pub open spec fn roots_overlap(a: Seq<char>, b: Seq<char>) -> bool {
    a == b || has_prefix(a, b.push('/')) || has_prefix(b, a.push('/'))
}

/// The first conflict with another library, in the stored order: a library with the same
/// name, or one whose root overlaps; the library's own row is skipped.
pub open spec fn library_conflict(rows: Seq<ExistingLibrary>, id: Seq<char>, name: Seq<char>, root: Seq<char>) -> Option<LibraryValidationError>
    decreases rows.len(),
{
    if rows.len() == 0 {
        None
    } else if rows[0].id@ == id {
        library_conflict(rows.skip(1), id, name, root)
    } else if rows[0].name@ == name {
        Some(LibraryValidationError::NameTaken)
    } else if roots_overlap(root, comparable_root(rows[0].resolved_root@)) {
        Some(LibraryValidationError::RootOverlap)
    } else {
        library_conflict(rows.skip(1), id, name, root)
    }
}

/// Why the library cannot be stored, if it cannot.
pub open spec fn library_validation(root_state: LibraryRootState, id: Seq<char>, name: Seq<char>, resolved_root: Seq<char>, rows: Seq<ExistingLibrary>) -> Option<LibraryValidationError> {
    match root_state {
        LibraryRootState::Missing => Some(LibraryValidationError::RootMissing),
        LibraryRootState::NotDirectory => Some(LibraryValidationError::RootNotDirectory),
        LibraryRootState::Directory => library_conflict(rows, id, name, comparable_root(resolved_root)),
    }
}

fn with_slash(chars: &Vec<char>) -> (r: Vec<char>)
    ensures
        r@ == chars@.push('/'),
{
    let mut out = chars.clone();
    out.push('/');
    out
}

fn overlapping(a: &Vec<char>, b: &Vec<char>) -> (r: bool)
    ensures
        r == roots_overlap(a@, b@),
{
    let a_slash = with_slash(a);
    let b_slash = with_slash(b);
    chars_equal(a.as_slice(), b.as_slice()) || chars_start_with(a.as_slice(), b_slash.as_slice())
        || chars_start_with(b.as_slice(), a_slash.as_slice())
}

/// Checks a library before it is created or updated, given the state of its resolved root
/// and the stored libraries; the first failing check decides the error.
pub fn validate_library_before_persist(
    root_state: LibraryRootState,
    library_id: &str,
    library_name: &str,
    resolved_root: &str,
    existing: &Vec<ExistingLibrary>,
) -> (r: Result<(), LibraryValidationError>)
    ensures
        match r {
            Ok(()) => library_validation(root_state, library_id@, library_name@, resolved_root@, existing@) is None,
            Err(e) => library_validation(root_state, library_id@, library_name@, resolved_root@, existing@) == Some(e),
        },
{
    match root_state {
        LibraryRootState::Missing => return Err(LibraryValidationError::RootMissing),
        LibraryRootState::NotDirectory => return Err(LibraryValidationError::RootNotDirectory),
        LibraryRootState::Directory => {},
    }
    let id = String::from_str(library_id);
    let name = String::from_str(library_name);
    let root = chars_of(normalize_library_root(resolved_root).as_str());
    let ghost rows = existing@;
    let mut i: usize = 0;
    proof {
        assert(rows.skip(0) =~= rows);
    }
    while i < existing.len()
        invariant
            i <= rows.len(),
            rows == existing@,
            root_state == LibraryRootState::Directory,
            id@ == library_id@,
            name@ == library_name@,
            root@ == comparable_root(resolved_root@),
            library_conflict(rows, id@, name@, root@) == library_conflict(rows.skip(i as int), id@, name@, root@),
        decreases rows.len() - i,
    {
        proof {
            assert(rows.skip(i as int)[0] == rows[i as int]);
            assert(rows.skip(i as int).skip(1) =~= rows.skip(i + 1));
        }
        let row = &existing[i];
        if row.id != id {
            if row.name == name {
                return Err(LibraryValidationError::NameTaken);
            }
            let other = chars_of(normalize_library_root(row.resolved_root.as_str()).as_str());
            if overlapping(&root, &other) {
                return Err(LibraryValidationError::RootOverlap);
            }
        }
        i += 1;
    }
    proof {
        assert(rows.skip(rows.len() as int).len() == 0);
    }
    Ok(())
}

} // verus!

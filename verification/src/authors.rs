//! The queries that list book authors, author names and roles, and what is kept of their
//! rows.
use vstd::prelude::*;
use vstd::string::StringExecFns;
use crate::ordering::views;
use crate::tag_query::{append_placeholders, append_strings, placeholders};
use crate::text::{chars_contain, chars_of, contains_run, string_from_chars};
use unicode_normalization::UnicodeNormalization;

verus! {

/// Whose authors are listed.
#[derive(Clone, Debug)]
pub enum AuthorsScope {
    All,
    Libraries(Vec<String>),
    Collections(Vec<String>),
    Series(Vec<String>),
    ReadLists(Vec<String>),
}

/// A query and the values bound to its `?` placeholders, in order.
#[derive(Clone, Debug)]
pub struct AuthorsQuery {
    pub sql: String,
    pub binds: Vec<String>,
}

/// An author of a book: a name in a role.
#[derive(Clone, Debug)]
pub struct AuthorEntry {
    pub name: String,
    pub role: String,
}

pub open spec fn authors_select() -> Seq<char> {
    "SELECT a.NAME, a.ROLE\n         FROM BOOK_METADATA_AUTHOR a\n         JOIN BOOK b ON b.ID = a.BOOK_ID"@
}

pub open spec fn authors_order() -> Seq<char> {
    " ORDER BY lower(a.NAME), lower(a.ROLE), a.NAME, a.ROLE, b.ID"@
}

/// `column IN (?, ..., ?)` with `n` placeholders.
pub open spec fn in_list(column: Seq<char>, n: nat) -> Seq<char> {
    column + " IN ("@ + placeholders(n) + ")"@
}

/// The join a scope needs.
pub open spec fn scope_join(scope: AuthorsScope) -> Seq<char> {
    match scope {
        AuthorsScope::Collections(_) => " JOIN COLLECTION_SERIES cs ON cs.SERIES_ID = b.SERIES_ID"@,
        AuthorsScope::ReadLists(_) => " JOIN READLIST_BOOK rb ON rb.BOOK_ID = b.ID"@,
        _ => Seq::empty(),
    }
}

/// The ids a scope names, if it names any.
pub open spec fn scope_ids(scope: AuthorsScope) -> Option<Seq<Seq<char>>> {
    match scope {
        AuthorsScope::All => None,
        AuthorsScope::Libraries(ids) => Some(views(ids@)),
        AuthorsScope::Collections(ids) => Some(views(ids@)),
        AuthorsScope::Series(ids) => Some(views(ids@)),
        AuthorsScope::ReadLists(ids) => Some(views(ids@)),
    }
}

/// The column a scope's ids are matched against.
pub open spec fn scope_column(scope: AuthorsScope) -> Seq<char> {
    match scope {
        AuthorsScope::All => Seq::empty(),
        AuthorsScope::Libraries(_) => "b.LIBRARY_ID"@,
        AuthorsScope::Collections(_) => "cs.COLLECTION_ID"@,
        AuthorsScope::Series(_) => "b.SERIES_ID"@,
        AuthorsScope::ReadLists(_) => "rb.READLIST_ID"@,
    }
}

/// The author query of a scope, restricted to the authorized libraries when some are
/// named; none when the scope or the authorization names no id (nothing can be listed).
pub open spec fn authors_query_spec(scope: AuthorsScope, authorized: Option<Seq<Seq<char>>>) -> Option<(Seq<char>, Seq<Seq<char>>)> {
    if (scope_ids(scope) matches Some(ids) && ids.len() == 0) || (authorized matches Some(a) && a.len() == 0) {
        None
    } else {
        let scope_sql = match scope_ids(scope) {
            Some(ids) => " WHERE "@ + in_list(scope_column(scope), ids.len()),
            None => Seq::empty(),
        };
        let scope_binds = match scope_ids(scope) {
            Some(ids) => ids,
            None => Seq::empty(),
        };
        let auth_sql = match authorized {
            Some(a) => (if scope is All { " WHERE "@ } else { " AND "@ }) + in_list("b.LIBRARY_ID"@, a.len()),
            None => Seq::empty(),
        };
        let auth_binds = match authorized {
            Some(a) => a,
            None => Seq::empty(),
        };
        Some((authors_select() + scope_join(scope) + scope_sql + auth_sql + authors_order(), scope_binds + auth_binds))
    }
}

pub open spec fn opt_views(o: Option<&Vec<String>>) -> Option<Seq<Seq<char>>> {
    match o {
        Some(v) => Some(views(v@)),
        None => None,
    }
}

/// Builds the author query (see [`authors_query_spec`]).
#[verifier::rlimit(40)]
pub fn authors_query(scope: &AuthorsScope, authorized: Option<&Vec<String>>) -> (r: Option<AuthorsQuery>)
    ensures
        match r {
            Some(q) => authors_query_spec(*scope, opt_views(authorized)) == Some((q.sql@, views(q.binds@))),
            None => authors_query_spec(*scope, opt_views(authorized)) is None,
        },
{
    let ids: Option<&Vec<String>> = match scope {
        AuthorsScope::All => None,
        AuthorsScope::Libraries(ids) => Some(ids),
        AuthorsScope::Collections(ids) => Some(ids),
        AuthorsScope::Series(ids) => Some(ids),
        AuthorsScope::ReadLists(ids) => Some(ids),
    };
    proof {
        assert(opt_views(ids) == scope_ids(*scope));
    }
    if let Some(v) = ids {
        if v.len() == 0 {
            return None;
        }
    }
    if let Some(a) = authorized {
        if a.len() == 0 {
            return None;
        }
    }
    let mut sql = String::new();
    sql.append("SELECT a.NAME, a.ROLE\n         FROM BOOK_METADATA_AUTHOR a\n         JOIN BOOK b ON b.ID = a.BOOK_ID");
    match scope {
        AuthorsScope::Collections(_) => sql.append(" JOIN COLLECTION_SERIES cs ON cs.SERIES_ID = b.SERIES_ID"),
        AuthorsScope::ReadLists(_) => sql.append(" JOIN READLIST_BOOK rb ON rb.BOOK_ID = b.ID"),
        _ => {},
    }
    proof {
        assert(sql@ =~= Seq::<char>::empty() + authors_select() + scope_join(*scope));
    }
    let ghost joined = sql@;
    let mut binds: Vec<String> = Vec::new();
    proof {
        assert(views(binds@) =~= Seq::<Seq<char>>::empty());
    }
    if let Some(v) = ids {
        sql.append(" WHERE ");
        match scope {
            AuthorsScope::Libraries(_) => sql.append("b.LIBRARY_ID"),
            AuthorsScope::Collections(_) => sql.append("cs.COLLECTION_ID"),
            AuthorsScope::Series(_) => sql.append("b.SERIES_ID"),
            _ => sql.append("rb.READLIST_ID"),
        }
        sql.append(" IN (");
        append_placeholders(&mut sql, v.len());
        sql.append(")");
        append_strings(&mut binds, v);
        proof {
            assert(sql@ =~= joined + " WHERE "@ + in_list(scope_column(*scope), v@.len()));
            assert(views(binds@) =~= views(v@));
        }
    } else {
        proof {
            assert(sql@ =~= joined + Seq::<char>::empty());
        }
    }
    let ghost scoped = sql@;
    let ghost scoped_binds = views(binds@);
    if let Some(a) = authorized {
        if ids.is_none() {
            sql.append(" WHERE ");
        } else {
            sql.append(" AND ");
        }
        sql.append("b.LIBRARY_ID");
        sql.append(" IN (");
        append_placeholders(&mut sql, a.len());
        sql.append(")");
        append_strings(&mut binds, a);
        proof {
            assert(sql@ =~= scoped + (if *scope is All { " WHERE "@ } else { " AND "@ }) + in_list("b.LIBRARY_ID"@, a@.len()));
        }
    } else {
        proof {
            assert(sql@ =~= scoped + Seq::<char>::empty());
            assert(views(binds@) =~= scoped_binds + Seq::<Seq<char>>::empty());
        }
    }
    sql.append(" ORDER BY lower(a.NAME), lower(a.ROLE), a.NAME, a.ROLE, b.ID");
    Some(AuthorsQuery { sql, binds })
}

/// The query of one author column (`select` ... `order`), restricted to the authorized
/// libraries when some are named; none with an empty authorization.
pub open spec fn column_query_spec(select: Seq<char>, order: Seq<char>, authorized: Option<Seq<Seq<char>>>) -> Option<(Seq<char>, Seq<Seq<char>>)> {
    match authorized {
        Some(a) => if a.len() == 0 {
            None
        } else {
            Some((select + " WHERE b.LIBRARY_ID IN ("@ + placeholders(a.len()) + ")"@ + order, a))
        },
        None => Some((select + order, Seq::empty())),
    }
}

pub open spec fn names_select() -> Seq<char> {
    "SELECT DISTINCT a.NAME\n         FROM BOOK_METADATA_AUTHOR a\n         JOIN BOOK b ON b.ID = a.BOOK_ID"@
}

pub open spec fn roles_select() -> Seq<char> {
    "SELECT DISTINCT a.ROLE\n         FROM BOOK_METADATA_AUTHOR a\n         JOIN BOOK b ON b.ID = a.BOOK_ID"@
}

fn restrict_to_libraries(sql: &mut String, binds: &mut Vec<String>, authorized: &Vec<String>)
    ensures
        final(sql)@ == old(sql)@ + " WHERE b.LIBRARY_ID IN ("@ + placeholders(authorized@.len()) + ")"@,
        views(final(binds)@) == views(old(binds)@) + views(authorized@),
{
    sql.append(" WHERE b.LIBRARY_ID IN (");
    append_placeholders(sql, authorized.len());
    sql.append(")");
    append_strings(binds, authorized);
}

/// The query of the distinct author names (see [`column_query_spec`]), by lower-cased name.
pub fn author_names_query(authorized: Option<&Vec<String>>) -> (r: Option<AuthorsQuery>)
    ensures
        match r {
            Some(q) => column_query_spec(names_select(), " ORDER BY lower(a.NAME), a.NAME"@, opt_views(authorized)) == Some((q.sql@, views(q.binds@))),
            None => column_query_spec(names_select(), " ORDER BY lower(a.NAME), a.NAME"@, opt_views(authorized)) is None,
        },
{
    let mut sql = String::new();
    let mut binds: Vec<String> = Vec::new();
    sql.append("SELECT DISTINCT a.NAME\n         FROM BOOK_METADATA_AUTHOR a\n         JOIN BOOK b ON b.ID = a.BOOK_ID");
    proof {
        assert(sql@ =~= names_select());
        assert(views(binds@) =~= Seq::<Seq<char>>::empty());
    }
    if let Some(a) = authorized {
        if a.len() == 0 {
            return None;
        }
        restrict_to_libraries(&mut sql, &mut binds, a);
        proof {
            assert(views(binds@) =~= views(a@));
        }
    }
    sql.append(" ORDER BY lower(a.NAME), a.NAME");
    Some(AuthorsQuery { sql, binds })
}

/// The query of the distinct author roles (see [`column_query_spec`]), by lower-cased role.
pub fn author_roles_query(authorized: Option<&Vec<String>>) -> (r: Option<AuthorsQuery>)
    ensures
        match r {
            Some(q) => column_query_spec(roles_select(), " ORDER BY lower(a.ROLE), a.ROLE"@, opt_views(authorized)) == Some((q.sql@, views(q.binds@))),
            None => column_query_spec(roles_select(), " ORDER BY lower(a.ROLE), a.ROLE"@, opt_views(authorized)) is None,
        },
{
    let mut sql = String::new();
    let mut binds: Vec<String> = Vec::new();
    sql.append("SELECT DISTINCT a.ROLE\n         FROM BOOK_METADATA_AUTHOR a\n         JOIN BOOK b ON b.ID = a.BOOK_ID");
    proof {
        assert(sql@ =~= roles_select());
        assert(views(binds@) =~= Seq::<Seq<char>>::empty());
    }
    if let Some(a) = authorized {
        if a.len() == 0 {
            return None;
        }
        restrict_to_libraries(&mut sql, &mut binds, a);
        proof {
            assert(views(binds@) =~= views(a@));
        }
    }
    sql.append(" ORDER BY lower(a.ROLE), a.ROLE");
    Some(AuthorsQuery { sql, binds })
}

pub open spec fn entry_views(v: Seq<AuthorEntry>) -> Seq<(Seq<char>, Seq<char>)> {
    v.map_values(|e: AuthorEntry| (e.name@, e.role@))
}

/// The (name, role) pairs, each kept where it first occurs.
pub open spec fn first_entries(s: Seq<(Seq<char>, Seq<char>)>) -> Seq<(Seq<char>, Seq<char>)>
    decreases s.len(),
{
    if s.len() == 0 {
        Seq::empty()
    } else {
        let rest = first_entries(s.drop_last());
        if rest.contains(s.last()) {
            rest
        } else {
            rest.push(s.last())
        }
    }
}

/// The authors that the query returned, each (name, role) pair once, where it first occurs.
pub fn distinct_author_entries(rows: &Vec<AuthorEntry>) -> (r: Vec<AuthorEntry>)
    ensures
        entry_views(r@) == first_entries(entry_views(rows@)),
{
    let ghost rv = entry_views(rows@);
    let mut out: Vec<AuthorEntry> = Vec::new();
    let mut i: usize = 0;
    proof {
        assert(entry_views(out@) =~= first_entries(rv.take(0)));
    }
    while i < rows.len()
        invariant
            i <= rows@.len(),
            rv == entry_views(rows@),
            entry_views(out@) == first_entries(rv.take(i as int)),
        decreases rows@.len() - i,
    {
        proof {
            assert(rv.take(i + 1).drop_last() =~= rv.take(i as int));
            assert(rv.take(i + 1).last() == rv[i as int]);
        }
        let mut seen = false;
        let mut k: usize = 0;
        while k < out.len()
            invariant
                k <= out@.len(),
                !seen ==> forall|j: int| 0 <= j < k ==> #[trigger] entry_views(out@)[j] != rv[i as int],
                seen ==> entry_views(out@).contains(rv[i as int]),
                i < rows@.len(),
                rv == entry_views(rows@),
            decreases out@.len() - k,
        {
            if out[k].name == rows[i].name && out[k].role == rows[i].role {
                seen = true;
                proof {
                    assert(entry_views(out@)[k as int] == rv[i as int]);
                }
            }
            k += 1;
        }
        if !seen {
            let ghost before = entry_views(out@);
            out.push(AuthorEntry { name: rows[i].name.clone(), role: rows[i].role.clone() });
            proof {
                assert(entry_views(out@) =~= before.push(rv[i as int]));
            }
        }
        i += 1;
    }
    proof {
        assert(rv.take(rows@.len() as int) =~= rv);
    }
    out
}


/// The canonical decomposition (Unicode normalization form D) of a string, as
/// `unicode-normalization` computes it.
pub uninterp spec fn nfd_form(s: Seq<char>) -> Seq<char>;

/// Whether a character is a combining mark (general category Mark), as
/// `unicode-normalization` tables it.
pub uninterp spec fn is_mark(c: char) -> bool;

/// The lower-case mapping of a character, as `char::to_lowercase` gives it.
pub uninterp spec fn char_lowercase(c: char) -> Seq<char>;

/// `UnicodeNormalization::nfd` of `unicode-normalization`, collected: the string's
/// canonical decomposition, which depends on the string alone.
#[verifier::external_body]
fn nfd_chars(value: &str) -> (r: Vec<char>)
    ensures
        r@ == nfd_form(value@),
{
    value.nfd().collect()
}

/// `unicode_normalization::char::is_combining_mark`: a table lookup on the character alone.
#[verifier::external_body]
fn combining_mark(c: char) -> (r: bool)
    ensures
        r == is_mark(c),
{
    unicode_normalization::char::is_combining_mark(c)
}

/// `char::to_lowercase`, collected: the character's lower-case mapping, which depends on
/// the character alone.
#[verifier::external_body]
fn lowercase_chars(c: char) -> (r: Vec<char>)
    ensures
        r@ == char_lowercase(c),
{
    c.to_lowercase().collect()
}

/// The characters that are not combining marks, each lower-cased.
pub open spec fn key_chars(s: Seq<char>) -> Seq<char>
    decreases s.len(),
{
    if s.len() == 0 {
        Seq::empty()
    } else {
        let rest = key_chars(s.drop_last());
        if is_mark(s.last()) {
            rest
        } else {
            rest + char_lowercase(s.last())
        }
    }
}

/// The form in which author names are searched: decomposed, without combining marks
/// (so accents do not count), lower-cased.
pub open spec fn search_key(value: Seq<char>) -> Seq<char> {
    key_chars(nfd_form(value))
}

/// Computes [`search_key`].
pub fn author_search_key(value: &str) -> (r: String)
    ensures
        r@ == search_key(value@),
{
    let decomposed = nfd_chars(value);
    let mut out: Vec<char> = Vec::new();
    let mut i: usize = 0;
    while i < decomposed.len()
        invariant
            i <= decomposed@.len(),
            decomposed@ == nfd_form(value@),
            out@ == key_chars(decomposed@.take(i as int)),
        decreases decomposed@.len() - i,
    {
        proof {
            assert(decomposed@.take(i + 1).drop_last() =~= decomposed@.take(i as int));
            assert(decomposed@.take(i + 1).last() == decomposed@[i as int]);
        }
        let c = decomposed[i];
        if !combining_mark(c) {
            let lowered = lowercase_chars(c);
            let ghost before = out@;
            let mut k: usize = 0;
            while k < lowered.len()
                invariant
                    k <= lowered@.len(),
                    out@ == before + lowered@.take(k as int),
                decreases lowered@.len() - k,
            {
                out.push(lowered[k]);
                k += 1;
                proof {
                    assert(out@ =~= before + lowered@.take(k as int));
                }
            }
            proof {
                assert(lowered@.take(lowered@.len() as int) =~= lowered@);
            }
        }
        i += 1;
    }
    proof {
        assert(decomposed@.take(decomposed@.len() as int) =~= decomposed@);
    }
    string_from_chars(out.as_slice())
}

/// The names that match a search: all of them for a search whose key is empty, else those
/// whose key holds the search's key.
pub open spec fn matching_names(names: Seq<Seq<char>>, key: Seq<char>) -> Seq<Seq<char>>
    decreases names.len(),
{
    if names.len() == 0 {
        Seq::empty()
    } else {
        let rest = matching_names(names.drop_last(), key);
        if key.len() == 0 || contains_run(search_key(names.last()), key) {
            rest.push(names.last())
        } else {
            rest
        }
    }
}

/// The author names (in query order) that match a search, accents and case aside.
pub fn filter_author_names(names: &Vec<String>, search: &str) -> (r: Vec<String>)
    ensures
        views(r@) == matching_names(views(names@), search_key(search@)),
{
    let key_string = author_search_key(search);
    let key = chars_of(key_string.as_str());
    let ghost nv = views(names@);
    let mut out: Vec<String> = Vec::new();
    let mut i: usize = 0;
    while i < names.len()
        invariant
            i <= names@.len(),
            nv == views(names@),
            key@ == search_key(search@),
            views(out@) == matching_names(nv.take(i as int), key@),
        decreases names@.len() - i,
    {
        proof {
            assert(nv.take(i + 1).drop_last() =~= nv.take(i as int));
            assert(nv.take(i + 1).last() == names@[i as int]@);
        }
        let keep = if key.len() == 0 {
            true
        } else {
            let name_key = author_search_key(names[i].as_str());
            let name_chars = chars_of(name_key.as_str());
            chars_contain(name_chars.as_slice(), key.as_slice())
        };
        if keep {
            let ghost before = views(out@);
            out.push(names[i].clone());
            proof {
                assert(views(out@) =~= before.push(names@[i as int]@));
            }
        }
        i += 1;
    }
    proof {
        assert(nv.take(names@.len() as int) =~= nv);
    }
    out
}


/// A name's search key contains itself as a run.
proof fn lemma_run_of_itself(s: Seq<char>)
    ensures
        contains_run(s, s),
{
    let i: int = 0;
    assert(s.subrange(i, i + s.len()) =~= s);
}

proof fn lemma_matching_names_members(names: Seq<Seq<char>>, key: Seq<char>)
    ensures
        forall|x: Seq<char>| #[trigger] matching_names(names, key).contains(x)
            <==> (names.contains(x) && (key.len() == 0 || contains_run(search_key(x), key))),
    decreases names.len(),
{
    if names.len() > 0 {
        let init = names.drop_last();
        lemma_matching_names_members(init, key);
        assert forall|x: Seq<char>| #[trigger] matching_names(names, key).contains(x)
            <==> (names.contains(x) && (key.len() == 0 || contains_run(search_key(x), key))) by {
            let rest = matching_names(init, key);
            if names.contains(x) {
                let i = choose|i: int| 0 <= i < names.len() && names[i] == x;
                if i < names.len() - 1 {
                    assert(init[i] == x);
                    assert(init.contains(x));
                }
            }
            if init.contains(x) {
                let i = choose|i: int| 0 <= i < init.len() && init[i] == x;
                assert(names[i] == x);
            }
            if key.len() == 0 || contains_run(search_key(names.last()), key) {
                assert(matching_names(names, key) == rest.push(names.last()));
                if rest.contains(x) {
                    let i = choose|i: int| 0 <= i < rest.len() && rest[i] == x;
                    assert(rest.push(names.last())[i] == x);
                }
                if x == names.last() {
                    assert(rest.push(names.last())[rest.len() as int] == x);
                    assert(names[names.len() - 1] == x);
                }
                if rest.push(names.last()).contains(x) {
                    let i = choose|i: int| 0 <= i < rest.len() + 1 && rest.push(names.last())[i] == x;
                    if i < rest.len() {
                        assert(rest[i] == x);
                    }
                }
            } else {
                if x == names.last() {
                    assert(names[names.len() - 1] == x);
                }
            }
        }
    }
}

proof fn lemma_matching_names_filter(names: Seq<Seq<char>>, key: Seq<char>)
    ensures
        matching_names(names, key) == names.filter(|x: Seq<char>| key.len() == 0 || contains_run(search_key(x), key)),
    decreases names.len(),
{
    reveal(Seq::filter);
    if names.len() > 0 {
        lemma_matching_names_filter(names.drop_last(), key);
    }
}

/// The author filter keeps exactly the names whose search key (decomposed, without combining
/// marks, lower-cased) contains the search's key as a contiguous run, and every name when
/// that key is empty; in particular a name searched by its own spelling, or by any spelling
/// with the same key, is always found. The names kept stay in their order, each as often as
/// it was given.
pub proof fn law_author_filter_finds_matching_names(names: Seq<Seq<char>>, search: Seq<char>)
    ensures
        forall|x: Seq<char>| #[trigger] matching_names(names, search_key(search)).contains(x)
            <==> (names.contains(x) && (search_key(search).len() == 0
                || contains_run(search_key(x), search_key(search)))),
        forall|i: int| 0 <= i < names.len() && search_key(#[trigger] names[i]) == search_key(search)
            ==> matching_names(names, search_key(search)).contains(names[i]),
        matching_names(names, search_key(search)) == names.filter(|x: Seq<char>|
            search_key(search).len() == 0 || contains_run(search_key(x), search_key(search))),
{
    lemma_matching_names_members(names, search_key(search));
    lemma_matching_names_filter(names, search_key(search));
    assert forall|i: int| 0 <= i < names.len() && search_key(#[trigger] names[i]) == search_key(search)
        implies matching_names(names, search_key(search)).contains(names[i]) by {
        lemma_run_of_itself(search_key(search));
        assert(names.contains(names[i]));
    }
}

} // verus!

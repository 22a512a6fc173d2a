//! The query that lists the tags of the books in a scope, and the list it gives.
use vstd::prelude::*;
use vstd::string::StringExecFns;
use crate::metadata_support::{dedupe_strings_preserve_order, first_occurrences};
use crate::ordering::views;

verus! {

/// Whose book tags are listed.
#[derive(Clone, Debug)]
pub enum BookTagsScope {
    All,
    Series(String),
    Libraries(Vec<String>),
    ReadList(String),
}

/// A query and the values bound to its `?` placeholders, in order.
#[derive(Clone, Debug)]
pub struct BookTagsQuery {
    pub sql: String,
    pub binds: Vec<String>,
}

/// `n` placeholders separated by commas.
pub open spec fn placeholders(n: nat) -> Seq<char>
    decreases n,
{
    if n == 0 {
        Seq::empty()
    } else if n == 1 {
        seq!['?']
    } else {
        placeholders((n - 1) as nat) + seq![',', '?']
    }
}

pub open spec fn select_part(scope: BookTagsScope) -> Seq<char> {
    match scope {
        BookTagsScope::All => "SELECT bt.TAG FROM BOOK_METADATA_TAG bt JOIN BOOK b ON b.ID = bt.BOOK_ID"@,
        BookTagsScope::Series(_) => "SELECT bt.TAG FROM BOOK_METADATA_TAG bt JOIN BOOK b ON b.ID = bt.BOOK_ID WHERE b.SERIES_ID = ?"@,
        BookTagsScope::Libraries(ids) => "SELECT bt.TAG FROM BOOK_METADATA_TAG bt JOIN BOOK b ON b.ID = bt.BOOK_ID WHERE b.LIBRARY_ID IN ("@
            + placeholders(ids@.len()) + ")"@,
        BookTagsScope::ReadList(_) => "SELECT bt.TAG FROM BOOK_METADATA_TAG bt JOIN BOOK b ON b.ID = bt.BOOK_ID JOIN READLIST_BOOK rb ON rb.BOOK_ID = b.ID WHERE rb.READLIST_ID = ?"@,
    }
}

pub open spec fn scope_binds(scope: BookTagsScope) -> Seq<Seq<char>> {
    match scope {
        BookTagsScope::All => Seq::empty(),
        BookTagsScope::Series(id) => seq![id@],
        BookTagsScope::Libraries(ids) => views(ids@),
        BookTagsScope::ReadList(id) => seq![id@],
    }
}

/// The library restriction: ` WHERE` for the whole catalogue, ` AND` otherwise.
pub open spec fn library_filter(scope: BookTagsScope, n: nat) -> Seq<char> {
    if scope is All {
        " WHERE b.LIBRARY_ID IN ("@ + placeholders(n) + ")"@
    } else {
        " AND b.LIBRARY_ID IN ("@ + placeholders(n) + ")"@
    }
}

/// The tag query for a scope, restricted to the authorized libraries when some are named;
/// none without a scope or with an empty authorization (nothing can be listed then). Tags
/// come ordered by lower-cased tag, tag, then book.
pub open spec fn book_tags_query_spec(scope: Option<BookTagsScope>, authorized: Option<Seq<Seq<char>>>) -> Option<(Seq<char>, Seq<Seq<char>>)> {
    match scope {
        None => None,
        Some(sc) => match authorized {
            Some(a) => if a.len() == 0 {
                None
            } else {
                Some((select_part(sc) + library_filter(sc, a.len()) + " ORDER BY lower(bt.TAG), bt.TAG, b.ID"@, scope_binds(sc) + a))
            },
            None => Some((select_part(sc) + " ORDER BY lower(bt.TAG), bt.TAG, b.ID"@, scope_binds(sc))),
        },
    }
}

pub(crate) fn append_placeholders(sql: &mut String, n: usize)
    ensures
        final(sql)@ == old(sql)@ + placeholders(n as nat),
{
    let ghost start = sql@;
    let mut i: usize = 0;
    proof {
        assert(start + placeholders(0) =~= start);
    }
    while i < n
        invariant
            i <= n,
            sql@ == start + placeholders(i as nat),
        decreases n - i,
    {
        if i == 0 {
            sql.append("?");
            proof {
                reveal_strlit("?");
                assert(sql@ =~= start + placeholders(1));
            }
        } else {
            sql.append(",?");
            proof {
                reveal_strlit(",?");
                assert(sql@ =~= start + placeholders((i + 1) as nat));
            }
        }
        i += 1;
    }
}

pub(crate) fn append_strings(out: &mut Vec<String>, items: &Vec<String>)
    ensures
        views(final(out)@) == views(old(out)@) + views(items@),
{
    let ghost start = views(out@);
    let mut i: usize = 0;
    while i < items.len()
        invariant
            i <= items@.len(),
            views(out@) == start + views(items@).take(i as int),
        decreases items@.len() - i,
    {
        let ghost before = views(out@);
        let item = items[i].clone();
        out.push(item);
        proof {
            assert(views(out@) =~= before.push(items@[i as int]@));
            assert(views(out@) =~= start + views(items@).take(i + 1));
        }
        i += 1;
    }
    proof {
        assert(views(items@).take(items@.len() as int) =~= views(items@));
    }
}

/// Builds the tag query (see [`book_tags_query_spec`]).
#[verifier::rlimit(40)]
pub fn book_tags_query(scope: Option<&BookTagsScope>, authorized: Option<&Vec<String>>) -> (r: Option<BookTagsQuery>)
    ensures
        match r {
            Some(q) => book_tags_query_spec(match scope {
                Some(s) => Some(*s),
                None => None,
            }, match authorized {
                Some(a) => Some(views(a@)),
                None => None,
            }) == Some((q.sql@, views(q.binds@))),
            None => book_tags_query_spec(match scope {
                Some(s) => Some(*s),
                None => None,
            }, match authorized {
                Some(a) => Some(views(a@)),
                None => None,
            }) is None,
        },
{
    let sc = match scope {
        Some(s) => s,
        None => return None,
    };
    if let Some(a) = authorized {
        if a.len() == 0 {
            return None;
        }
    }
    let mut sql = String::new();
    let mut binds: Vec<String> = Vec::new();
    match sc {
        BookTagsScope::All => {
            sql.append("SELECT bt.TAG FROM BOOK_METADATA_TAG bt JOIN BOOK b ON b.ID = bt.BOOK_ID");
        },
        BookTagsScope::Series(id) => {
            sql.append("SELECT bt.TAG FROM BOOK_METADATA_TAG bt JOIN BOOK b ON b.ID = bt.BOOK_ID WHERE b.SERIES_ID = ?");
            binds.push(id.clone());
        },
        BookTagsScope::Libraries(ids) => {
            sql.append("SELECT bt.TAG FROM BOOK_METADATA_TAG bt JOIN BOOK b ON b.ID = bt.BOOK_ID WHERE b.LIBRARY_ID IN (");
            append_placeholders(&mut sql, ids.len());
            sql.append(")");
            append_strings(&mut binds, ids);
        },
        BookTagsScope::ReadList(id) => {
            sql.append("SELECT bt.TAG FROM BOOK_METADATA_TAG bt JOIN BOOK b ON b.ID = bt.BOOK_ID JOIN READLIST_BOOK rb ON rb.BOOK_ID = b.ID WHERE rb.READLIST_ID = ?");
            binds.push(id.clone());
        },
    }
    proof {
        assert(sql@ =~= Seq::<char>::empty() + select_part(*sc));
        assert(views(binds@) =~= scope_binds(*sc));
    }
    let ghost head = sql@;
    let ghost scope_b = views(binds@);
    match authorized {
        Some(a) => {
            match sc {
                BookTagsScope::All => sql.append(" WHERE b.LIBRARY_ID IN ("),
                _ => sql.append(" AND b.LIBRARY_ID IN ("),
            }
            append_placeholders(&mut sql, a.len());
            sql.append(")");
            append_strings(&mut binds, a);
            proof {
                assert(sql@ =~= head + library_filter(*sc, a@.len()));
            }
        },
        None => {},
    }
    sql.append(" ORDER BY lower(bt.TAG), bt.TAG, b.ID");
    Some(BookTagsQuery { sql, binds })
}

/// The tags that the query returned, each kept at its first occurrence.
pub fn distinct_tags(rows: &Vec<String>) -> (r: Vec<String>)
    ensures
        views(r@) == first_occurrences(views(rows@)),
{
    dedupe_strings_preserve_order(rows)
}


/// Whose tags the referential tag listing covers.
#[derive(Clone, Debug)]
pub enum ReferentialTagsScope {
    All,
    Libraries(Vec<String>),
    Collections(Vec<String>),
    Series(Vec<String>),
    ReadLists(Vec<String>),
}

/// Which tags are listed: those of series, of books, or both.
#[derive(Clone, Copy, Debug, PartialEq, Eq, Structural)]
pub enum ReferentialTagsInclude {
    Series,
    Book,
    Both,
}

pub open spec fn referential_ids(scope: ReferentialTagsScope) -> Option<Seq<Seq<char>>> {
    match scope {
        ReferentialTagsScope::All => None,
        ReferentialTagsScope::Libraries(ids) => Some(views(ids@)),
        ReferentialTagsScope::Collections(ids) => Some(views(ids@)),
        ReferentialTagsScope::Series(ids) => Some(views(ids@)),
        ReferentialTagsScope::ReadLists(ids) => Some(views(ids@)),
    }
}

/// The start of one side of the listing: series tags or book tags.
pub open spec fn tag_base(series_tags: bool) -> Seq<char> {
    if series_tags {
        "SELECT st.TAG AS TAG FROM SERIES_METADATA_TAG st JOIN SERIES s ON s.ID = st.SERIES_ID"@
    } else {
        "SELECT bt.TAG AS TAG FROM BOOK_METADATA_TAG bt JOIN BOOK b ON b.ID = bt.BOOK_ID"@
    }
}

/// The joins a scope needs on one side.
pub open spec fn tag_join(scope: ReferentialTagsScope, series_tags: bool) -> Seq<char> {
    match scope {
        ReferentialTagsScope::Collections(_) => if series_tags {
            " JOIN COLLECTION_SERIES cs ON cs.SERIES_ID = s.ID"@
        } else {
            " JOIN COLLECTION_SERIES cs ON cs.SERIES_ID = b.SERIES_ID"@
        },
        ReferentialTagsScope::ReadLists(_) => if series_tags {
            " JOIN BOOK b ON b.SERIES_ID = s.ID JOIN READLIST_BOOK rb ON rb.BOOK_ID = b.ID"@
        } else {
            " JOIN READLIST_BOOK rb ON rb.BOOK_ID = b.ID"@
        },
        _ => Seq::empty(),
    }
}

/// The column a scope's ids are matched against on one side, with ` IN (`.
pub open spec fn tag_scope_column(scope: ReferentialTagsScope, series_tags: bool) -> Seq<char> {
    match scope {
        ReferentialTagsScope::All => Seq::empty(),
        ReferentialTagsScope::Libraries(_) => if series_tags { "s.LIBRARY_ID IN ("@ } else { "b.LIBRARY_ID IN ("@ },
        ReferentialTagsScope::Collections(_) => "cs.COLLECTION_ID IN ("@,
        ReferentialTagsScope::Series(_) => if series_tags { "s.ID IN ("@ } else { "b.SERIES_ID IN ("@ },
        ReferentialTagsScope::ReadLists(_) => "rb.READLIST_ID IN ("@,
    }
}

/// The scope's condition on one side, and its bound values.
pub open spec fn tag_scope_clause(scope: ReferentialTagsScope, series_tags: bool) -> (Seq<char>, Seq<Seq<char>>) {
    match referential_ids(scope) {
        Some(ids) => (" WHERE "@ + tag_scope_column(scope, series_tags) + placeholders(ids.len()) + ")"@, ids),
        None => (Seq::empty(), Seq::empty()),
    }
}

/// The library restriction on one side, and its bound values.
pub open spec fn tag_auth_clause(scope: ReferentialTagsScope, authorized: Option<Seq<Seq<char>>>, series_tags: bool) -> (Seq<char>, Seq<Seq<char>>) {
    match authorized {
        Some(a) => ((if scope is All { " WHERE "@ } else { " AND "@ })
            + (if series_tags { "s.LIBRARY_ID IN ("@ } else { "b.LIBRARY_ID IN ("@ }) + placeholders(a.len()) + ")"@, a),
        None => (Seq::empty(), Seq::empty()),
    }
}

/// One side of the listing and its bound values.
pub open spec fn tag_side(scope: ReferentialTagsScope, authorized: Option<Seq<Seq<char>>>, series_tags: bool) -> (Seq<char>, Seq<Seq<char>>) {
    (tag_base(series_tags) + tag_join(scope, series_tags) + tag_scope_clause(scope, series_tags).0 + tag_auth_clause(scope, authorized, series_tags).0,
        tag_scope_clause(scope, series_tags).1 + tag_auth_clause(scope, authorized, series_tags).1)
}

/// The referential tag listing: the distinct tags of the included sides, ordered by
/// lower-cased tag; none when the scope or the authorization names no id.
pub open spec fn referential_tags_query_spec(scope: ReferentialTagsScope, sides: ReferentialTagsInclude, authorized: Option<Seq<Seq<char>>>) -> Option<(Seq<char>, Seq<Seq<char>>)> {
    if (authorized matches Some(a) && a.len() == 0) || (referential_ids(scope) matches Some(ids) && ids.len() == 0) {
        None
    } else {
        let series = tag_side(scope, authorized, true);
        let books = tag_side(scope, authorized, false);
        let body = match sides {
            ReferentialTagsInclude::Series => series,
            ReferentialTagsInclude::Book => books,
            ReferentialTagsInclude::Both => (series.0 + " UNION ALL "@ + books.0, series.1 + books.1),
        };
        Some(("SELECT DISTINCT TAG FROM ("@ + body.0 + ") ORDER BY lower(TAG), TAG"@, body.1))
    }
}

fn append_tag_head(sql: &mut String, scope: &ReferentialTagsScope, series_tags: bool)
    ensures
        final(sql)@ == old(sql)@ + tag_base(series_tags) + tag_join(*scope, series_tags),
{
    let ghost start = sql@;
    if series_tags {
        sql.append("SELECT st.TAG AS TAG FROM SERIES_METADATA_TAG st JOIN SERIES s ON s.ID = st.SERIES_ID");
    } else {
        sql.append("SELECT bt.TAG AS TAG FROM BOOK_METADATA_TAG bt JOIN BOOK b ON b.ID = bt.BOOK_ID");
    }
    let ghost based = sql@;
    match scope {
        ReferentialTagsScope::Collections(_) => if series_tags {
            sql.append(" JOIN COLLECTION_SERIES cs ON cs.SERIES_ID = s.ID");
        } else {
            sql.append(" JOIN COLLECTION_SERIES cs ON cs.SERIES_ID = b.SERIES_ID");
        },
        ReferentialTagsScope::ReadLists(_) => if series_tags {
            sql.append(" JOIN BOOK b ON b.SERIES_ID = s.ID JOIN READLIST_BOOK rb ON rb.BOOK_ID = b.ID");
        } else {
            sql.append(" JOIN READLIST_BOOK rb ON rb.BOOK_ID = b.ID");
        },
        _ => {
            proof {
                assert(sql@ =~= based + Seq::<char>::empty());
            }
        },
    }
}

fn append_scope_column(sql: &mut String, scope: &ReferentialTagsScope, series_tags: bool)
    requires
        !(*scope is All),
    ensures
        final(sql)@ == old(sql)@ + tag_scope_column(*scope, series_tags),
{
    match scope {
        ReferentialTagsScope::Libraries(_) => if series_tags {
            sql.append("s.LIBRARY_ID IN (");
        } else {
            sql.append("b.LIBRARY_ID IN (");
        },
        ReferentialTagsScope::Collections(_) => sql.append("cs.COLLECTION_ID IN ("),
        ReferentialTagsScope::Series(_) => if series_tags {
            sql.append("s.ID IN (");
        } else {
            sql.append("b.SERIES_ID IN (");
        },
        _ => sql.append("rb.READLIST_ID IN ("),
    }
}

fn append_scope_clause(sql: &mut String, binds: &mut Vec<String>, scope: &ReferentialTagsScope, series_tags: bool)
    ensures
        final(sql)@ == old(sql)@ + tag_scope_clause(*scope, series_tags).0,
        views(final(binds)@) == views(old(binds)@) + tag_scope_clause(*scope, series_tags).1,
{
    let ids: Option<&Vec<String>> = match scope {
        ReferentialTagsScope::All => None,
        ReferentialTagsScope::Libraries(ids) => Some(ids),
        ReferentialTagsScope::Collections(ids) => Some(ids),
        ReferentialTagsScope::Series(ids) => Some(ids),
        ReferentialTagsScope::ReadLists(ids) => Some(ids),
    };
    let ghost start = sql@;
    let ghost start_binds = views(binds@);
    match ids {
        Some(v) => {
            sql.append(" WHERE ");
            append_scope_column(sql, scope, series_tags);
            append_placeholders(sql, v.len());
            sql.append(")");
            append_strings(binds, v);
            proof {
                assert(sql@ =~= start + (" WHERE "@ + tag_scope_column(*scope, series_tags) + placeholders(v@.len()) + ")"@));
            }
        },
        None => {
            proof {
                assert(sql@ =~= start + Seq::<char>::empty());
                assert(views(binds@) =~= start_binds + Seq::<Seq<char>>::empty());
            }
        },
    }
}

fn append_auth_clause(sql: &mut String, binds: &mut Vec<String>, scope: &ReferentialTagsScope, authorized: Option<&Vec<String>>, series_tags: bool)
    ensures
        final(sql)@ == old(sql)@ + tag_auth_clause(*scope, match authorized {
            Some(a) => Some(views(a@)),
            None => None,
        }, series_tags).0,
        views(final(binds)@) == views(old(binds)@) + tag_auth_clause(*scope, match authorized {
            Some(a) => Some(views(a@)),
            None => None,
        }, series_tags).1,
{
    let ghost start = sql@;
    let ghost start_binds = views(binds@);
    match authorized {
        Some(a) => {
            match scope {
                ReferentialTagsScope::All => sql.append(" WHERE "),
                _ => sql.append(" AND "),
            }
            if series_tags {
                sql.append("s.LIBRARY_ID IN (");
            } else {
                sql.append("b.LIBRARY_ID IN (");
            }
            append_placeholders(sql, a.len());
            sql.append(")");
            append_strings(binds, a);
            proof {
                assert(sql@ =~= start + ((if *scope is All { " WHERE "@ } else { " AND "@ })
                    + (if series_tags { "s.LIBRARY_ID IN ("@ } else { "b.LIBRARY_ID IN ("@ }) + placeholders(a@.len()) + ")"@));
            }
        },
        None => {
            proof {
                assert(sql@ =~= start + Seq::<char>::empty());
                assert(views(binds@) =~= start_binds + Seq::<Seq<char>>::empty());
            }
        },
    }
}

fn append_tag_side(sql: &mut String, binds: &mut Vec<String>, scope: &ReferentialTagsScope, authorized: Option<&Vec<String>>, series_tags: bool)
    ensures
        final(sql)@ == old(sql)@ + tag_side(*scope, match authorized {
            Some(a) => Some(views(a@)),
            None => None,
        }, series_tags).0,
        views(final(binds)@) == views(old(binds)@) + tag_side(*scope, match authorized {
            Some(a) => Some(views(a@)),
            None => None,
        }, series_tags).1,
{
    let ghost start = sql@;
    let ghost start_binds = views(binds@);
    let ghost a = match authorized {
        Some(a) => Some(views(a@)),
        None => None,
    };
    append_tag_head(sql, scope, series_tags);
    append_scope_clause(sql, binds, scope, series_tags);
    append_auth_clause(sql, binds, scope, authorized, series_tags);
    proof {
        assert(sql@ =~= start + tag_side(*scope, a, series_tags).0);
        assert(views(binds@) =~= start_binds + tag_side(*scope, a, series_tags).1);
    }
}

/// Builds the referential tag listing (see [`referential_tags_query_spec`]).
#[verifier::rlimit(40)]
pub fn referential_tags_query(scope: &ReferentialTagsScope, sides: ReferentialTagsInclude, authorized: Option<&Vec<String>>) -> (r: Option<BookTagsQuery>)
    ensures
        match r {
            Some(q) => referential_tags_query_spec(*scope, sides, match authorized {
                Some(a) => Some(views(a@)),
                None => None,
            }) == Some((q.sql@, views(q.binds@))),
            None => referential_tags_query_spec(*scope, sides, match authorized {
                Some(a) => Some(views(a@)),
                None => None,
            }) is None,
        },
{
    if let Some(a) = authorized {
        if a.len() == 0 {
            return None;
        }
    }
    let empty_scope = match scope {
        ReferentialTagsScope::All => false,
        ReferentialTagsScope::Libraries(ids) => ids.len() == 0,
        ReferentialTagsScope::Collections(ids) => ids.len() == 0,
        ReferentialTagsScope::Series(ids) => ids.len() == 0,
        ReferentialTagsScope::ReadLists(ids) => ids.len() == 0,
    };
    if empty_scope {
        return None;
    }
    let mut sql = String::new();
    let mut binds: Vec<String> = Vec::new();
    sql.append("SELECT DISTINCT TAG FROM (");
    let ghost open_sql = sql@;
    proof {
        assert(views(binds@) =~= Seq::<Seq<char>>::empty());
    }
    if sides != ReferentialTagsInclude::Book {
        append_tag_side(&mut sql, &mut binds, scope, authorized, true);
    }
    if sides == ReferentialTagsInclude::Both {
        sql.append(" UNION ALL ");
    }
    if sides != ReferentialTagsInclude::Series {
        append_tag_side(&mut sql, &mut binds, scope, authorized, false);
    }
    let ghost body = sql@;
    sql.append(") ORDER BY lower(TAG), TAG");
    proof {
        let a = match authorized {
            Some(a) => Some(views(a@)),
            None => None,
        };
        let series = tag_side(*scope, a, true);
        let books = tag_side(*scope, a, false);
        match sides {
            ReferentialTagsInclude::Series => {
                assert(body =~= open_sql + series.0);
                assert(views(binds@) =~= series.1);
            },
            ReferentialTagsInclude::Book => {
                assert(body =~= open_sql + books.0);
                assert(views(binds@) =~= books.1);
            },
            ReferentialTagsInclude::Both => {
                assert(body =~= open_sql + (series.0 + " UNION ALL "@ + books.0));
                assert(views(binds@) =~= series.1 + books.1);
            },
        }
    }
    Some(BookTagsQuery { sql, binds })
}


pub open spec fn collection_series_head() -> Seq<char> {
    "SELECT TAG\n              FROM (\n                  SELECT st.TAG AS TAG\n                  FROM SERIES_METADATA_TAG st\n                  JOIN COLLECTION_SERIES cs ON cs.SERIES_ID = st.SERIES_ID\n                  JOIN SERIES s ON s.ID = st.SERIES_ID\n                  WHERE cs.COLLECTION_ID IN ("@
}

pub open spec fn collection_series_libraries() -> Seq<char> {
    " AND s.LIBRARY_ID IN ("@
}

pub open spec fn collection_books_head() -> Seq<char> {
    " UNION\n              SELECT bt.TAG AS TAG\n              FROM BOOK_METADATA_TAG bt\n              JOIN BOOK b ON b.ID = bt.BOOK_ID\n              JOIN COLLECTION_SERIES cs ON cs.SERIES_ID = b.SERIES_ID\n              WHERE cs.COLLECTION_ID IN ("@
}

pub open spec fn collection_books_libraries() -> Seq<char> {
    " AND b.LIBRARY_ID IN ("@
}

pub open spec fn collection_tail() -> Seq<char> {
    " ) ORDER BY lower(TAG), TAG"@
}

pub open spec fn library_series_head() -> Seq<char> {
    "SELECT TAG FROM (\n             SELECT st.TAG AS TAG\n             FROM SERIES_METADATA_TAG st\n             JOIN SERIES s ON s.ID = st.SERIES_ID\n             WHERE s.LIBRARY_ID IN ("@
}

pub open spec fn library_books_head() -> Seq<char> {
    ")\n             UNION\n             SELECT bt.TAG AS TAG\n             FROM BOOK_METADATA_TAG bt\n             JOIN BOOK b ON b.ID = bt.BOOK_ID\n             WHERE b.LIBRARY_ID IN ("@
}

pub open spec fn all_tags() -> Seq<char> {
    "SELECT TAG\n             FROM (\n                 SELECT st.TAG AS TAG\n                 FROM SERIES_METADATA_TAG st\n                 JOIN SERIES s ON s.ID = st.SERIES_ID\n                 UNION\n                 SELECT bt.TAG AS TAG\n                 FROM BOOK_METADATA_TAG bt\n                 JOIN BOOK b ON b.ID = bt.BOOK_ID )\n             ORDER BY lower(TAG), TAG"@
}

/// The tag listing of the tag facet: tags of series and books, restricted to the given
/// collections and libraries when those are named, ordered by lower-cased tag; none when an
/// empty list of ids is named (nothing can be listed).
pub open spec fn persisted_tags_query_spec(libraries: Option<Seq<Seq<char>>>, collections: Option<Seq<Seq<char>>>) -> Option<(Seq<char>, Seq<Seq<char>>)> {
    if libraries matches Some(l) && l.len() == 0 {
        None
    } else {
        match collections {
            Some(c) => if c.len() == 0 {
                None
            } else {
                let series_libs = match libraries {
                    Some(l) => collection_series_libraries() + placeholders(l.len()) + ")"@,
                    None => Seq::empty(),
                };
                let book_libs = match libraries {
                    Some(l) => collection_books_libraries() + placeholders(l.len()) + ")"@,
                    None => Seq::empty(),
                };
                let lib_binds = match libraries {
                    Some(l) => l,
                    None => Seq::empty(),
                };
                Some((collection_series_head() + placeholders(c.len()) + ")"@ + series_libs + collection_books_head()
                    + placeholders(c.len()) + ")"@ + book_libs + collection_tail(), c + lib_binds + c + lib_binds))
            },
            None => match libraries {
                Some(l) => Some((library_series_head() + placeholders(l.len()) + library_books_head() + placeholders(l.len())
                    + ") ) ORDER BY lower(TAG), TAG"@, l + l)),
                None => Some((all_tags(), Seq::empty())),
            },
        }
    }
}

fn append_id_list(sql: &mut String, binds: &mut Vec<String>, ids: &Vec<String>)
    ensures
        final(sql)@ == old(sql)@ + placeholders(ids@.len()),
        views(final(binds)@) == views(old(binds)@) + views(ids@),
{
    append_placeholders(sql, ids.len());
    append_strings(binds, ids);
}

/// Builds the tag facet listing (see [`persisted_tags_query_spec`]).
#[verifier::rlimit(40)]
pub fn persisted_tags_query(library_ids: Option<&Vec<String>>, collection_ids: Option<&Vec<String>>) -> (r: Option<BookTagsQuery>)
    ensures
        match r {
            Some(q) => persisted_tags_query_spec(match library_ids {
                Some(a) => Some(views(a@)),
                None => None,
            }, match collection_ids {
                Some(a) => Some(views(a@)),
                None => None,
            }) == Some((q.sql@, views(q.binds@))),
            None => persisted_tags_query_spec(match library_ids {
                Some(a) => Some(views(a@)),
                None => None,
            }, match collection_ids {
                Some(a) => Some(views(a@)),
                None => None,
            }) is None,
        },
{
    if let Some(l) = library_ids {
        if l.len() == 0 {
            return None;
        }
    }
    let mut sql = String::new();
    let mut binds: Vec<String> = Vec::new();
    proof {
        assert(views(binds@) =~= Seq::<Seq<char>>::empty());
    }
    match collection_ids {
        Some(c) => {
            if c.len() == 0 {
                return None;
            }
            sql.append("SELECT TAG\n              FROM (\n                  SELECT st.TAG AS TAG\n                  FROM SERIES_METADATA_TAG st\n                  JOIN COLLECTION_SERIES cs ON cs.SERIES_ID = st.SERIES_ID\n                  JOIN SERIES s ON s.ID = st.SERIES_ID\n                  WHERE cs.COLLECTION_ID IN (");
            append_id_list(&mut sql, &mut binds, c);
            sql.append(")");
            let ghost after_series_ids = sql@;
            let ghost b1 = views(binds@);
            if let Some(l) = library_ids {
                sql.append(" AND s.LIBRARY_ID IN (");
                append_id_list(&mut sql, &mut binds, l);
                sql.append(")");
            }
            let ghost after_series = sql@;
            let ghost b2 = views(binds@);
            sql.append(" UNION\n              SELECT bt.TAG AS TAG\n              FROM BOOK_METADATA_TAG bt\n              JOIN BOOK b ON b.ID = bt.BOOK_ID\n              JOIN COLLECTION_SERIES cs ON cs.SERIES_ID = b.SERIES_ID\n              WHERE cs.COLLECTION_ID IN (");
            append_id_list(&mut sql, &mut binds, c);
            sql.append(")");
            let ghost after_book_ids = sql@;
            let ghost b3 = views(binds@);
            if let Some(l) = library_ids {
                sql.append(" AND b.LIBRARY_ID IN (");
                append_id_list(&mut sql, &mut binds, l);
                sql.append(")");
            }
            let ghost after_books = sql@;
            let ghost b4 = views(binds@);
            sql.append(" ) ORDER BY lower(TAG), TAG");
            proof {
                reveal_strlit("SELECT TAG\n              FROM (\n                  SELECT st.TAG AS TAG\n                  FROM SERIES_METADATA_TAG st\n                  JOIN COLLECTION_SERIES cs ON cs.SERIES_ID = st.SERIES_ID\n                  JOIN SERIES s ON s.ID = st.SERIES_ID\n                  WHERE cs.COLLECTION_ID IN (");
                reveal_strlit(" AND s.LIBRARY_ID IN (");
                reveal_strlit(" UNION\n              SELECT bt.TAG AS TAG\n              FROM BOOK_METADATA_TAG bt\n              JOIN BOOK b ON b.ID = bt.BOOK_ID\n              JOIN COLLECTION_SERIES cs ON cs.SERIES_ID = b.SERIES_ID\n              WHERE cs.COLLECTION_ID IN (");
                reveal_strlit(" AND b.LIBRARY_ID IN (");
                reveal_strlit(" ) ORDER BY lower(TAG), TAG");
                let lv = match library_ids {
                    Some(a) => Some(views(a@)),
                    None => None,
                };
                let series_libs = match lv {
                    Some(l) => collection_series_libraries() + placeholders(l.len()) + ")"@,
                    None => Seq::empty(),
                };
                let book_libs = match lv {
                    Some(l) => collection_books_libraries() + placeholders(l.len()) + ")"@,
                    None => Seq::empty(),
                };
                let lib_binds = match lv {
                    Some(l) => l,
                    None => Seq::empty(),
                };
                assert(after_series_ids =~= collection_series_head() + placeholders(c@.len()) + ")"@);
                assert(after_series =~= after_series_ids + series_libs);
                assert(after_book_ids =~= after_series + collection_books_head() + placeholders(c@.len()) + ")"@);
                assert(after_books =~= after_book_ids + book_libs);
                assert(b2 =~= views(c@) + lib_binds);
                assert(b4 =~= views(c@) + lib_binds + views(c@) + lib_binds);
            }
        },
        None => {
            match library_ids {
                Some(l) => {
                    sql.append("SELECT TAG FROM (\n             SELECT st.TAG AS TAG\n             FROM SERIES_METADATA_TAG st\n             JOIN SERIES s ON s.ID = st.SERIES_ID\n             WHERE s.LIBRARY_ID IN (");
                    append_id_list(&mut sql, &mut binds, l);
                    sql.append(")\n             UNION\n             SELECT bt.TAG AS TAG\n             FROM BOOK_METADATA_TAG bt\n             JOIN BOOK b ON b.ID = bt.BOOK_ID\n             WHERE b.LIBRARY_ID IN (");
                    append_id_list(&mut sql, &mut binds, l);
                    sql.append(") ) ORDER BY lower(TAG), TAG");
                    proof {
                        reveal_strlit("SELECT TAG FROM (\n             SELECT st.TAG AS TAG\n             FROM SERIES_METADATA_TAG st\n             JOIN SERIES s ON s.ID = st.SERIES_ID\n             WHERE s.LIBRARY_ID IN (");
                        reveal_strlit(")\n             UNION\n             SELECT bt.TAG AS TAG\n             FROM BOOK_METADATA_TAG bt\n             JOIN BOOK b ON b.ID = bt.BOOK_ID\n             WHERE b.LIBRARY_ID IN (");
                    }
                },
                None => {
                    sql.append("SELECT TAG\n             FROM (\n                 SELECT st.TAG AS TAG\n                 FROM SERIES_METADATA_TAG st\n                 JOIN SERIES s ON s.ID = st.SERIES_ID\n                 UNION\n                 SELECT bt.TAG AS TAG\n                 FROM BOOK_METADATA_TAG bt\n                 JOIN BOOK b ON b.ID = bt.BOOK_ID )\n             ORDER BY lower(TAG), TAG");
                    proof {
                        reveal_strlit("SELECT TAG\n             FROM (\n                 SELECT st.TAG AS TAG\n                 FROM SERIES_METADATA_TAG st\n                 JOIN SERIES s ON s.ID = st.SERIES_ID\n                 UNION\n                 SELECT bt.TAG AS TAG\n                 FROM BOOK_METADATA_TAG bt\n                 JOIN BOOK b ON b.ID = bt.BOOK_ID )\n             ORDER BY lower(TAG), TAG");
                    }
                },
            }
        },
    }
    Some(BookTagsQuery { sql, binds })
}

} // verus!

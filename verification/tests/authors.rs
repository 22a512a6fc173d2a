use komga_infra::authors::{
    author_names_query, author_roles_query, author_search_key, authors_query, distinct_author_entries,
    filter_author_names, AuthorEntry, AuthorsScope,
};

fn strings(v: &[&str]) -> Vec<String> {
    v.iter().map(|s| s.to_string()).collect()
}

const AUTHORS_SELECT: &str =
    "SELECT a.NAME, a.ROLE\n         FROM BOOK_METADATA_AUTHOR a\n         JOIN BOOK b ON b.ID = a.BOOK_ID";
const AUTHORS_ORDER: &str = " ORDER BY lower(a.NAME), lower(a.ROLE), a.NAME, a.ROLE, b.ID";

#[test]
fn authors_query_for_every_scope() {
    let q = authors_query(&AuthorsScope::All, None).expect("query");
    assert_eq!(q.sql, format!("{AUTHORS_SELECT}{AUTHORS_ORDER}"));
    assert!(q.binds.is_empty());

    let q = authors_query(&AuthorsScope::Libraries(strings(&["l1", "l2"])), None).expect("query");
    assert_eq!(q.sql, format!("{AUTHORS_SELECT} WHERE b.LIBRARY_ID IN (?,?){AUTHORS_ORDER}"));
    assert_eq!(q.binds, strings(&["l1", "l2"]));

    let q = authors_query(&AuthorsScope::Collections(strings(&["c1"])), Some(&strings(&["l9"]))).expect("query");
    assert_eq!(
        q.sql,
        format!(
            "{AUTHORS_SELECT} JOIN COLLECTION_SERIES cs ON cs.SERIES_ID = b.SERIES_ID WHERE cs.COLLECTION_ID IN (?) AND b.LIBRARY_ID IN (?){AUTHORS_ORDER}"
        )
    );
    assert_eq!(q.binds, strings(&["c1", "l9"]));

    let q = authors_query(&AuthorsScope::Series(strings(&["s1"])), None).expect("query");
    assert_eq!(q.sql, format!("{AUTHORS_SELECT} WHERE b.SERIES_ID IN (?){AUTHORS_ORDER}"));

    let q = authors_query(&AuthorsScope::ReadLists(strings(&["r1", "r2"])), None).expect("query");
    assert_eq!(
        q.sql,
        format!("{AUTHORS_SELECT} JOIN READLIST_BOOK rb ON rb.BOOK_ID = b.ID WHERE rb.READLIST_ID IN (?,?){AUTHORS_ORDER}")
    );

    let q = authors_query(&AuthorsScope::All, Some(&strings(&["l1"]))).expect("query");
    assert_eq!(q.sql, format!("{AUTHORS_SELECT} WHERE b.LIBRARY_ID IN (?){AUTHORS_ORDER}"));
    assert_eq!(q.binds, strings(&["l1"]));
}

#[test]
fn empty_scopes_and_authorizations_list_nothing() {
    assert!(authors_query(&AuthorsScope::Libraries(Vec::new()), None).is_none());
    assert!(authors_query(&AuthorsScope::ReadLists(Vec::new()), Some(&strings(&["l1"]))).is_none());
    assert!(authors_query(&AuthorsScope::All, Some(&Vec::new())).is_none());
    assert!(author_names_query(Some(&Vec::new())).is_none());
    assert!(author_roles_query(Some(&Vec::new())).is_none());
}

#[test]
fn author_name_and_role_queries() {
    let q = author_names_query(None).expect("query");
    assert_eq!(
        q.sql,
        "SELECT DISTINCT a.NAME\n         FROM BOOK_METADATA_AUTHOR a\n         JOIN BOOK b ON b.ID = a.BOOK_ID ORDER BY lower(a.NAME), a.NAME"
    );
    let q = author_roles_query(Some(&strings(&["l1", "l2"]))).expect("query");
    assert_eq!(
        q.sql,
        "SELECT DISTINCT a.ROLE\n         FROM BOOK_METADATA_AUTHOR a\n         JOIN BOOK b ON b.ID = a.BOOK_ID WHERE b.LIBRARY_ID IN (?,?) ORDER BY lower(a.ROLE), a.ROLE"
    );
    assert_eq!(q.binds, strings(&["l1", "l2"]));
}

#[test]
fn author_rows_keep_each_name_and_role_once() {
    let entry = |name: &str, role: &str| AuthorEntry { name: name.to_string(), role: role.to_string() };
    let rows = vec![entry("Ann", "writer"), entry("Ann", "penciller"), entry("Ann", "writer"), entry("Bob", "writer")];
    let out: Vec<(String, String)> = distinct_author_entries(&rows).into_iter().map(|e| (e.name, e.role)).collect();
    assert_eq!(
        out,
        vec![
            ("Ann".to_string(), "writer".to_string()),
            ("Ann".to_string(), "penciller".to_string()),
            ("Bob".to_string(), "writer".to_string())
        ]
    );
}

#[test]
fn author_search_ignores_accents_and_case() {
    assert_eq!(author_search_key("Émile Zola"), "emile zola");
    assert_eq!(author_search_key("ÅNGSTRÖM"), "angstrom");
    assert_eq!(author_search_key(""), "");
    let names = strings(&["Émile Zola", "Emilie Brontë", "Zoë"]);
    assert_eq!(filter_author_names(&names, "emile"), strings(&["Émile Zola"]));
    assert_eq!(filter_author_names(&names, "ZO"), strings(&["Émile Zola", "Zoë"]));
    assert_eq!(filter_author_names(&names, ""), names);
    assert_eq!(filter_author_names(&names, "\u{301}"), names);
}

use komga_infra::tag_query::{referential_tags_query, ReferentialTagsInclude, ReferentialTagsScope};

const SERIES_TAGS: &str = "SELECT st.TAG AS TAG FROM SERIES_METADATA_TAG st JOIN SERIES s ON s.ID = st.SERIES_ID";
const BOOK_TAGS: &str = "SELECT bt.TAG AS TAG FROM BOOK_METADATA_TAG bt JOIN BOOK b ON b.ID = bt.BOOK_ID";

#[test]
fn referential_tag_queries_cover_both_sides() {
    let q = referential_tags_query(
        &ReferentialTagsScope::Series(strings(&["s1"])),
        ReferentialTagsInclude::Both,
        Some(&strings(&["l1"])),
    )
    .expect("query");
    assert_eq!(
        q.sql,
        format!(
            "SELECT DISTINCT TAG FROM ({SERIES_TAGS} WHERE s.ID IN (?) AND s.LIBRARY_ID IN (?) UNION ALL {BOOK_TAGS} WHERE b.SERIES_ID IN (?) AND b.LIBRARY_ID IN (?)) ORDER BY lower(TAG), TAG"
        )
    );
    assert_eq!(q.binds, strings(&["s1", "l1", "s1", "l1"]));

    let q = referential_tags_query(
        &ReferentialTagsScope::ReadLists(strings(&["r1", "r2"])),
        ReferentialTagsInclude::Series,
        None,
    )
    .expect("query");
    assert_eq!(
        q.sql,
        format!(
            "SELECT DISTINCT TAG FROM ({SERIES_TAGS} JOIN BOOK b ON b.SERIES_ID = s.ID JOIN READLIST_BOOK rb ON rb.BOOK_ID = b.ID WHERE rb.READLIST_ID IN (?,?)) ORDER BY lower(TAG), TAG"
        )
    );
    assert_eq!(q.binds, strings(&["r1", "r2"]));

    let q = referential_tags_query(&ReferentialTagsScope::All, ReferentialTagsInclude::Book, Some(&strings(&["l1"])))
        .expect("query");
    assert_eq!(q.sql, format!("SELECT DISTINCT TAG FROM ({BOOK_TAGS} WHERE b.LIBRARY_ID IN (?)) ORDER BY lower(TAG), TAG"));

    let q = referential_tags_query(
        &ReferentialTagsScope::Collections(strings(&["c"])),
        ReferentialTagsInclude::Book,
        None,
    )
    .expect("query");
    assert_eq!(
        q.sql,
        format!(
            "SELECT DISTINCT TAG FROM ({BOOK_TAGS} JOIN COLLECTION_SERIES cs ON cs.SERIES_ID = b.SERIES_ID WHERE cs.COLLECTION_ID IN (?)) ORDER BY lower(TAG), TAG"
        )
    );

    let q = referential_tags_query(
        &ReferentialTagsScope::Libraries(strings(&["l1"])),
        ReferentialTagsInclude::Series,
        None,
    )
    .expect("query");
    assert_eq!(q.sql, format!("SELECT DISTINCT TAG FROM ({SERIES_TAGS} WHERE s.LIBRARY_ID IN (?)) ORDER BY lower(TAG), TAG"));
}

#[test]
fn referential_tag_queries_with_empty_ids_list_nothing() {
    assert!(referential_tags_query(&ReferentialTagsScope::Libraries(Vec::new()), ReferentialTagsInclude::Both, None).is_none());
    assert!(referential_tags_query(&ReferentialTagsScope::All, ReferentialTagsInclude::Both, Some(&Vec::new())).is_none());
}

use komga_infra::tag_query::persisted_tags_query;

#[test]
fn tag_facet_queries_follow_the_named_ids() {
    let q = persisted_tags_query(None, None).expect("query");
    assert!(q.sql.starts_with("SELECT TAG\n             FROM (\n"));
    assert!(q.sql.ends_with("ORDER BY lower(TAG), TAG"));
    assert!(q.binds.is_empty());

    let q = persisted_tags_query(Some(&strings(&["l1", "l2"])), None).expect("query");
    assert!(q.sql.contains("WHERE s.LIBRARY_ID IN (?,?)\n             UNION"));
    assert!(q.sql.ends_with("WHERE b.LIBRARY_ID IN (?,?) ) ORDER BY lower(TAG), TAG"));
    assert_eq!(q.binds, strings(&["l1", "l2", "l1", "l2"]));

    let q = persisted_tags_query(Some(&strings(&["l1"])), Some(&strings(&["c1"]))).expect("query");
    assert!(q.sql.contains("WHERE cs.COLLECTION_ID IN (?) AND s.LIBRARY_ID IN (?) UNION"));
    assert!(q.sql.ends_with("WHERE cs.COLLECTION_ID IN (?) AND b.LIBRARY_ID IN (?) ) ORDER BY lower(TAG), TAG"));
    assert_eq!(q.binds, strings(&["c1", "l1", "c1", "l1"]));

    let q = persisted_tags_query(None, Some(&strings(&["c1", "c2"]))).expect("query");
    assert_eq!(q.binds, strings(&["c1", "c2", "c1", "c2"]));
    assert!(!q.sql.contains("LIBRARY_ID"));

    assert!(persisted_tags_query(Some(&Vec::new()), None).is_none());
    assert!(persisted_tags_query(None, Some(&Vec::new())).is_none());
}

use komga_infra::access::{ContentResolver, DiscoveryQuerySupportAccess, TransientBookAccess};
use komga_infra::artwork::{
    book_local_artwork_name_matches, media_type_from_sidecar_path, series_local_artwork_name_matches,
    should_select_local_artwork, supported_book_local_artwork_path,
};
use komga_infra::library_access::{
    effective_library_ids, intersection, is_transient_windows_release_error, normalize_library_root,
};
use komga_infra::tag_query::{book_tags_query, distinct_tags, BookTagsScope};
use komga_infra::transient::{
    is_recognized_transient_book_file, known_transient_media_type, transient_book_content_type,
    transient_book_media_type,
};

fn strings(v: &[&str]) -> Vec<String> {
    v.iter().map(|s| s.to_string()).collect()
}

#[test]
fn access_handles_keep_what_they_were_built_with() {
    let access = DiscoveryQuerySupportAccess::new(7u32, "/index".to_string());
    assert_eq!(*access.db(), 7);
    assert_eq!(access.index_dir(), "/index");
    let transient = TransientBookAccess::new("db");
    assert_eq!(*transient.db(), "db");
    assert_eq!(ContentResolver, ContentResolver);
}

#[test]
fn transient_books_are_recognized_by_extension() {
    assert!(is_recognized_transient_book_file("/x/book.CBZ"));
    assert!(is_recognized_transient_book_file("/x/page.avif"));
    assert!(!is_recognized_transient_book_file("/x/notes.txt"));
    assert!(!is_recognized_transient_book_file("/x/noext"));
    assert_eq!(known_transient_media_type("image/png"), "image/png");
    assert_eq!(known_transient_media_type("text/plain"), "application/octet-stream");
    assert_eq!(transient_book_content_type("application/pdf", Some("image/png")), "application/pdf");
    assert_eq!(transient_book_content_type("", Some("application/zip")), "application/zip");
    assert_eq!(transient_book_content_type("", None), "application/octet-stream");
    assert_eq!(transient_book_media_type(Some("application/x-rar-compressed; version=5")), "application/x-rar-compressed; version=5");
}

#[test]
fn library_ids_are_intersected_in_request_order() {
    let authorized = strings(&["l1", "l2", "l3"]);
    let requested = strings(&["l3", "l4", "l1"]);
    assert_eq!(intersection(&authorized, &requested), strings(&["l3", "l1"]));
    assert_eq!(effective_library_ids(Some(&authorized), Some(&requested)), Some(strings(&["l3", "l1"])));
    assert_eq!(effective_library_ids(Some(&authorized), None), Some(authorized.clone()));
    assert_eq!(effective_library_ids(None, Some(&requested)), Some(requested.clone()));
    assert_eq!(effective_library_ids(None, None), None);
}

#[test]
fn library_roots_and_release_errors() {
    assert_eq!(normalize_library_root("C:\\books\\"), "C:/books");
    assert_eq!(normalize_library_root("/library///"), "/library");
    assert!(is_transient_windows_release_error(Some(32), true));
    assert!(!is_transient_windows_release_error(Some(32), false));
    assert!(!is_transient_windows_release_error(Some(2), true));
    assert!(!is_transient_windows_release_error(None, true));
}

#[test]
fn book_tag_queries_follow_scope_and_authorization() {
    assert!(book_tags_query(None, None).is_none());
    assert!(book_tags_query(Some(&BookTagsScope::All), Some(&vec![])).is_none());
    let q = book_tags_query(Some(&BookTagsScope::All), None).unwrap();
    assert_eq!(q.sql, "SELECT bt.TAG FROM BOOK_METADATA_TAG bt JOIN BOOK b ON b.ID = bt.BOOK_ID ORDER BY lower(bt.TAG), bt.TAG, b.ID");
    assert!(q.binds.is_empty());
    let q = book_tags_query(Some(&BookTagsScope::Libraries(strings(&["l1", "l2"]))), Some(&strings(&["l2"]))).unwrap();
    assert_eq!(
        q.sql,
        "SELECT bt.TAG FROM BOOK_METADATA_TAG bt JOIN BOOK b ON b.ID = bt.BOOK_ID WHERE b.LIBRARY_ID IN (?,?) AND b.LIBRARY_ID IN (?) ORDER BY lower(bt.TAG), bt.TAG, b.ID"
    );
    assert_eq!(q.binds, strings(&["l1", "l2", "l2"]));
    let q = book_tags_query(Some(&BookTagsScope::Series("s".to_string())), Some(&strings(&["l1"]))).unwrap();
    assert_eq!(q.binds, strings(&["s", "l1"]));
    assert!(q.sql.contains("WHERE b.SERIES_ID = ? AND b.LIBRARY_ID IN (?)"));
    assert_eq!(distinct_tags(&strings(&["a", "A", "a", "b"])), strings(&["a", "A", "b"]));
}

#[test]
fn local_artwork_names_and_media_types() {
    assert!(series_local_artwork_name_matches("Folder"));
    assert!(!series_local_artwork_name_matches("front"));
    assert!(supported_book_local_artwork_path("/s/Book.JPEG"));
    assert!(!supported_book_local_artwork_path("/s/Book.bmp"));
    assert!(book_local_artwork_name_matches("book-3", "Book"));
    assert!(!book_local_artwork_name_matches("book-3a", "Book"));
    assert_eq!(media_type_from_sidecar_path("/s/x.TBN"), "image/jpeg");
    assert_eq!(media_type_from_sidecar_path("/s/x.bmp"), "application/octet-stream");
    assert!(should_select_local_artwork(true, None));
    assert!(should_select_local_artwork(true, Some(true)));
    assert!(!should_select_local_artwork(true, Some(false)));
    assert!(!should_select_local_artwork(false, None));
}

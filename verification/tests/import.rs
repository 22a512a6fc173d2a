use komga_infra::import::{
    check_import_series_target, check_upgrade_series, classify_import_book_sidecar,
    collect_import_book_sidecars, import_book_artwork_suffix, import_book_sidecar_result,
    import_book_url_for_library_root, is_supported_book_artwork_extension, path_starts_with,
    paths_equal, remove_upgrade_before_copy, resolve_import_destination_dir,
    resolve_import_destination_name, scanner_book_id_for_path, select_book_sidecar_paths,
    upgrade_identity_migration, ImportBookSidecarType, ImportError,
};

#[test]
fn import_book_returns_error_when_destination_name_is_invalid() {
    assert_eq!(resolve_import_destination_name("/in/book.cbz", Some("nested/book.cbz")), None);
    assert_eq!(resolve_import_destination_name("/in/book.cbz", Some("a\\b")), None);
    let error = ImportError::InvalidDestinationName("nested/book.cbz".to_string());
    assert!(error.message().contains("destination"));
}

#[test]
fn destination_names_take_the_source_extension() {
    assert_eq!(resolve_import_destination_name("/in/incoming.cbz", Some("renamed")).as_deref(), Some("renamed.cbz"));
    assert_eq!(resolve_import_destination_name("/in/noext", Some("renamed")).as_deref(), Some("renamed"));
    assert_eq!(resolve_import_destination_name("/in/incoming.cbz", None).as_deref(), Some("incoming.cbz"));
}

#[test]
fn import_book_uses_oneshot_parent_directory_and_destination_basename() {
    assert_eq!(resolve_import_destination_dir("/library-root", "oneshots/existing.cbz", true), "/library-root/oneshots");
    assert_eq!(resolve_import_destination_dir("/library-root", "series-one", false), "/library-root/series-one");
    assert_eq!(resolve_import_destination_dir("/library-root", "existing.cbz", true), "/library-root");

    let files = vec![
        "/in/incoming.cbz".to_string(),
        "/in/incoming.xml".to_string(),
        "/in/incoming.png".to_string(),
        "/in/incoming-1.jpg".to_string(),
        "/in/incoming-x.jpg".to_string(),
        "/in/other.xml".to_string(),
    ];
    let sidecars = select_book_sidecar_paths("/in/incoming.cbz", &files);
    assert_eq!(
        sidecars,
        vec!["/in/incoming-1.jpg".to_string(), "/in/incoming.png".to_string(), "/in/incoming.xml".to_string()]
    );
    let transfers = collect_import_book_sidecars("/in/incoming.cbz", "/library-root/oneshots/renamed.cbz", &sidecars);
    let destinations: Vec<String> = transfers.iter().map(|t| t.destination_path.clone()).collect();
    assert_eq!(
        destinations,
        vec![
            "/library-root/oneshots/renamed-1.jpg".to_string(),
            "/library-root/oneshots/renamed.png".to_string(),
            "/library-root/oneshots/renamed.xml".to_string(),
        ]
    );
    assert_eq!(transfers[2].sidecar_type, ImportBookSidecarType::Metadata);
    assert_eq!(import_book_sidecar_result(&transfers), (true, true));
    assert_eq!(import_book_sidecar_result(&vec![]), (false, false));
}

#[test]
fn sidecars_are_classified_by_name_and_extension() {
    let c = classify_import_book_sidecar("/d/Book.XML", "book").expect("metadata sidecar");
    assert_eq!(c.sidecar_type, ImportBookSidecarType::Metadata);
    assert_eq!(c.extension, "XML");
    let c = classify_import_book_sidecar("/d/Book-12.PNG", "book").expect("artwork sidecar");
    assert_eq!(c.sidecar_type, ImportBookSidecarType::Artwork);
    assert_eq!(c.suffix, "-12");
    assert!(classify_import_book_sidecar("/d/book.txt", "book").is_none());
    assert!(classify_import_book_sidecar("/d/book-.png", "book").is_none());
    assert_eq!(import_book_artwork_suffix("BOOK", "book").as_deref(), Some(""));
    assert_eq!(import_book_artwork_suffix("Book-007", "book").as_deref(), Some("-007"));
    assert_eq!(import_book_artwork_suffix("Books-1", "book"), None);
    assert!(is_supported_book_artwork_extension("tbn"));
    assert!(!is_supported_book_artwork_extension("PNG"));
}

#[test]
fn imported_book_urls_are_relative_to_the_library_root() {
    assert_eq!(import_book_url_for_library_root("/library", "/library/series/book.cbz").unwrap(), "series/book.cbz");
    assert_eq!(import_book_url_for_library_root("/library/", "/library//series/./book.cbz").unwrap(), "series/book.cbz");
    assert!(matches!(
        import_book_url_for_library_root("/library", "/other/book.cbz"),
        Err(ImportError::OutsideLibraryRoot(_, _))
    ));
    assert!(import_book_url_for_library_root("/lib", "/library/book.cbz").is_err());
    assert!(path_starts_with("/a/b/c", "/a/b"));
    assert!(!path_starts_with("/a/bc", "/a/b"));
    assert!(paths_equal("/a//b/", "/a/b"));
    assert!(remove_upgrade_before_copy("/l/x.cbz", "/l/./x.cbz"));
    assert!(!remove_upgrade_before_copy("/l/x.cbz", "/l/y.cbz"));
}

#[test]
fn import_book_returns_error_when_oneshot_series_missing_upgrade_book_id() {
    match check_import_series_target(true, false) {
        Err(error) => assert!(error.message().contains("upgradeBookId")),
        Ok(()) => panic!("oneshot import without upgrade book should return an error"),
    }
    assert!(check_import_series_target(true, true).is_ok());
    assert!(check_import_series_target(false, false).is_ok());
}

#[test]
fn import_book_returns_error_when_upgrade_target_series_mismatches() {
    match check_upgrade_series(&"series-1".to_string(), &"series-2".to_string()) {
        Err(error) => {
            let message = error.message();
            assert!(message.contains("upgrade") && message.contains("series"), "{message}");
        },
        Ok(()) => panic!("upgrade series mismatch should return an error"),
    }
    assert!(check_upgrade_series(&"s".to_string(), &"s".to_string()).is_ok());
}

#[test]
fn upgraded_identity_moves_to_the_new_file() {
    assert!(matches!(upgrade_identity_migration(&"b".to_string(), &"b".to_string(), "/l", "/l/x.cbz"), Ok(None)));
    let (name, url) = upgrade_identity_migration(&"old".to_string(), &"new".to_string(), "/l", "/l/s/x.cbz")
        .unwrap()
        .unwrap();
    assert_eq!((name.as_str(), url.as_str()), ("x", "s/x.cbz"));
    assert!(upgrade_identity_migration(&"old".to_string(), &"new".to_string(), "/l", "/m/x.cbz").is_err());
}

#[test]
fn scanner_book_ids_are_stable_hashes_of_the_path() {
    let a = scanner_book_id_for_path("/library/a.cbz");
    assert!(a.starts_with("book-"));
    assert_eq!(a.len(), 5 + 16);
    assert_eq!(a, scanner_book_id_for_path("/library/a.cbz"));
    assert_ne!(a, scanner_book_id_for_path("/library/b.cbz"));
}

#[test]
fn import_error_messages() {
    assert_eq!(ImportError::SourceMissing.message(), "source file does not exist");
    assert!(ImportError::SourceInsideLibrary.message().contains("part of an existing library"));
    assert!(ImportError::SeriesNotFound("s".to_string()).message().contains("series target"));
    assert!(ImportError::UpgradeNotFound("b".to_string()).message().contains("upgrade"));
    assert!(ImportError::DestinationExists("/x".to_string()).message().contains("already exists"));
}

use komga_infra::library_access::{file_removal_step, RemovalAttempt, RemovalStep};
use komga_infra::scan_discovery::{
    is_hidden_path, is_supported_book_file, path_file_name_utf8, path_file_stem_utf8, scanner_url_key,
    FileTimes, FileTimestamp, LibraryScanConfig,
};
use komga_infra::scan_library::{
    build_scanned_library, EntryMetadata, LibraryRootStatus, ScanEntry, SeriesDirectorySnapshot,
};
use komga_infra::series_walk::{next_directory, record_listing, start_series_walk, EntryKind, WalkEntry};

#[test]
fn scanner_treats_mobi_as_epub_when_scan_epub_is_enabled() {
    let scan_config = LibraryScanConfig {
        root: "/library".to_string(),
        scan_cbx: false,
        scan_pdf: false,
        scan_epub: true,
        scan_force_modified_time: false,
        oneshots_directory: None,
        scan_directory_exclusions: Vec::new(),
    };

    assert!(is_supported_book_file(b"/library/Series/book.MOBI", &scan_config));

    let mut disabled = scan_config.clone();
    disabled.scan_epub = false;
    assert!(!is_supported_book_file(b"/library/Series/book.mobi", &disabled));
}

#[test]
fn scanner_url_key_normalizes_windows_and_relative_path_shapes() {
    assert_eq!(
        scanner_url_key("/library", "oneshots/existing.cbz"),
        "/library/oneshots/existing.cbz",
    );
}

fn config() -> LibraryScanConfig {
    LibraryScanConfig {
        root: "/library".to_string(),
        scan_cbx: true,
        scan_pdf: true,
        scan_epub: true,
        scan_force_modified_time: false,
        oneshots_directory: None,
        scan_directory_exclusions: Vec::new(),
    }
}

#[test]
fn scanner_path_helpers_reject_supported_book_paths_without_utf8_file_stems() {
    let path = b"/library/Series 1/\xff.cbz".to_vec();
    assert!(
        is_supported_book_file(&path, &config()),
        "fixture should still be a supported CBZ path before UTF-8 name extraction",
    );
    let error = path_file_stem_utf8(&path).expect_err("scanner should reject non-UTF-8 book stems");
    assert!(error.message().contains("valid UTF-8 file stem"), "{}", error.message());
}

#[test]
fn path_helpers_read_text_names_of_byte_paths() {
    assert_eq!(path_file_stem_utf8(b"/library/Series 1/Book One.cbz").unwrap(), "Book One");
    assert_eq!(path_file_name_utf8(b"/library/Series 1/").unwrap(), "Series 1");
    assert_eq!(
        path_file_stem_utf8(b"/library/\xff/Book.cbz").unwrap(),
        "Book",
        "only the stem itself must be text"
    );
    assert_eq!(
        path_file_name_utf8(b"/library/\xffname").unwrap_err().message(),
        "path '/library/\u{FFFD}name' has no valid UTF-8 file name"
    );
    assert!(is_hidden_path(b"/library/.hidden"));
    assert!(!is_hidden_path(b"/library/.\xff"));
    assert!(!is_supported_book_file(b"/library/book.cb\xff", &config()));
}

fn times(seconds: u64) -> FileTimes {
    FileTimes { created: None, modified: Some(FileTimestamp { before_epoch: false, seconds }) }
}

fn file(path: &[u8]) -> Result<ScanEntry, String> {
    Ok(ScanEntry { path: path.to_vec(), metadata: Ok(EntryMetadata { is_file: true, len: 10, times: times(5) }) })
}

#[test]
fn scan_fails_on_a_book_whose_stem_is_not_text() {
    let dirs = vec![SeriesDirectorySnapshot {
        path: b"/library/Series 1".to_vec(),
        times: Ok(times(1)),
        entries: Ok(vec![file(b"/library/Series 1/good.cbz"), file(b"/library/Series 1/\xff.cbz")]),
    }];
    let error = build_scanned_library(&config(), "/library", &LibraryRootStatus::Available, &vec![], &vec![], false, &dirs)
        .unwrap_err();
    assert_eq!(error.message(), "path '/library/Series 1/\u{FFFD}.cbz' has no valid UTF-8 file stem");
}

#[test]
fn scan_reports_each_id_once() {
    let dirs = vec![
        SeriesDirectorySnapshot {
            path: b"/library/Series 1".to_vec(),
            times: Ok(times(1)),
            entries: Ok(vec![file(b"/library/Series 1/a.cbz"), file(b"/library/Series 1/b.cbz")]),
        },
        SeriesDirectorySnapshot {
            path: b"/library/Series 1/".to_vec(),
            times: Ok(times(1)),
            entries: Ok(vec![file(b"/library/Series 1/a.cbz")]),
        },
    ];
    let lib = build_scanned_library(&config(), "/library", &LibraryRootStatus::Available, &vec![], &vec![], false, &dirs)
        .unwrap();
    assert_eq!(lib.series_rows.len(), 2);
    assert_eq!(lib.series_rows[0].series_name, "Series 1");
    assert_eq!(lib.series_rows[0].books[0].book_name, "a");
    assert_eq!(lib.discovered_book_ids.len(), 2);
    for set in [
        &lib.discovered_book_ids,
        &lib.discovered_series_ids,
        &lib.series_ids_requiring_book_sync,
        &lib.changed_existing_book_ids,
    ] {
        for (i, a) in set.iter().enumerate() {
            assert!(!set[i + 1..].contains(a));
        }
    }
}

fn walk_entry(path: &[u8], kind: EntryKind) -> Result<WalkEntry, String> {
    Ok(WalkEntry { path: path.to_vec(), kind: Ok(kind) })
}

#[test]
fn series_walk_finds_book_directories_depth_first() {
    let mut scan_config = config();
    scan_config.scan_directory_exclusions = vec!["SKIP".to_string()];
    let mut walk = start_series_walk(&scan_config, b"/library");
    assert_eq!(next_directory(&walk).unwrap().as_slice(), b"/library");
    record_listing(
        &mut walk,
        &scan_config,
        &Ok(vec![
            walk_entry(b"/library/A", EntryKind::Directory),
            walk_entry(b"/library/.hidden", EntryKind::Directory),
            walk_entry(b"/library/skip-me", EntryKind::Directory),
            walk_entry(b"/library/B", EntryKind::Directory),
            walk_entry(b"/library/notes.txt", EntryKind::File),
        ]),
    )
    .unwrap();
    assert!(walk.discovered.is_empty());
    assert_eq!(next_directory(&walk).unwrap().as_slice(), b"/library/A");
    record_listing(
        &mut walk,
        &scan_config,
        &Ok(vec![
            walk_entry(b"/library/A/book.cbz", EntryKind::File),
            walk_entry(b"/library/A/Inner", EntryKind::Directory),
            Ok(WalkEntry { path: b"/library/A/.x".to_vec(), kind: Err("denied".to_string()) }),
        ]),
    )
    .unwrap();
    assert_eq!(next_directory(&walk).unwrap().as_slice(), b"/library/A/Inner");
    record_listing(&mut walk, &scan_config, &Ok(vec![])).unwrap();
    assert_eq!(next_directory(&walk).unwrap().as_slice(), b"/library/B");
    record_listing(&mut walk, &scan_config, &Ok(vec![walk_entry(b"/library/B/c.epub", EntryKind::File)])).unwrap();
    assert!(next_directory(&walk).is_none());
    assert_eq!(walk.discovered, vec![b"/library/A".to_vec(), b"/library/B".to_vec()]);
}

#[test]
fn series_walk_reports_listing_failures() {
    let mut walk = start_series_walk(&config(), b"/library");
    let error = record_listing(&mut walk, &config(), &Err("denied".to_string())).unwrap_err();
    assert_eq!(error.message(), "failed to scan directory '/library': denied");
    assert_eq!(walk.pending.len(), 1);
    let error = record_listing(
        &mut walk,
        &config(),
        &Ok(vec![Ok(WalkEntry { path: b"/library/x".to_vec(), kind: Err("gone".to_string()) })]),
    )
    .unwrap_err();
    assert_eq!(error.message(), "failed to read metadata for '/library/x': gone");
    let error = record_listing(&mut walk, &config(), &Ok(vec![Err("io".to_string())])).unwrap_err();
    assert_eq!(error.message(), "failed to read directory entry in '/library': io");
    assert!(next_directory(&start_series_walk(&config(), b"/library/.hidden")).is_none());
}

#[test]
fn file_removal_retries_only_held_files_before_the_deadline() {
    assert_eq!(file_removal_step(RemovalAttempt::Removed, true, true), RemovalStep::Finished(true));
    assert_eq!(file_removal_step(RemovalAttempt::NotFound, false, false), RemovalStep::Finished(false));
    assert_eq!(file_removal_step(RemovalAttempt::Failed(Some(32)), true, true), RemovalStep::RetryAfterWait);
    assert_eq!(file_removal_step(RemovalAttempt::Failed(Some(32)), false, true), RemovalStep::Fail);
    assert_eq!(file_removal_step(RemovalAttempt::Failed(Some(32)), true, false), RemovalStep::Fail);
    assert_eq!(file_removal_step(RemovalAttempt::Failed(Some(2)), true, true), RemovalStep::Fail);
    assert_eq!(file_removal_step(RemovalAttempt::Failed(None), true, true), RemovalStep::Fail);
}

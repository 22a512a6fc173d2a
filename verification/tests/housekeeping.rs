use komga_infra::deletion::{empty_parent_directory_cleanup_check, ParentCleanup};
use komga_infra::import::{normalize_library_relative_url, source_inside_library_roots};
use komga_infra::kobo::{unique_book_ids, KoboSyncPointBook};
use komga_infra::library_validation::{
    validate_library_before_persist, ExistingLibrary, LibraryRootState, LibraryValidationError,
};
use komga_infra::scan_schedule::{
    scan_task_id, schedule_startup, schedule_tick, sync_periodic_library_scan_state, LastRun,
    LibraryElapsed, LibraryScanProfile, ScanTrigger,
};
use komga_infra::thumbnails::{
    book_thumbnail_housekeeping_plan, thumbnail_selection_target, BookThumbnailRow, ThumbnailRow,
};

fn strings(v: &[&str]) -> Vec<String> {
    v.iter().map(|s| s.to_string()).collect()
}

fn profile(id: &str, startup: bool, interval: Option<u64>) -> LibraryScanProfile {
    LibraryScanProfile { library_id: id.to_string(), scan_startup: startup, interval_seconds: interval }
}

#[test]
fn startup_schedule_emits_only_startup_enabled_libraries() {
    let profiles = vec![profile("library-2", false, Some(86_400)), profile("library-1", true, None)];
    let batch = schedule_startup(&profiles);
    assert_eq!(batch.configured_library_count, 2);
    assert_eq!(batch.scans.len(), 1);
    assert_eq!(batch.scans[0].library_id, "library-1");
    assert_eq!(batch.scans[0].task_id, "library-1_DEEP_false");
    assert_eq!(batch.scans[0].trigger, ScanTrigger::Startup);
}

#[test]
fn tick_schedule_emits_only_due_interval_libraries() {
    let profiles = vec![
        profile("library-disabled", true, None),
        profile("library-due", true, Some(3_600)),
        profile("library-not-due", true, Some(86_400)),
        profile("library-never-ran", true, Some(3_600)),
    ];
    let elapsed = vec![
        LibraryElapsed { library_id: "library-due".to_string(), elapsed_seconds: 3_605 },
        LibraryElapsed { library_id: "library-not-due".to_string(), elapsed_seconds: 5 },
    ];
    let batch = schedule_tick(&profiles, &elapsed);
    assert_eq!(batch.configured_library_count, 4);
    assert_eq!(batch.scans.len(), 1);
    assert_eq!(batch.scans[0].library_id, "library-due");
    assert_eq!(batch.scans[0].task_id, "library-due_DEEP_false");
    assert_eq!(batch.scans[0].trigger, ScanTrigger::Interval(3_600));
}

#[test]
fn tick_schedule_is_due_exactly_at_the_period() {
    let profiles = vec![profile("a", false, Some(60))];
    let at = vec![LibraryElapsed { library_id: "a".to_string(), elapsed_seconds: 60 }];
    let before = vec![LibraryElapsed { library_id: "a".to_string(), elapsed_seconds: 59 }];
    assert_eq!(schedule_tick(&profiles, &at).scans.len(), 1);
    assert_eq!(schedule_tick(&profiles, &before).scans.len(), 0);
}

#[test]
fn scan_task_ids_mark_non_deep_scans() {
    assert_eq!(scan_task_id("lib"), "lib_DEEP_false");
    assert_eq!(scan_task_id(""), "_DEEP_false");
}

#[test]
fn periodic_state_keeps_known_times_adds_new_libraries_and_drops_stale_ones() {
    let profiles = vec![
        profile("kept", false, Some(3_600)),
        profile("disabled", true, None),
        profile("new", false, Some(86_400)),
    ];
    let last_runs = vec![
        LastRun { library_id: "stale".to_string(), at: 1 },
        LastRun { library_id: "kept".to_string(), at: 7 },
        LastRun { library_id: "disabled".to_string(), at: 3 },
    ];
    let synced = sync_periodic_library_scan_state(&profiles, &last_runs, 100);
    let mut pairs: Vec<(String, u64)> = synced.iter().map(|r| (r.library_id.clone(), r.at)).collect();
    pairs.sort();
    assert_eq!(pairs, vec![("kept".to_string(), 7), ("new".to_string(), 100)]);
}

fn row(id: &str, selected: bool) -> ThumbnailRow {
    ThumbnailRow { id: id.to_string(), selected }
}

#[test]
fn thumbnail_selection_keeps_the_first_of_several_selected() {
    let rows = vec![row("a", false), row("b", true), row("c", true)];
    assert_eq!(thumbnail_selection_target(&rows, false).as_deref(), Some("b"));
    assert_eq!(thumbnail_selection_target(&rows, true).as_deref(), Some("b"));
}

#[test]
fn thumbnail_selection_falls_back_to_the_first_when_the_selected_one_was_deleted() {
    let rows = vec![row("a", false), row("b", false)];
    assert_eq!(thumbnail_selection_target(&rows, true).as_deref(), Some("a"));
    assert_eq!(thumbnail_selection_target(&rows, false), None);
    assert_eq!(thumbnail_selection_target(&Vec::new(), true), None);
}

#[test]
fn thumbnail_selection_leaves_a_single_selection_alone() {
    let rows = vec![row("a", false), row("b", true)];
    assert_eq!(thumbnail_selection_target(&rows, true), None);
}

fn book_row(id: &str, available: bool, selected: bool) -> BookThumbnailRow {
    BookThumbnailRow { id: id.to_string(), available, selected }
}

#[test]
fn book_thumbnail_housekeeping_deletes_missing_images_and_reselects() {
    let rows = vec![book_row("gone", false, true), book_row("x", true, false), book_row("y", true, false)];
    let plan = book_thumbnail_housekeeping_plan(&rows);
    assert_eq!(plan.delete_ids, strings(&["gone"]));
    assert_eq!(plan.select_id.as_deref(), Some("x"));

    let rows = vec![book_row("x", true, true), book_row("y", true, true), book_row("z", false, false)];
    let plan = book_thumbnail_housekeeping_plan(&rows);
    assert_eq!(plan.delete_ids, strings(&["z"]));
    assert_eq!(plan.select_id.as_deref(), Some("x"));

    let rows = vec![book_row("x", true, false), book_row("y", true, true)];
    let plan = book_thumbnail_housekeeping_plan(&rows);
    assert!(plan.delete_ids.is_empty());
    assert_eq!(plan.select_id, None);

    let rows = vec![book_row("x", false, false)];
    let plan = book_thumbnail_housekeeping_plan(&rows);
    assert_eq!(plan.delete_ids, strings(&["x"]));
    assert_eq!(plan.select_id, None);
}

fn existing(id: &str, name: &str, root: &str) -> ExistingLibrary {
    ExistingLibrary { id: id.to_string(), name: name.to_string(), resolved_root: root.to_string() }
}

#[test]
fn library_validation_reports_each_error() {
    let others = vec![existing("lib-1", "Comics", "/data/comics/"), existing("lib-2", "Books", "/data/books")];
    assert_eq!(
        validate_library_before_persist(LibraryRootState::Missing, "new", "New", "/data/new", &others),
        Err(LibraryValidationError::RootMissing)
    );
    assert_eq!(
        validate_library_before_persist(LibraryRootState::NotDirectory, "new", "New", "/data/new", &others),
        Err(LibraryValidationError::RootNotDirectory)
    );
    assert_eq!(
        validate_library_before_persist(LibraryRootState::Directory, "new", "Books", "/data/new", &others),
        Err(LibraryValidationError::NameTaken)
    );
    assert_eq!(
        validate_library_before_persist(LibraryRootState::Directory, "new", "New", "/data/comics/manga", &others),
        Err(LibraryValidationError::RootOverlap)
    );
    assert_eq!(
        validate_library_before_persist(LibraryRootState::Directory, "new", "New", "/data", &others),
        Err(LibraryValidationError::RootOverlap)
    );
    assert_eq!(
        validate_library_before_persist(LibraryRootState::Directory, "new", "New", "/data/comics", &others),
        Err(LibraryValidationError::RootOverlap)
    );
    assert_eq!(
        validate_library_before_persist(LibraryRootState::Directory, "new", "New", "/data/comics-2", &others),
        Ok(())
    );
    assert_eq!(
        validate_library_before_persist(LibraryRootState::Directory, "lib-1", "Comics", "/data/comics", &others),
        Ok(())
    );
    assert_eq!(LibraryValidationError::RootOverlap.message(), "library root cannot overlap another library root");
    assert_eq!(LibraryValidationError::NameTaken.message(), "library name must be unique");
    assert_eq!(LibraryValidationError::RootMissing.message(), "library root does not exist");
    assert_eq!(LibraryValidationError::RootNotDirectory.message(), "library root must be a directory");
}

#[test]
fn parent_cleanup_waits_for_a_directory_that_empties() {
    let sidecars = strings(&["/lib/series/book.jpg", "/lib/elsewhere/book.jpg"]);
    let only_pending = strings(&["/lib/series/book.cbz", "/lib/series/book.jpg"]);
    assert_eq!(
        empty_parent_directory_cleanup_check("/lib/series/book.cbz", &sidecars, Some(&only_pending)),
        ParentCleanup::CheckDirectoryRemovable
    );
    let with_other = strings(&["/lib/series/book.cbz", "/lib/series/other.cbz"]);
    assert_eq!(
        empty_parent_directory_cleanup_check("/lib/series/book.cbz", &sidecars, Some(&with_other)),
        ParentCleanup::Ready
    );
    assert_eq!(empty_parent_directory_cleanup_check("/lib/series/book.cbz", &sidecars, None), ParentCleanup::Ready);
    assert_eq!(empty_parent_directory_cleanup_check("/", &sidecars, Some(&Vec::new())), ParentCleanup::Ready);
    let foreign_sidecar = strings(&["/lib/series/book.cbz", "/lib/series/x.jpg"]);
    let sidecar_elsewhere = strings(&["/lib/other/x.jpg"]);
    assert_eq!(
        empty_parent_directory_cleanup_check("/lib/series/book.cbz", &sidecar_elsewhere, Some(&foreign_sidecar)),
        ParentCleanup::Ready
    );
}

#[test]
fn kobo_sync_point_books_are_taken_once_each() {
    let book = |id: &str| KoboSyncPointBook {
        book_id: id.to_string(),
        created: "2024-01-01".to_string(),
        file_last_modified: "2024-01-02".to_string(),
    };
    let books = vec![book("b"), book("a"), book("b"), book("c"), book("a")];
    assert_eq!(unique_book_ids(&books), strings(&["b", "a", "c"]));
}

#[test]
fn import_sources_inside_library_roots_are_detected() {
    let roots = vec![None, Some("/data/comics".to_string())];
    assert!(source_inside_library_roots(Some("/data/comics/incoming/book.cbz"), &roots));
    assert!(!source_inside_library_roots(Some("/data/comics-2/book.cbz"), &roots));
    assert!(!source_inside_library_roots(None, &roots));
    assert!(!source_inside_library_roots(Some("/data/comics/book.cbz"), &vec![None]));
}

#[test]
fn library_relative_urls_use_forward_slashes() {
    assert_eq!(
        normalize_library_relative_url("/library", "/library/series/book.cbz").as_deref(),
        Some("series/book.cbz")
    );
    assert_eq!(normalize_library_relative_url("/library", "/elsewhere/book.cbz"), None);
}

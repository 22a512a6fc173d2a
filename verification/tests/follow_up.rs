use komga_infra::follow_up::{
    plan_scan_follow_ups, BookMetadataRefreshRequest, ExtensionRepairBook, FollowUpInputs,
    FollowUpTaskKind, LibraryHashingFlags, LibraryMaintenanceFlags,
};
use komga_infra::scan_discovery::{ScannedBookRow, ScannedSidecarRow, ScannedSidecarSource, ScannedSidecarType};
use komga_infra::scan_library::ScannedSeriesRow;

fn book(id: &str) -> ScannedBookRow {
    ScannedBookRow {
        book_id: id.to_string(),
        book_name: format!("{id} name"),
        book_url: format!("Series One/{id}.cbz"),
        file_size: 10,
        file_last_modified_unix_seconds: 0,
        oneshot: false,
    }
}

fn series(id: &str, books: Vec<ScannedBookRow>) -> ScannedSeriesRow {
    ScannedSeriesRow {
        series_id: id.to_string(),
        series_name: id.to_string(),
        series_url: id.to_string(),
        series_last_modified_unix_seconds: 0,
        oneshot: false,
        books,
    }
}

fn sidecar(url: &str, parent: &str, source: ScannedSidecarSource, sidecar_type: ScannedSidecarType) -> ScannedSidecarRow {
    ScannedSidecarRow {
        url: url.to_string(),
        parent_url: parent.to_string(),
        last_modified_unix_seconds: 2,
        source,
        sidecar_type,
    }
}

fn inputs() -> FollowUpInputs {
    let mut row = series("series-1", vec![book("book")]);
    row.books[0].book_id = "book-1".to_string();
    row.books[0].book_name = "Book One".to_string();
    row.books[0].file_last_modified_unix_seconds = 1;
    row.series_name = "Series One".to_string();
    row.series_url = "Series One".to_string();
    row.series_last_modified_unix_seconds = 1;
    FollowUpInputs {
        library_id: "library-1".to_string(),
        series_rows: vec![row],
        analyzable_book_ids: vec!["book-1".to_string()],
        hashing: LibraryHashingFlags { hash_files: false, hash_koreader: false, hash_pages: false },
        books_missing_file_hash: vec![],
        books_missing_koreader_hash: vec![],
        maintenance: LibraryMaintenanceFlags { repair_extensions: false, convert_to_cbz: false },
        extension_repair_books: vec![],
        changed_series_ids: vec!["series-1".to_string()],
        book_metadata_refreshes: vec![BookMetadataRefreshRequest {
            book_id: "book-1".to_string(),
            series_id: "series-1".to_string(),
            capabilities: vec!["TITLE".to_string()],
        }],
        renumbered_book_ids: vec!["book-1".to_string()],
        sidecars: vec![sidecar("Series One/series.json", "Series One", ScannedSidecarSource::Series, ScannedSidecarType::Metadata)],
        changed_sidecar_urls: vec!["Series One/series.json".to_string()],
    }
}

#[test]
fn planner_orders_runtime_follow_ups_before_sidecar_refreshes() {
    let tasks = plan_scan_follow_ups(&inputs());
    let kinds: Vec<FollowUpTaskKind> = tasks.iter().map(|t| t.kind).collect();
    assert_eq!(
        kinds,
        vec![
            FollowUpTaskKind::AnalyzeBook,
            FollowUpTaskKind::FindDuplicatePagesToDelete,
            FollowUpTaskKind::RefreshSeriesMetadata,
            FollowUpTaskKind::RefreshBookMetadata,
            FollowUpTaskKind::RefreshSeriesMetadata,
        ]
    );
    let refresh_book_tasks: Vec<_> = tasks.iter().filter(|t| t.kind == FollowUpTaskKind::RefreshBookMetadata).collect();
    assert_eq!(refresh_book_tasks.len(), 1);
    assert_eq!(tasks[4].subject, "series-1");
    assert_eq!(tasks[4].group.as_deref(), Some("series-1"));
    let refresh = &tasks[3];
    assert_eq!(refresh.subject, "book-1");
    assert_eq!(refresh.capabilities, vec!["TITLE".to_string()]);
    assert_eq!(refresh.group.as_deref(), Some("series-1"));
    assert_eq!(refresh.priority, 4);
    assert_eq!(tasks[0].group.as_deref(), Some("series-1"));
    assert_eq!(tasks[1].subject, "library-1");
    assert_eq!(tasks[1].priority, 0);
}

#[test]
fn planner_queues_hashing_maintenance_and_sorted_unique_refreshes() {
    let mut i = inputs();
    i.analyzable_book_ids = vec![];
    i.hashing = LibraryHashingFlags { hash_files: true, hash_koreader: true, hash_pages: true };
    i.books_missing_file_hash = vec!["b2".to_string(), "b1".to_string()];
    i.books_missing_koreader_hash = vec!["b3".to_string()];
    i.maintenance = LibraryMaintenanceFlags { repair_extensions: true, convert_to_cbz: true };
    i.extension_repair_books = vec![ExtensionRepairBook { book_id: "b4".to_string(), series_id: "s4".to_string() }];
    i.changed_series_ids = vec!["s2".to_string(), "s1".to_string(), "s2".to_string()];
    i.book_metadata_refreshes = vec![
        BookMetadataRefreshRequest { book_id: "z".to_string(), series_id: "s".to_string(), capabilities: vec!["TITLE".to_string()] },
        BookMetadataRefreshRequest { book_id: "book-1".to_string(), series_id: "s".to_string(), capabilities: vec!["TITLE".to_string(), "AUTHORS".to_string()] },
        BookMetadataRefreshRequest { book_id: "z".to_string(), series_id: "s".to_string(), capabilities: vec!["ISBN".to_string()] },
    ];
    i.renumbered_book_ids = vec!["a".to_string(), "book-1".to_string()];
    i.changed_sidecar_urls = vec![];
    let tasks = plan_scan_follow_ups(&i);
    let summary: Vec<(FollowUpTaskKind, String, i32)> = tasks.iter().map(|t| (t.kind, t.subject.clone(), t.priority)).collect();
    assert_eq!(
        summary,
        vec![
            (FollowUpTaskKind::HashBook, "b2".to_string(), 0),
            (FollowUpTaskKind::HashBook, "b1".to_string(), 0),
            (FollowUpTaskKind::HashBookKoreader, "b3".to_string(), 0),
            (FollowUpTaskKind::FindBooksWithMissingPageHash, "library-1".to_string(), 0),
            (FollowUpTaskKind::FindDuplicatePagesToDelete, "library-1".to_string(), 0),
            (FollowUpTaskKind::RepairExtension, "b4".to_string(), 2),
            (FollowUpTaskKind::FindBooksToConvert, "library-1".to_string(), 0),
            (FollowUpTaskKind::RefreshSeriesMetadata, "s1".to_string(), 4),
            (FollowUpTaskKind::RefreshSeriesMetadata, "s2".to_string(), 4),
            (FollowUpTaskKind::RefreshBookMetadata, "a".to_string(), 4),
            (FollowUpTaskKind::RefreshBookMetadata, "book-1".to_string(), 4),
            (FollowUpTaskKind::RefreshBookMetadata, "z".to_string(), 4),
        ]
    );
    assert_eq!(tasks[5].group.as_deref(), Some("s4"));
    assert!(tasks[9].capabilities.is_empty());
    assert_eq!(tasks[9].group, None);
    assert_eq!(tasks[10].capabilities, vec!["AUTHORS".to_string(), "TITLE".to_string()]);
    assert_eq!(tasks[10].group.as_deref(), Some("series-1"));
    assert_eq!(tasks[11].capabilities, vec!["ISBN".to_string(), "TITLE".to_string()]);
}

#[test]
fn changed_sidecars_refresh_their_series_or_book() {
    let mut i = inputs();
    i.analyzable_book_ids = vec![];
    i.changed_series_ids = vec![];
    i.book_metadata_refreshes = vec![];
    i.renumbered_book_ids = vec![];
    i.sidecars = vec![
        sidecar("Series One/cover.jpg", "Series One", ScannedSidecarSource::Series, ScannedSidecarType::Artwork),
        sidecar("Series One/book.jpg", "Series One/book.cbz", ScannedSidecarSource::Book, ScannedSidecarType::Artwork),
        sidecar("Series One/book.xml", "Series One/book.cbz", ScannedSidecarSource::Book, ScannedSidecarType::Metadata),
        sidecar("Series One/unchanged.jpg", "Series One", ScannedSidecarSource::Series, ScannedSidecarType::Artwork),
        sidecar("Gone/series.json", "Gone", ScannedSidecarSource::Series, ScannedSidecarType::Metadata),
    ];
    i.changed_sidecar_urls = vec![
        "Series One/book.xml".to_string(),
        "Series One/cover.jpg".to_string(),
        "Series One/book.jpg".to_string(),
        "Gone/series.json".to_string(),
    ];
    let tasks = plan_scan_follow_ups(&i);
    let summary: Vec<(FollowUpTaskKind, String, Option<String>)> =
        tasks.iter().map(|t| (t.kind, t.subject.clone(), t.group.clone())).collect();
    assert_eq!(
        summary,
        vec![
            (FollowUpTaskKind::FindDuplicatePagesToDelete, "library-1".to_string(), None),
            (FollowUpTaskKind::RefreshSeriesLocalArtwork, "series-1".to_string(), Some("series-1".to_string())),
            (FollowUpTaskKind::RefreshBookLocalArtwork, "book-1".to_string(), Some("series-1".to_string())),
            (FollowUpTaskKind::RefreshBookMetadata, "book-1".to_string(), Some("series-1".to_string())),
        ]
    );
}

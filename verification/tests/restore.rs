use komga_infra::restore::{
    deleted_series_matches, find_restore_match, first_matching_deleted_series, restore_book_metadata, restore_series_metadata,
    same_multiset_i64, same_multiset_strings, series_progress_update, DeletedBookCandidate,
    DeletedBookMetadata, DeletedSeriesMetadata, SeriesProgressUpdate, SizedHashedBook,
};

fn deleted_metadata(title_lock: bool) -> DeletedBookMetadata {
    DeletedBookMetadata {
        title: "legacy-title".to_string(),
        title_lock,
        summary: "legacy summary".to_string(),
        summary_lock: true,
        number: "1".to_string(),
        number_lock: false,
        number_sort_lock: false,
        release_date: Some("2001-01-01".to_string()),
        release_date_lock: false,
        authors_lock: false,
        tags_lock: false,
        isbn: "isbn-legacy".to_string(),
        isbn_lock: true,
        links_lock: false,
    }
}

#[test]
fn run_enqueues_refresh_book_metadata_for_restored_book_without_locked_title() {
    let (restored, refresh) = restore_book_metadata(
        &deleted_metadata(false),
        &"Imported Legacy Title".to_string(),
        &"book-new".to_string(),
        &"series-1".to_string(),
    );
    assert_eq!(restored.title, "Imported Legacy Title");
    assert_eq!(restored.summary, "legacy summary");
    assert_eq!(restored.isbn, "isbn-legacy");
    let refresh = refresh.expect("an unlocked title is refreshed");
    assert_eq!(refresh.book_id, "book-new");
    assert_eq!(refresh.series_id, "series-1");
    assert_eq!(refresh.capabilities, vec!["TITLE".to_string()]);

    let (restored, refresh) = restore_book_metadata(
        &deleted_metadata(true),
        &"Imported".to_string(),
        &"book-new".to_string(),
        &"series-1".to_string(),
    );
    assert_eq!(restored.title, "legacy-title");
    assert!(refresh.is_none());
}

#[test]
fn restore_matches_the_first_deleted_book_with_the_same_hash() {
    let candidates = vec![
        DeletedBookCandidate { id: "a".to_string(), file_hash: "h1".to_string() },
        DeletedBookCandidate { id: "b".to_string(), file_hash: "h2".to_string() },
        DeletedBookCandidate { id: "c".to_string(), file_hash: "h2".to_string() },
    ];
    assert_eq!(find_restore_match(&candidates, &"h2".to_string()).as_deref(), Some("b"));
    assert_eq!(find_restore_match(&candidates, &"h3".to_string()), None);
}

fn book(size: i64, hash: &str) -> SizedHashedBook {
    SizedHashedBook { file_size: size, file_hash: hash.to_string() }
}

#[test]
fn deleted_series_match_when_sizes_and_hashes_agree_in_any_order() {
    let deleted = vec![book(10, "x"), book(20, "y")];
    assert!(deleted_series_matches(&deleted, &vec![book(20, "y"), book(10, "x")]));
    assert!(deleted_series_matches(&deleted, &vec![book(10, "y"), book(20, "x")]));
    assert!(!deleted_series_matches(&deleted, &vec![book(10, "x")]));
    assert!(!deleted_series_matches(&deleted, &vec![book(10, "x"), book(20, "z")]));
    assert!(!deleted_series_matches(&deleted, &vec![book(10, "x"), book(10, "y")]));
    assert!(same_multiset_i64(&vec![1, 2, 2], &vec![2, 1, 2]));
    assert!(!same_multiset_i64(&vec![1, 2, 2], &vec![1, 1, 2]));
    assert!(same_multiset_strings(&vec!["a".to_string(), "b".to_string()], &vec!["b".to_string(), "a".to_string()]));
    assert!(!same_multiset_strings(&vec!["a".to_string()], &vec!["a".to_string(), "a".to_string()]));
}

#[test]
fn series_progress_is_deleted_when_nothing_is_left() {
    assert!(matches!(series_progress_update(0, 0, 0, None), SeriesProgressUpdate::Delete));
    match series_progress_update(3, 2, 1, Some("2024-01-01".to_string())) {
        SeriesProgressUpdate::Upsert { read_count, in_progress_count, most_recent_read_date } => {
            assert_eq!((read_count, in_progress_count), (2, 1));
            assert_eq!(most_recent_read_date.as_deref(), Some("2024-01-01"));
        },
        SeriesProgressUpdate::Delete => panic!("progress should be kept"),
    }
}

#[test]
fn restored_series_keeps_locked_titles() {
    let deleted = DeletedSeriesMetadata {
        status: "ENDED".to_string(),
        status_lock: true,
        title: "Old".to_string(),
        title_lock: true,
        title_sort: "Old sort".to_string(),
        title_sort_lock: false,
        summary: "s".to_string(),
        summary_lock: false,
        reading_direction: Some("LEFT_TO_RIGHT".to_string()),
        reading_direction_lock: false,
        publisher: "p".to_string(),
        publisher_lock: false,
        age_rating: Some(12),
        age_rating_lock: false,
        language: "en".to_string(),
        language_lock: false,
        genres_lock: false,
        tags_lock: false,
        total_book_count: None,
        total_book_count_lock: false,
        sharing_labels_lock: false,
        links_lock: false,
        alternate_titles_lock: false,
    };
    let restored = restore_series_metadata(&deleted, &"New".to_string(), &"New sort".to_string());
    assert_eq!(restored.title, "Old");
    assert_eq!(restored.title_sort, "New sort");
    assert_eq!(restored.status, "ENDED");
    assert_eq!(restored.age_rating, Some(12));
}

#[test]
fn the_first_matching_deleted_series_is_restored() {
    let inserted = vec![book(10, "h1"), book(20, "h2")];
    let candidates = vec![
        vec![book(10, "h1")],
        vec![book(20, "h2"), book(10, "hx")],
        vec![book(20, "h2"), book(10, "h1")],
        vec![book(10, "h1"), book(20, "h2")],
    ];
    assert_eq!(first_matching_deleted_series(&candidates, &inserted), Some(2));
    assert_eq!(first_matching_deleted_series(&candidates[..2].to_vec(), &inserted), None);
    assert_eq!(first_matching_deleted_series(&vec![vec![]], &vec![]), None);
}

use komga_infra::persist_plan::{
    book_requires_upsert, library_availability, plan_missing_scan_rows, renumber_book,
    AvailabilityAction, StoredBookRow,
};

fn s(v: &str) -> String {
    v.to_string()
}

#[test]
fn library_availability_marks_and_clears_the_marker() {
    assert_eq!(library_availability(false, false), (AvailabilityAction::MarkUnavailable, true));
    assert_eq!(library_availability(false, true), (AvailabilityAction::MarkUnavailable, false));
    assert_eq!(library_availability(true, true), (AvailabilityAction::ClearMarker, true));
    assert_eq!(library_availability(true, false), (AvailabilityAction::Keep, false));
}

#[test]
fn missing_rows_are_soft_deleted_in_two_passes() {
    let existing_series = vec![s("s1"), s("s2"), s("s3")];
    let books = vec![
        StoredBookRow { book_id: s("b1"), series_id: s("s1") },
        StoredBookRow { book_id: s("b2"), series_id: s("s2") },
        StoredBookRow { book_id: s("b3"), series_id: s("s2") },
        StoredBookRow { book_id: s("b4"), series_id: s("s3") },
    ];
    let plan = plan_missing_scan_rows(&existing_series, &books, &vec![s("s1"), s("s3")], &vec![s("b1"), s("b4")]);
    assert_eq!(plan.missing_series_ids, vec![s("s2")]);
    let in_missing: Vec<String> = plan.books_in_missing_series.iter().map(|b| b.book_id.clone()).collect();
    assert_eq!(in_missing, vec![s("b2"), s("b3")]);
    assert!(plan.other_missing_books.is_empty());
    assert_eq!(plan.active_book_ids, vec![s("b1"), s("b2"), s("b3"), s("b4")]);

    let plan = plan_missing_scan_rows(&existing_series, &books, &vec![s("s1"), s("s2"), s("s3")], &vec![s("b1")]);
    assert!(plan.missing_series_ids.is_empty());
    let other: Vec<String> = plan.other_missing_books.iter().map(|b| b.book_id.clone()).collect();
    assert_eq!(other, vec![s("b2"), s("b3"), s("b4")]);
}

#[test]
fn books_are_written_when_their_series_syncs_or_they_are_new() {
    let active = vec![s("b1")];
    assert!(book_requires_upsert(true, "b1", &active));
    assert!(!book_requires_upsert(false, "b1", &active));
    assert!(book_requires_upsert(false, "b2", &active));
}

#[test]
fn books_are_renumbered_by_position() {
    let d = renumber_book(0, 1, &s("1"), false);
    assert_eq!(d.new_number, 1);
    assert!(!d.update_book_number && !d.metadata_number_changed);
    let d = renumber_book(11, 3, &s("3"), false);
    assert_eq!(d.new_number, 12);
    assert!(d.update_book_number);
    assert_eq!(d.metadata_number, "12");
    assert!(d.metadata_number_changed);
    let d = renumber_book(11, 3, &s("3"), true);
    assert_eq!(d.metadata_number, "3");
    assert!(!d.metadata_number_changed);
}

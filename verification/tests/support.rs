use komga_infra::metadata_support::{
    canonicalize_string_set, compute_series_from_series_and_volume, dedupe_strings_preserve_order,
    is_valid_calendar_date, nonblank, normalize_comicinfo_age_rating, normalize_isbn13,
    split_comicinfo_list,
};

fn strings(v: &[&str]) -> Vec<String> {
    v.iter().map(|s| s.to_string()).collect()
}

#[test]
fn calendar_dates_follow_the_gregorian_rules() {
    assert!(is_valid_calendar_date(2000, 2, 29));
    assert!(!is_valid_calendar_date(1900, 2, 29));
    assert!(is_valid_calendar_date(2024, 2, 29));
    assert!(!is_valid_calendar_date(2023, 2, 29));
    assert!(!is_valid_calendar_date(2023, 4, 31));
    assert!(is_valid_calendar_date(2023, 12, 31));
    assert!(!is_valid_calendar_date(2023, 0, 1));
    assert!(!is_valid_calendar_date(2023, 13, 1));
    assert!(!is_valid_calendar_date(2023, 1, 0));
    assert!(is_valid_calendar_date(-4, 2, 29));
}

#[test]
fn isbn13_normalization() {
    assert_eq!(normalize_isbn13("978 0 306 40615 7").as_deref(), Some("9780306406157"));
    assert_eq!(normalize_isbn13("9790306406157").as_deref(), None);
    assert_eq!(normalize_isbn13("9790306406156").as_deref(), Some("9790306406156"));
    assert_eq!(normalize_isbn13("0306406152"), None);
    assert_eq!(normalize_isbn13("97803064061X7"), None);
    let again = normalize_isbn13("978-0-306-40615-7").unwrap();
    assert_eq!(normalize_isbn13(&again).as_deref(), Some(again.as_str()));
}

#[test]
fn names_are_canonicalized_split_and_deduplicated() {
    assert_eq!(canonicalize_string_set(&strings(&[" B ", "a", "A", "  "])), strings(&["a", "b"]));
    let once = canonicalize_string_set(&strings(&["Zed", "alpha"]));
    assert_eq!(canonicalize_string_set(&once), once);
    assert_eq!(split_comicinfo_list(&Some(" a, ,b ,".to_string())), strings(&["a", "b"]));
    assert!(split_comicinfo_list(&None).is_empty());
    assert_eq!(dedupe_strings_preserve_order(&strings(&["b", "a", "b", "c", "a"])), strings(&["b", "a", "c"]));
    assert_eq!(nonblank("  x y ").as_deref(), Some("x y"));
    assert_eq!(nonblank(" \n "), None);
}

#[test]
fn series_volume_and_age_ratings() {
    assert_eq!(compute_series_from_series_and_volume(Some("S".to_string()), Some(1)).as_deref(), Some("S"));
    assert_eq!(compute_series_from_series_and_volume(Some("S".to_string()), None).as_deref(), Some("S"));
    assert_eq!(compute_series_from_series_and_volume(Some("S".to_string()), Some(-2)).as_deref(), Some("S (-2)"));
    assert_eq!(compute_series_from_series_and_volume(None, Some(2)), None);
    assert_eq!(normalize_comicinfo_age_rating(" mature 17+ "), Some(17));
    assert_eq!(normalize_comicinfo_age_rating("Everyone"), Some(0));
    assert_eq!(normalize_comicinfo_age_rating("Rating Pending"), None);
    assert_eq!(normalize_comicinfo_age_rating("Adults Only 18+"), Some(18));
}

use komga_infra::epub::strip_markup_tags;
use komga_infra::metadata_support::{canonicalize_string_set, dedupe_strings_preserve_order, normalize_isbn13};
use komga_infra::thumbnails::{thumbnail_selection_target, ThumbnailRow};
use komga_infra::transient::known_transient_media_type;

#[test]
fn reported_media_types_are_stable() {
    for m in ["image/jpeg", "text/html", "", "application/octet-stream"] {
        let once = known_transient_media_type(m);
        assert_eq!(known_transient_media_type(once), once);
    }
}

#[test]
fn stripped_descriptions_hold_no_tags() {
    for s in ["<a>b</a>", "x > y < z", "<<>>", "plain"] {
        let out = strip_markup_tags(s);
        assert!(!out.contains('<') && !out.contains('>'), "{out}");
    }
}

#[test]
fn deduplicated_names_repeat_nothing() {
    let names: Vec<String> = ["x", "y", "x", "x", "z", "y"].iter().map(|s| s.to_string()).collect();
    let out = dedupe_strings_preserve_order(&names);
    let mut sorted = out.clone();
    sorted.sort();
    sorted.dedup();
    assert_eq!(sorted.len(), out.len());
}

#[test]
fn normalized_isbns_are_fixed_points() {
    let d = normalize_isbn13("979-10-90636-07-1").expect("valid ISBN-13");
    assert_eq!(normalize_isbn13(&d), Some(d.clone()));
}

#[test]
fn canonical_name_sets_are_fixed_points() {
    let names: Vec<String> = ["  Sci-Fi ", "sci-fi", "\u{a0}Drama", "", "   ", "COMEDY"].iter().map(|s| s.to_string()).collect();
    let once = canonicalize_string_set(&names);
    assert_eq!(once, vec!["comedy".to_string(), "drama".to_string(), "sci-fi".to_string()]);
    assert_eq!(canonicalize_string_set(&once), once);
}

#[test]
fn thumbnail_housekeeping_leaves_one_selection() {
    let rows = vec![
        ThumbnailRow { id: "a".to_string(), selected: true },
        ThumbnailRow { id: "b".to_string(), selected: false },
        ThumbnailRow { id: "c".to_string(), selected: true },
    ];
    let target = thumbnail_selection_target(&rows, false).expect("several selected");
    let selected = rows.iter().filter(|row| row.id == target).count();
    assert_eq!(selected, 1);
}

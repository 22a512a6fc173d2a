use komga_infra::archive::ZipArchiveError;
use komga_infra::epub::EpubError;
use komga_infra::identity::ApiKeyRequestError;
use komga_infra::import::ImportError;
use komga_infra::scan_discovery::ScanError;
use komga_infra::comicinfo::{parse_comicinfo_xml, ComicInfoDocument, ComicInfoField};
use komga_infra::comicinfo_source::{
    comicinfo_readlist_number, comicinfo_source, is_nested_comicinfo_entry, normalize_entry_name,
    rar_media_type_for_header, select_comicinfo_entry, ComicInfoSource,
};
use komga_infra::metadata_patch::{
    extract_comicinfo_authors, extract_comicinfo_book_patch, extract_comicinfo_isbn,
    extract_comicinfo_readlists, extract_comicinfo_release_date, extract_comicinfo_series_patch,
    extract_comicinfo_tags, mylar_age_rating_value, mylar_series_patch, MylarAgeRating,
    MylarSeriesMetadata, MylarStatus, SeriesReadingDirection,
};

fn doc() -> ComicInfoDocument {
    ComicInfoDocument::new()
}

#[test]
fn parses_entities_and_cdata_from_comicinfo_xml() {
    let document = parse_comicinfo_xml(
        br#"<ComicInfo><Summary><![CDATA[Summary & details]]></Summary><Genre>Manga, Movies &amp; TV</Genre></ComicInfo>"#,
    )
    .expect("ComicInfo XML should parse");

    assert_eq!(document.summary.as_deref(), Some("Summary & details"));
    assert_eq!(document.genre.as_deref(), Some("Manga, Movies & TV"));
}

#[test]
fn rejects_non_comicinfo_root() {
    let error = parse_comicinfo_xml(br#"<Metadata><Summary>wrong</Summary></Metadata>"#)
        .expect_err("non-ComicInfo root should fail");

    assert!(error.message().contains("expected 'ComicInfo'"));
}

#[test]
fn comicinfo_keeps_first_non_blank_value_of_a_field() {
    let document = parse_comicinfo_xml(
        br#"<ComicInfo><Title>  </Title><Title> First </Title><Title>Second</Title></ComicInfo>"#,
    )
    .expect("ComicInfo XML should parse");
    assert_eq!(document.title.as_deref(), Some("First"));

    let mut d = doc();
    d.set_field(ComicInfoField::Writer, "Alice".to_string());
    d.set_field(ComicInfoField::Writer, "Bob".to_string());
    assert_eq!(d.writer.as_deref(), Some("Alice"));
}

#[test]
fn comicinfo_rejects_incomplete_and_malformed_documents() {
    assert!(parse_comicinfo_xml(b"<ComicInfo><Title>x</Title>").is_err());
    assert!(parse_comicinfo_xml(b"<ComicInfo><Title>x</Wrong></ComicInfo>").is_err());
    assert!(parse_comicinfo_xml(b"").is_err());
}

#[test]
fn loads_root_comicinfo_before_nested_entries() {
    let names = vec![
        Some("nested/ComicInfo.xml".to_string()),
        Some("ComicInfo.xml".to_string()),
    ];
    assert_eq!(select_comicinfo_entry(&names), Some(1));
}

#[test]
fn loads_first_nested_comicinfo_when_root_is_absent() {
    let names = vec![
        None,
        Some("first/ComicInfo.xml".to_string()),
        Some("second/ComicInfo.xml".to_string()),
    ];
    assert_eq!(select_comicinfo_entry(&names), Some(1));
    let none = vec![Some("page.jpg".to_string()), Some("ComicInfo.xml.bak".to_string())];
    assert_eq!(select_comicinfo_entry(&none), None);
}

#[test]
fn nested_comicinfo_entries_and_separators() {
    assert!(is_nested_comicinfo_entry("a/b/ComicInfo.xml"));
    assert!(is_nested_comicinfo_entry("ComicInfo.xml"));
    assert!(!is_nested_comicinfo_entry("a/comicinfo.xml"));
    assert_eq!(normalize_entry_name("a\\b\\ComicInfo.xml"), "a/b/ComicInfo.xml");
}

#[test]
fn comicinfo_source_by_media_type() {
    assert_eq!(comicinfo_source("application/epub+zip"), ComicInfoSource::Zip);
    assert_eq!(comicinfo_source("application/x-rar-compressed; version=5"), ComicInfoSource::Rar);
    assert_eq!(comicinfo_source("application/pdf"), ComicInfoSource::Unsupported);
}

#[test]
fn detect_rar_media_type_recognizes_versioned_headers() {
    let rar4: &[u8] = b"Rar!\x1A\x07\x00";
    let rar5: &[u8] = b"Rar!\x1A\x07\x01\x00";
    assert_eq!(rar_media_type_for_header(rar4), "application/x-rar-compressed; version=4");
    assert_eq!(rar_media_type_for_header(rar5), "application/x-rar-compressed; version=5");
    assert_eq!(rar_media_type_for_header(b"Rar!"), "application/x-rar-compressed");
}

#[test]
fn readlist_number_never_reuses_a_taken_position() {
    assert_eq!(comicinfo_readlist_number(-1, None, false), 0);
    assert_eq!(comicinfo_readlist_number(4, Some(2), false), 2);
    assert_eq!(comicinfo_readlist_number(4, Some(2), true), 5);
}

#[test]
fn release_date_defaults_month_and_day_and_rejects_impossible_days() {
    let mut d = doc();
    d.year = Some("2020".to_string());
    assert_eq!(extract_comicinfo_release_date(&d).as_deref(), Some("2020-01-01"));
    d.month = Some("2".to_string());
    d.day = Some("29".to_string());
    assert_eq!(extract_comicinfo_release_date(&d).as_deref(), Some("2020-02-29"));
    d.year = Some("2021".to_string());
    assert_eq!(extract_comicinfo_release_date(&d), None);
    d.year = Some("twenty".to_string());
    assert_eq!(extract_comicinfo_release_date(&d), None);
    d.year = Some("99".to_string());
    d.month = Some("x".to_string());
    d.day = None;
    assert_eq!(extract_comicinfo_release_date(&d).as_deref(), Some("0099-01-01"));
}

#[test]
fn authors_follow_the_credit_fields_in_order() {
    let mut d = doc();
    d.penciller = Some("Pen A, , Pen B".to_string());
    d.writer = Some("Writer".to_string());
    d.cover_artist = Some("Cover".to_string());
    let authors = extract_comicinfo_authors(&d).expect("authors");
    let pairs: Vec<(String, String)> = authors.into_iter().map(|a| (a.name, a.role)).collect();
    assert_eq!(
        pairs,
        vec![
            ("Writer".to_string(), "writer".to_string()),
            ("Pen A".to_string(), "penciller".to_string()),
            ("Pen B".to_string(), "penciller".to_string()),
            ("Cover".to_string(), "cover".to_string()),
        ]
    );
    assert!(extract_comicinfo_authors(&doc()).is_none());
}

#[test]
fn tags_are_lowercased_sorted_and_unique() {
    let mut d = doc();
    d.tags = Some("Zeta, alpha,ALPHA , ,Beta".to_string());
    assert_eq!(
        extract_comicinfo_tags(&d),
        Some(vec!["alpha".to_string(), "beta".to_string(), "zeta".to_string()])
    );
    d.tags = Some(" , ".to_string());
    assert_eq!(extract_comicinfo_tags(&d), None);
}

#[test]
fn isbn_comes_from_the_gtin() {
    let mut d = doc();
    d.gtin = Some("978-0-306-40615-7".to_string());
    assert_eq!(extract_comicinfo_isbn(&d).as_deref(), Some("9780306406157"));
    d.gtin = Some("978-0-306-40615-8".to_string());
    assert_eq!(extract_comicinfo_isbn(&d), None);
}

#[test]
fn book_patch_keeps_only_http_links_with_a_host() {
    let mut d = doc();
    d.title = Some("Title".to_string());
    d.number = Some("3".to_string());
    d.web = Some("https://example.com/a ftp://files.example.com/b  not-a-url http://comics.example.org".to_string());
    let patch = extract_comicinfo_book_patch(&d);
    assert_eq!(patch.title.as_deref(), Some("Title"));
    assert_eq!(patch.number.as_deref(), Some("3"));
    let links: Vec<(String, String)> = patch.links.expect("links").into_iter().map(|l| (l.label, l.url)).collect();
    assert_eq!(
        links,
        vec![
            ("example.com".to_string(), "https://example.com/a".to_string()),
            ("comics.example.org".to_string(), "http://comics.example.org".to_string()),
        ]
    );
    assert!(patch.authors.is_none());
    assert!(patch.release_date.is_none());
}

#[test]
fn readlists_pair_story_arcs_with_numbers() {
    let mut d = doc();
    d.alternate_series = Some("Alt".to_string());
    d.alternate_number = Some("7".to_string());
    d.story_arc = Some("Arc A, Arc B, Arc C".to_string());
    d.story_arc_number = Some("1, x".to_string());
    let lists: Vec<(String, Option<i64>)> = extract_comicinfo_readlists(&d).into_iter().map(|e| (e.name, e.number)).collect();
    assert_eq!(lists, vec![("Alt".to_string(), Some(7)), ("Arc A".to_string(), Some(1))]);

    d.story_arc_number = None;
    d.alternate_series = None;
    let lists: Vec<(String, Option<i64>)> = extract_comicinfo_readlists(&d).into_iter().map(|e| (e.name, e.number)).collect();
    assert_eq!(
        lists,
        vec![("Arc A".to_string(), None), ("Arc B".to_string(), None), ("Arc C".to_string(), None)]
    );
}

#[test]
fn series_patch_reads_volume_direction_genres_and_groups() {
    let mut d = doc();
    d.series = Some("Saga".to_string());
    d.volume = Some("2".to_string());
    d.manga = Some(" YesAndRightToLeft ".to_string());
    d.genre = Some("Sci-Fi, fantasy, sci-fi".to_string());
    d.series_group = Some("G1, G2, G1".to_string());
    d.age_rating = Some("Teen".to_string());
    d.count = Some("12".to_string());
    d.language_iso = Some(" en ".to_string());
    let p = extract_comicinfo_series_patch(&d, true);
    assert_eq!(p.title.as_deref(), Some("Saga (2)"));
    assert_eq!(p.title_sort.as_deref(), Some("Saga (2)"));
    assert_eq!(p.reading_direction, Some(SeriesReadingDirection::RightToLeft));
    assert_eq!(p.genres, Some(vec!["fantasy".to_string(), "sci-fi".to_string()]));
    assert_eq!(p.collections, vec!["G1".to_string(), "G2".to_string()]);
    assert_eq!(p.age_rating, Some(13));
    assert_eq!(p.total_book_count, Some(12));
    assert_eq!(p.language.as_deref(), Some("en"));

    let p = extract_comicinfo_series_patch(&d, false);
    assert_eq!(p.title.as_deref(), Some("Saga"));
    d.count = Some("-1".to_string());
    d.manga = Some("No".to_string());
    let p = extract_comicinfo_series_patch(&d, true);
    assert_eq!(p.total_book_count, None);
    assert_eq!(p.reading_direction, Some(SeriesReadingDirection::LeftToRight));
}

#[test]
fn mylar_series_metadata_becomes_a_series_patch() {
    assert_eq!(mylar_age_rating_value(MylarAgeRating::Adult), 18);
    assert_eq!(mylar_age_rating_value(MylarAgeRating::Nine), 9);
    let m = MylarSeriesMetadata {
        publisher: "Pub".to_string(),
        name: "Name".to_string(),
        year: 1999,
        description_text: Some("plain".to_string()),
        description_formatted: None,
        volume: Some(3),
        age_rating: Some(MylarAgeRating::Twelve),
        total_issues: 42,
        status: MylarStatus::Ended,
    };
    let p = mylar_series_patch(m.clone());
    assert_eq!(p.title.as_deref(), Some("Name (1999)"));
    assert_eq!(p.status.as_deref(), Some("ENDED"));
    assert_eq!(p.summary.as_deref(), Some("plain"));
    assert_eq!(p.age_rating, Some(12));
    assert_eq!(p.total_book_count, Some(42));
    let mut first = m;
    first.volume = Some(1);
    first.status = MylarStatus::Continuing;
    first.description_formatted = Some("<b>rich</b>".to_string());
    first.total_issues = -3;
    let p = mylar_series_patch(first);
    assert_eq!(p.title.as_deref(), Some("Name"));
    assert_eq!(p.status.as_deref(), Some("ONGOING"));
    assert_eq!(p.summary.as_deref(), Some("<b>rich</b>"));
    assert_eq!(p.total_book_count, None);
}

#[test]
fn character_references_and_unknown_entities_in_comicinfo() {
    let document = parse_comicinfo_xml(br#"<ComicInfo><Title>A&#66;&#x43;&lt;</Title></ComicInfo>"#)
        .expect("character references should resolve");
    assert_eq!(document.title.as_deref(), Some("ABC<"));
    let error = parse_comicinfo_xml(br#"<ComicInfo><Title>A&foo;</Title></ComicInfo>"#)
        .expect_err("an unknown entity should fail");
    assert_eq!(error.message(), "unknown ComicInfo.xml entity '&foo;'");
}

#[test]
fn error_messages_describe_the_failure() {
    assert_eq!(
        ScanError::RootInspection("/lib".to_string(), "denied".to_string()).message(),
        "failed to inspect library scan root '/lib': denied"
    );
    assert_eq!(ScanError::NoFileStem("/x".to_string()).message(), "path '/x' has no valid UTF-8 file stem");
    assert_eq!(
        ImportError::UpgradeSeriesMismatch("s1".to_string(), "s2".to_string()).message(),
        "upgrade target series mismatch for import: expected s1, got s2"
    );
    assert_eq!(ZipArchiveError::EntryTooLarge("big.bin".to_string()).message(), "zip entry too large: big.bin");
    assert_eq!(EpubError::AttributeValue.message(), "failed to parse EPUB package document attribute value: ");
    assert_eq!(ApiKeyRequestError::BlankComment.message(), "api key comment must not be blank");
}

use komga_infra::epub::{
    extract_epub_book_patch, extract_epub_series_patch, map_epub_author_role, normalize_epub_date,
    normalize_epub_identifier_isbn, normalize_epub_refines, strip_markup_tags,
    xml_name_matches_local,
};
use komga_infra::metadata_patch::SeriesReadingDirection;

#[test]
fn extract_epub_book_patch_rejects_malformed_package_document() {
    let error = match extract_epub_book_patch(
        br#"<package><metadata><dc:title><</dc:title></metadata></package>"#,
    ) {
        Ok(_) => panic!("malformed EPUB package document should fail book metadata parsing"),
        Err(error) => error,
    };

    assert!(error.message().contains("EPUB package document"), "{}", error.message());
}

#[test]
fn extract_epub_book_patch_rejects_malformed_package_attributes() {
    let error = match extract_epub_book_patch(
        br#"<package><metadata><dc:creator id= role="aut">Jane</dc:creator></metadata></package>"#,
    ) {
        Ok(_) => panic!("malformed EPUB attribute should fail book metadata parsing"),
        Err(error) => error,
    };

    assert!(error.message().contains("EPUB package document"), "{}", error.message());
}

#[test]
fn extract_epub_series_patch_rejects_malformed_package_document() {
    let error = match extract_epub_series_patch(
        br#"<package><metadata><dc:publisher><</dc:publisher></metadata></package>"#,
    ) {
        Ok(_) => panic!("malformed EPUB package document should fail series metadata parsing"),
        Err(error) => error,
    };

    assert!(error.message().contains("EPUB package document"), "{}", error.message());
}

#[test]
fn extract_epub_series_patch_rejects_malformed_package_attributes() {
    let error = match extract_epub_series_patch(
        br#"<package><spine page-progression-direction= /></package>"#,
    ) {
        Ok(_) => panic!("malformed EPUB attribute should fail series metadata parsing"),
        Err(error) => error,
    };

    assert!(error.message().contains("EPUB package document"), "{}", error.message());
}

const PACKAGE: &[u8] = br##"<?xml version="1.0"?>
<package xmlns="http://www.idpf.org/2007/opf" version="3.0">
  <metadata xmlns:dc="http://purl.org/dc/elements/1.1/">
    <dc:title> The Book </dc:title>
    <dc:title>Ignored Second Title</dc:title>
    <dc:description><![CDATA[<p>First   line</p><p>second</p>]]></dc:description>
    <dc:date>2019-07-04T00:00:00Z</dc:date>
    <dc:identifier>urn:uuid:1234</dc:identifier>
    <dc:identifier>isbn:978-0-306-40615-7</dc:identifier>
    <dc:creator id="c1">Ann Author</dc:creator>
    <meta refines="#c1" property="role" scheme="marc:relators">ill</meta>
    <dc:creator role="trl">Tom Translator</dc:creator>
    <dc:creator id="c3">Wendy Writer</dc:creator>
    <meta property="belongs-to-collection" id="coll">The Saga</meta>
    <meta refines="#coll" property="group-position">4</meta>
    <dc:publisher>Pub House</dc:publisher>
    <dc:language>fr</dc:language>
    <dc:subject>Fantasy</dc:subject>
    <dc:subject>fantasy</dc:subject>
    <dc:subject>Adventure</dc:subject>
  </metadata>
  <spine page-progression-direction="rtl"/>
</package>"##;

#[test]
fn extract_epub_book_patch_reads_package_metadata() {
    let patch = extract_epub_book_patch(PACKAGE).expect("package document should parse");
    assert_eq!(patch.title.as_deref(), Some("The Book"));
    assert_eq!(patch.summary.as_deref(), Some("First line second"));
    assert_eq!(patch.release_date.as_deref(), Some("2019-07-04"));
    assert_eq!(patch.isbn.as_deref(), Some("9780306406157"));
    assert_eq!(patch.number.as_deref(), Some("4"));
    let authors: Vec<(String, String)> = patch.authors.expect("authors").into_iter().map(|a| (a.name, a.role)).collect();
    assert_eq!(
        authors,
        vec![
            ("Ann Author".to_string(), "writer".to_string()),
            ("Tom Translator".to_string(), "translator".to_string()),
            ("Wendy Writer".to_string(), "writer".to_string()),
        ]
    );
    assert!(patch.tags.is_none());
    assert!(patch.links.is_none());
}

#[test]
fn epub_roles_refined_before_their_creator_apply() {
    let doc = br##"<package><metadata>
        <meta refines="#c1" property="role" scheme="marc:relators" content="ill"/>
        <dc:creator id="c1">Ann</dc:creator>
        <meta refines="c2" property="role" scheme="other">edt</meta>
        <dc:creator id="c2">Bob</dc:creator>
    </metadata></package>"##;
    let patch = extract_epub_book_patch(doc).expect("package document should parse");
    let authors: Vec<(String, String)> = patch.authors.expect("authors").into_iter().map(|a| (a.name, a.role)).collect();
    assert_eq!(
        authors,
        vec![("Ann".to_string(), "penciller".to_string()), ("Bob".to_string(), "writer".to_string())]
    );
}

#[test]
fn extract_epub_series_patch_reads_collection_and_direction() {
    let patch = extract_epub_series_patch(PACKAGE).expect("package document should parse");
    assert_eq!(patch.title.as_deref(), Some("The Saga"));
    assert_eq!(patch.title_sort.as_deref(), Some("The Saga"));
    assert_eq!(patch.publisher.as_deref(), Some("Pub House"));
    assert_eq!(patch.language.as_deref(), Some("fr"));
    assert_eq!(patch.genres, Some(vec!["adventure".to_string(), "fantasy".to_string()]));
    assert_eq!(patch.reading_direction, Some(SeriesReadingDirection::RightToLeft));
    assert!(patch.status.is_none());
    assert!(patch.collections.is_empty());
}

#[test]
fn empty_package_gives_an_empty_patch() {
    let patch = extract_epub_book_patch(b"<package/>").expect("package document should parse");
    assert!(patch.title.is_none() && patch.authors.is_none() && patch.number.is_none());
    let series = extract_epub_series_patch(b"<package/>").expect("package document should parse");
    assert!(series.title.is_none() && series.genres.is_none() && series.reading_direction.is_none());
}

#[test]
fn epub_dates_roles_refines_and_names() {
    assert_eq!(normalize_epub_date(" 2020-02-29 ").as_deref(), Some("2020-02-29"));
    assert_eq!(normalize_epub_date("2021-02-29"), None);
    assert_eq!(normalize_epub_date("2020-13-01"), None);
    assert_eq!(normalize_epub_date("2020"), None);
    assert_eq!(normalize_epub_date("2020/01/01"), None);
    assert_eq!(map_epub_author_role(None), "writer");
    assert_eq!(map_epub_author_role(Some(" CLR ")), "colorist");
    assert_eq!(map_epub_author_role(Some("art")), "penciller");
    assert_eq!(map_epub_author_role(Some("unknown")), "writer");
    assert_eq!(normalize_epub_refines("  ##id "), "id");
    assert!(xml_name_matches_local("dc:title", "title"));
    assert!(!xml_name_matches_local("title", "dc:title"));
    assert_eq!(normalize_epub_identifier_isbn(" ISBN:9780306406157 ").as_deref(), Some("9780306406157"));
    assert_eq!(normalize_epub_identifier_isbn("urn:uuid:1"), None);
}

#[test]
fn markup_is_stripped_to_single_spaced_words() {
    assert_eq!(strip_markup_tags("<p>Hello <b>bold</b>\n world</p>"), "Hello bold world");
    assert_eq!(strip_markup_tags("   "), "");
    let stripped = strip_markup_tags("a<x>b>c<");
    assert!(!stripped.contains('<') && !stripped.contains('>'));
    assert_eq!(stripped, "a b c");
}

use std::io::{Cursor, Read};

use komga_infra::archive::{build_stored_zip_archive, crc32_ieee, push_u16_le, push_u32_le, StoredArchiveEntry};

#[test]
fn crc32_of_known_inputs() {
    assert_eq!(crc32_ieee(b"123456789"), 0xCBF4_3926);
    assert_eq!(crc32_ieee(b""), 0);
}

#[test]
fn little_endian_fields() {
    let mut buffer = vec![9u8];
    push_u16_le(&mut buffer, 0x0102);
    push_u32_le(&mut buffer, 0x0304_0506);
    assert_eq!(buffer, vec![9, 0x02, 0x01, 0x06, 0x05, 0x04, 0x03]);
}

#[test]
fn stored_archives_read_back_with_the_zip_crate() {
    let bytes = match build_stored_zip_archive(vec![
        StoredArchiveEntry { file_name: "page-1.jpg".to_string(), bytes: b"first page".to_vec() },
        StoredArchiveEntry { file_name: "dir/ComicInfo.xml".to_string(), bytes: b"<ComicInfo/>".to_vec() },
    ]) {
        Ok(bytes) => bytes,
        Err(error) => panic!("archive should build: {}", error.message()),
    };
    assert_eq!(&bytes[0..4], b"PK\x03\x04");
    let mut archive = zip::ZipArchive::new(Cursor::new(bytes)).expect("archive should open");
    assert_eq!(archive.len(), 2);
    let mut first = archive.by_index(0).expect("first entry");
    assert_eq!(first.name().unwrap(), "page-1.jpg");
    let mut content = Vec::new();
    first.read_to_end(&mut content).expect("first entry should read");
    assert_eq!(content, b"first page");
    drop(first);
    let mut second = archive.by_name("dir/ComicInfo.xml").expect("second entry");
    let mut content = String::new();
    second.read_to_string(&mut content).expect("second entry should read");
    assert_eq!(content, "<ComicInfo/>");
}

#[test]
fn empty_stored_archive_is_an_end_record() {
    let bytes = match build_stored_zip_archive(vec![]) {
        Ok(bytes) => bytes,
        Err(error) => panic!("archive should build: {}", error.message()),
    };
    assert_eq!(bytes.len(), 22);
    assert_eq!(&bytes[0..4], b"PK\x05\x06");
}

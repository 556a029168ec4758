use usdz::zip::parse_zip_file;
use usdz::{ParseError, Usd, UsdPart, UsdzFile, ZipFilePart};

fn u16le(v: &mut Vec<u8>, x: u16) {
    v.extend_from_slice(&x.to_le_bytes());
}

fn u32le(v: &mut Vec<u8>, x: u32) {
    v.extend_from_slice(&x.to_le_bytes());
}

fn local(name: &[u8], extra: &[u8], data: &[u8], method: u16) -> Vec<u8> {
    let mut v = vec![0x50, 0x4B, 0x03, 0x04];
    u16le(&mut v, 20);
    u16le(&mut v, 0);
    u16le(&mut v, method);
    u16le(&mut v, 0x6000);
    u16le(&mut v, 0x5821);
    u32le(&mut v, 0xDEADBEEF);
    u32le(&mut v, data.len() as u32);
    u32le(&mut v, data.len() as u32);
    u16le(&mut v, name.len() as u16);
    u16le(&mut v, extra.len() as u16);
    v.extend_from_slice(name);
    v.extend_from_slice(extra);
    v.extend_from_slice(data);
    v
}

fn central(name: &[u8], comment: &[u8], offset: u32) -> Vec<u8> {
    let mut v = vec![0x50, 0x4B, 0x01, 0x02];
    u16le(&mut v, 0x031E);
    u16le(&mut v, 20);
    u16le(&mut v, 0);
    u16le(&mut v, 0);
    u16le(&mut v, 0);
    u16le(&mut v, 0);
    u32le(&mut v, 0);
    u32le(&mut v, 0);
    u32le(&mut v, 0);
    u16le(&mut v, name.len() as u16);
    u16le(&mut v, 0);
    u16le(&mut v, comment.len() as u16);
    u16le(&mut v, 0);
    u16le(&mut v, 1);
    u32le(&mut v, 0x81A4_0000);
    u32le(&mut v, offset);
    v.extend_from_slice(name);
    v.extend_from_slice(comment);
    v
}

fn end(entries: u16, comment: &[u8]) -> Vec<u8> {
    let mut v = vec![0x50, 0x4B, 0x05, 0x06];
    u16le(&mut v, 0);
    u16le(&mut v, 0);
    u16le(&mut v, entries);
    u16le(&mut v, entries);
    u32le(&mut v, 0);
    u32le(&mut v, 0);
    u16le(&mut v, comment.len() as u16);
    v.extend_from_slice(comment);
    v
}

/// A store-mode archive of the given entries, with its central directory.
fn archive(entries: &[(&str, &[u8])]) -> Vec<u8> {
    let mut v = Vec::new();
    let mut offsets = Vec::new();
    for (name, data) in entries {
        offsets.push(v.len() as u32);
        v.extend(local(name.as_bytes(), &[], data, 0));
    }
    for ((name, _), off) in entries.iter().zip(offsets) {
        v.extend(central(name.as_bytes(), &[], off));
    }
    v.extend(end(entries.len() as u16, &[]));
    v
}

const BASIC_USD: &str = "#usda 1.0\ndef Xform \"hello\" {\n    def Sphere \"world\" {\n    }\n}\n";

fn basic_usdz() -> Vec<u8> {
    archive(&[("basic/basic.usd", BASIC_USD.as_bytes())])
}

#[test]
fn basic_unzip() {
    let buffer = basic_usdz();
    let zip_file = parse_zip_file(&buffer);
    assert_eq!(zip_file.is_ok(), true);
}

#[test]
fn parse_usd() {
    let buffer = basic_usdz();
    let zip_file = UsdzFile::parse(&buffer).unwrap();
    let files = zip_file.get_files();
    assert_eq!(files.len(), 1);
    let first_file = files.get(0).unwrap();
    assert_eq!(first_file, "basic/basic.usd");
    let file_data = zip_file.get_file_data(first_file).unwrap();
    let usd = Usd::parse(&file_data).unwrap();
    assert_eq!(usd.parts.len(), 2);
    if let UsdPart::Comment(comment) = &usd.parts[0] {
        assert_eq!(comment.0, "usda 1.0");
    } else {
        panic!("Expected comment");
    }
    if let UsdPart::Node(node) = &usd.parts[1] {
        assert_eq!(node.name, "hello");
        assert_eq!(node.kind, "Xform");
        assert_eq!(node.properties.len(), 0);
        assert_eq!(node.children.len(), 1);
        if let UsdPart::Node(child) = &node.children[0] {
            assert_eq!(child.name, "world");
            assert_eq!(child.kind, "Sphere");
            assert_eq!(child.properties.len(), 0);
            assert_eq!(child.children.len(), 0);
        } else {
            panic!("Expected node");
        }
    } else {
        panic!("Expected node");
    }
}

#[test]
fn entries_keep_archive_order() {
    let buffer = archive(&[("b.usd", b"B"), ("a/x.png", b"png"), ("c.txt", b"")]);
    let z = UsdzFile::parse(&buffer).unwrap();
    assert_eq!(z.get_files(), vec!["b.usd".to_string(), "a/x.png".to_string(), "c.txt".to_string()]);
    assert_eq!(z.zip_file.parts.len(), 7);
    assert!(matches!(z.zip_file.parts[3], ZipFilePart::CentralDirectoryHeader(_)));
    assert!(matches!(z.zip_file.parts[6], ZipFilePart::EndOfCentralDirectoryRecord(_)));
}

#[test]
fn stored_payload_round_trips() {
    let buffer = archive(&[("one", b"first"), ("two", &[0u8, 1, 2, 255])]);
    let z = UsdzFile::parse(&buffer).unwrap();
    assert_eq!(z.get_file_data("one"), Some(b"first".to_vec()));
    assert_eq!(z.get_file_data("two"), Some(vec![0u8, 1, 2, 255]));
    assert_eq!(z.get_file_data("c.txt"), None);
}

#[test]
fn first_entry_of_a_name_wins() {
    let buffer = archive(&[("dup", b"1"), ("dup", b"2")]);
    let z = UsdzFile::parse(&buffer).unwrap();
    assert_eq!(z.get_file_data("dup"), Some(b"1".to_vec()));
}

#[test]
fn absent_path_is_none() {
    let z = UsdzFile::parse(&basic_usdz()).unwrap();
    assert_eq!(z.get_file_data("basic/other.usd"), None);
    assert_eq!(z.get_file_data("BASIC/BASIC.USD"), None);
    assert_eq!(z.get_file_data(""), None);
}

#[test]
fn truncated_header_is_truncated_input() {
    let record = local(b"name.usd", b"xy", b"payload", 0);
    for k in 0..record.len() {
        assert_eq!(parse_zip_file(&record[..k]).err(), Some(ParseError::TruncatedInput), "cut at {}", k);
    }
    assert!(parse_zip_file(&record).is_ok());
    let cd = central(b"name.usd", b"note", 0);
    for k in 0..cd.len() {
        assert_eq!(parse_zip_file(&cd[..k]).err(), Some(ParseError::TruncatedInput));
    }
    let e = end(0, b"zip comment");
    for k in 0..e.len() {
        assert_eq!(parse_zip_file(&e[..k]).err(), Some(ParseError::TruncatedInput));
    }
}

#[test]
fn empty_archive_buffer_is_truncated() {
    assert_eq!(UsdzFile::parse(&[]).err(), Some(ParseError::TruncatedInput));
}

#[test]
fn unknown_signature_is_rejected() {
    let mut buffer = basic_usdz();
    buffer[2] = 0x07;
    assert_eq!(UsdzFile::parse(&buffer).err(), Some(ParseError::UnrecognizedSignature));
    let mut later = archive(&[("a", b"1")]);
    later.extend_from_slice(&[1, 2, 3, 4, 5]);
    assert_eq!(parse_zip_file(&later).err(), Some(ParseError::UnrecognizedSignature));
}

#[test]
fn trailing_bytes_after_a_record_fail() {
    let mut buffer = archive(&[("a", b"1")]);
    buffer.extend_from_slice(&[0x50, 0x4B]);
    assert_eq!(parse_zip_file(&buffer).err(), Some(ParseError::TruncatedInput));
}

#[test]
fn non_utf8_name_is_invalid_encoding() {
    let buffer = local(&[0x66, 0xFF, 0x66], &[], b"x", 0);
    assert_eq!(parse_zip_file(&buffer).err(), Some(ParseError::InvalidEncoding));
}

#[test]
fn utf8_name_is_decoded() {
    let buffer = archive(&[("dé/ü.usd", b"x")]);
    let z = UsdzFile::parse(&buffer).unwrap();
    assert_eq!(z.get_files(), vec!["dé/ü.usd".to_string()]);
    assert_eq!(z.get_file_data("dé/ü.usd"), Some(b"x".to_vec()));
}

#[test]
fn deflated_entry_has_no_payload() {
    let mut buffer = local(b"packed.usd", &[], b"", 8);
    buffer.extend(end(1, &[]));
    let z = UsdzFile::parse(&buffer).unwrap();
    assert_eq!(z.get_files(), vec!["packed.usd".to_string()]);
    assert_eq!(z.get_file_data("packed.usd"), None);
    if let ZipFilePart::LocalFileHeader(h) = &z.zip_file.parts[0] {
        assert_eq!(h.compression_method, 8);
        assert_eq!(h.uncompressed_data, None);
    } else {
        panic!("Expected local file header");
    }
}

#[test]
fn header_fields_are_little_endian() {
    let mut buffer = local(b"n", b"EX", b"data", 0);
    buffer.extend(central(b"n", b"remark", 0x01020304));
    buffer.extend(end(1, b"c"));
    let z = parse_zip_file(&buffer).unwrap();
    match &z.parts[0] {
        ZipFilePart::LocalFileHeader(h) => {
            assert_eq!(h.signature, 0x04034b50);
            assert_eq!(h.version_needed, 20);
            assert_eq!(h.last_modified_time, 0x6000);
            assert_eq!(h.last_modified_date, 0x5821);
            assert_eq!(h.crc32, 0xDEADBEEF);
            assert_eq!(h.uncompressed_size, 4);
            assert_eq!(h.file_name_length, 1);
            assert_eq!(h.extra_field_length, 2);
            assert_eq!(h.extra_field, Some(b"EX".to_vec()));
            assert_eq!(h.uncompressed_data, Some(b"data".to_vec()));
        }
        _ => panic!("Expected local file header"),
    }
    match &z.parts[1] {
        ZipFilePart::CentralDirectoryHeader(h) => {
            assert_eq!(h.version_made_by, 0x031E);
            assert_eq!(h.internal_file_attributes, 1);
            assert_eq!(h.external_file_attributes, 0x81A4_0000);
            assert_eq!(h.relative_offset_of_local_header, 0x01020304);
            assert_eq!(h.file_name, "n");
            assert_eq!(h.extra_field, None);
            assert_eq!(h.file_comment, Some(b"remark".to_vec()));
        }
        _ => panic!("Expected central directory header"),
    }
    match &z.parts[2] {
        ZipFilePart::EndOfCentralDirectoryRecord(h) => {
            assert_eq!(h.total_number_of_entries_in_the_central_directory, 1);
            assert_eq!(h.zip_file_comment_length, 1);
            assert_eq!(h.zip_file_comment, Some(b"c".to_vec()));
        }
        _ => panic!("Expected end record"),
    }
}

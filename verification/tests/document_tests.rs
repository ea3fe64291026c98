// Tests over whole documents: a synthetic book is assembled in memory with
// the PDB container, MOBI header, EXTH entries and a compressed text record,
// then opened and queried through the public API.

use mobi::{get_asin, get_author, get_contributer, get_copyright, get_description, get_imprint, get_isbn,
    get_language, get_publish_date, get_publisher, get_review, get_subject, get_text, get_title,
    open, palmdoc_compress, ExtractionError, FieldAbsent, OpenError};

fn set_be16(v: &mut Vec<u8>, pos: usize, x: u16) {
    v[pos] = (x >> 8) as u8;
    v[pos + 1] = x as u8;
}

fn set_be32(v: &mut Vec<u8>, pos: usize, x: u32) {
    v[pos] = (x >> 24) as u8;
    v[pos + 1] = (x >> 16) as u8;
    v[pos + 2] = (x >> 8) as u8;
    v[pos + 3] = x as u8;
}

fn push_be32(v: &mut Vec<u8>, x: u32) {
    let n = v.len();
    v.push(0);
    v.push(0);
    v.push(0);
    v.push(0);
    set_be32(v, n, x);
}

// Record 0: the fixed field table, then an EXTH block holding the given
// (tag, value) entries.
fn build_record0(
    compression: u16,
    text_length: u32,
    text_record_count: u16,
    exth: &[(u32, Vec<u8>)],
) -> Vec<u8> {
    let mut r = vec![0u8; 132];
    set_be16(&mut r, 0, compression);
    set_be32(&mut r, 4, text_length);
    set_be16(&mut r, 8, text_record_count);
    r[16..20].copy_from_slice(b"MOBI");
    set_be32(&mut r, 20, 116); // header length: EXTH begins at 16 + 116 = 132
    set_be32(&mut r, 28, 65001); // UTF-8 text encoding
    set_be32(&mut r, 128, 0x40); // EXTH flag
    let mut entries: Vec<u8> = Vec::new();
    for (tag, val) in exth {
        push_be32(&mut entries, *tag);
        push_be32(&mut entries, (8 + val.len()) as u32);
        entries.extend_from_slice(val);
    }
    r.extend_from_slice(b"EXTH");
    push_be32(&mut r, (12 + entries.len()) as u32);
    push_be32(&mut r, exth.len() as u32);
    r.extend_from_slice(&entries);
    r
}

// The PDB container: 78-byte header with the "BOOKMOBI" signature, the
// record count, one 8-byte descriptor per record, then the records.
fn build_doc(records: &[Vec<u8>]) -> Vec<u8> {
    let n = records.len();
    let mut v = vec![0u8; 78 + 8 * n];
    v[60..68].copy_from_slice(b"BOOKMOBI");
    set_be16(&mut v, 76, n as u16);
    let mut off = 78 + 8 * n;
    for (j, r) in records.iter().enumerate() {
        set_be32(&mut v, 78 + 8 * j, off as u32);
        off += r.len();
    }
    for r in records {
        v.extend_from_slice(r);
    }
    v
}

fn fixture_text() -> String {
    let mut t = String::new();
    t.push_str("<?xml version=\"1.0\" encoding=\"UTF-8\"?>");
    t.push_str("\n<html><body><p>Finally, we\u{e2}\u{20ac}\u{2122}ll talk about Cargo.</p>");
    t.push_str("</body></html>\np {\n    margin: 0 0 0 1em\n    }");
    t
}

fn fixture_exth() -> Vec<(u32, Vec<u8>)> {
    vec![
        (503, b"The Rust Programming Language".to_vec()),
        (300, b"ignored: not a recognized tag".to_vec()),
        (100, b"The Rust Team".to_vec()),
        (503, b"A Duplicate Title".to_vec()),
    ]
}

// A complete little book, PalmDOC-compressed; returns it with its text bytes.
fn fixture(compression: u16) -> (Vec<u8>, Vec<u8>) {
    let tb = fixture_text().into_bytes();
    let rec0 = build_record0(compression, tb.len() as u32, 1, &fixture_exth());
    let rec1 = if compression == 2 {
        palmdoc_compress(&tb)
    } else {
        tb.clone()
    };
    (build_doc(&[rec0, rec1]), tb)
}

#[test]
fn get_text_test() {
    let (bytes, _) = fixture(2);
    let res = open(bytes);
    match res {
        Ok(book) => {
            match get_text(&book) {
                Ok(text) => {
                    assert!(text.starts_with("<?xml version=\"1.0\" encoding=\"UTF-8\"?>"));
                    assert!(text.contains("Finally, we\u{e2}\u{20ac}\u{2122}ll talk about Cargo"));
                    assert!(text.ends_with("margin: 0 0 0 1em\n    }"));
                },
                Err(_) => assert!(false),
            }
        },
        Err(_) => assert!(false),
    }
}

#[test]
fn get_author_test() {
    let (bytes, _) = fixture(2);
    let res = open(bytes);
    match res {
        Ok(book) => {
            match get_author(&book) {
                Ok(author) => assert_eq!(String::from("The Rust Team"), author),
                Err(_) => assert!(false),
            }
        },
        Err(_) => assert!(false),
    }
}

#[test]
fn get_title_test() {
    let (bytes, _) = fixture(2);
    let res = open(bytes);
    match res {
        Ok(book) => {
            match get_title(&book) {
                Ok(title) => assert_eq!(String::from("The Rust Programming Language"), title),
                Err(_) => assert!(false),
            }
        },
        Err(_) => assert!(false),
    }
}

#[test]
fn text_length_matches_declared() {
    let (bytes, tb) = fixture(2);
    let book = open(bytes).unwrap();
    let text = get_text(&book).unwrap();
    assert!(text.starts_with("<?xml version=\"1.0\" encoding=\"UTF-8\"?>"));
    assert_eq!(text.len(), tb.len());
}

#[test]
fn open_empty_buffer() {
    assert!(matches!(open(Vec::new()), Err(OpenError::TooShort)));
}

#[test]
fn open_short_buffer() {
    assert!(matches!(open(vec![0u8; 40]), Err(OpenError::TooShort)));
}

#[test]
fn open_bad_signature() {
    let (mut bytes, _) = fixture(2);
    bytes[60] = b'X';
    assert!(matches!(open(bytes), Err(OpenError::MalformedContainer)));
}

#[test]
fn open_zero_records() {
    let mut bytes = vec![0u8; 100];
    bytes[60..68].copy_from_slice(b"BOOKMOBI");
    assert!(matches!(open(bytes), Err(OpenError::MalformedContainer)));
}

#[test]
fn open_offset_past_end() {
    let (mut bytes, _) = fixture(2);
    set_be32(&mut bytes, 78 + 8, 0x7fffffff); // second record's offset
    assert!(matches!(open(bytes), Err(OpenError::MalformedContainer)));
}

#[test]
fn open_offsets_out_of_order() {
    let (mut bytes, _) = fixture(2);
    set_be32(&mut bytes, 78 + 8, 90); // before record 0's offset of 94
    assert!(matches!(open(bytes), Err(OpenError::MalformedContainer)));
}

#[test]
fn open_short_record0() {
    let rec0 = vec![0u8; 100]; // shorter than the fixed field table
    let rec1 = vec![0u8; 4];
    let bytes = build_doc(&[rec0, rec1]);
    assert!(matches!(open(bytes), Err(OpenError::MalformedHeader)));
}

#[test]
fn open_truncated_exth() {
    let tb = fixture_text().into_bytes();
    let mut rec0 = build_record0(2, tb.len() as u32, 1, &fixture_exth());
    rec0.truncate(150); // cuts into the first EXTH entry
    let rec1 = palmdoc_compress(&tb);
    let bytes = build_doc(&[rec0, rec1]);
    assert!(matches!(open(bytes), Err(OpenError::MalformedHeader)));
}

#[test]
fn absent_field_is_field_absent() {
    let (bytes, _) = fixture(2);
    let book = open(bytes).unwrap();
    assert_eq!(get_isbn(&book), Err(FieldAbsent));
    assert_eq!(get_language(&book), Err(FieldAbsent));
}

#[test]
fn all_accessors_return_without_fault() {
    let (bytes, _) = fixture(2);
    let book = open(bytes).unwrap();
    let results = vec![
        get_title(&book),
        get_author(&book),
        get_publisher(&book),
        get_imprint(&book),
        get_description(&book),
        get_isbn(&book),
        get_subject(&book),
        get_publish_date(&book),
        get_review(&book),
        get_contributer(&book),
        get_copyright(&book),
        get_asin(&book),
        get_language(&book),
    ];
    for r in results {
        assert!(matches!(r, Ok(_)) || r == Err(FieldAbsent));
    }
    assert!(get_text(&book).is_ok());
}

#[test]
fn accessors_are_idempotent() {
    let (bytes, _) = fixture(2);
    let book = open(bytes).unwrap();
    assert_eq!(get_title(&book), get_title(&book));
    assert_eq!(get_author(&book), get_author(&book));
    assert_eq!(get_isbn(&book), get_isbn(&book));
    assert_eq!(get_text(&book).unwrap(), get_text(&book).unwrap());
}

#[test]
fn unknown_tag_is_skipped() {
    // Tag 300 sits between the title and the author; both are still found.
    let (bytes, _) = fixture(2);
    let book = open(bytes).unwrap();
    assert_eq!(get_title(&book).unwrap(), "The Rust Programming Language");
    assert_eq!(get_author(&book).unwrap(), "The Rust Team");
}

#[test]
fn duplicate_tag_first_wins() {
    let (bytes, _) = fixture(2);
    let book = open(bytes).unwrap();
    assert_eq!(get_title(&book).unwrap(), "The Rust Programming Language");
}

#[test]
fn invalid_utf8_value_uses_replacement() {
    let tb = fixture_text().into_bytes();
    let rec0 = build_record0(2, tb.len() as u32, 1, &[(503, vec![0x41, 0xff])]);
    let rec1 = palmdoc_compress(&tb);
    let book = open(build_doc(&[rec0, rec1])).unwrap();
    assert_eq!(get_title(&book).unwrap(), "A\u{fffd}");
}

#[test]
fn no_exth_block() {
    let tb = fixture_text().into_bytes();
    let mut rec0 = build_record0(2, tb.len() as u32, 1, &[]);
    set_be32(&mut rec0, 128, 0); // EXTH flag cleared
    let rec1 = palmdoc_compress(&tb);
    let book = open(build_doc(&[rec0, rec1])).unwrap();
    assert_eq!(get_title(&book), Err(FieldAbsent));
    assert!(get_text(&book).is_ok());
}

#[test]
fn uncompressed_records_concatenate() {
    let part1 = b"first part, ".to_vec();
    let part2 = b"second part".to_vec();
    let total = (part1.len() + part2.len()) as u32;
    let rec0 = build_record0(1, total, 2, &fixture_exth());
    let book = open(build_doc(&[rec0, part1, part2])).unwrap();
    assert_eq!(get_text(&book).unwrap(), "first part, second part");
}

#[test]
fn huff_compression_is_unsupported() {
    let tb = fixture_text().into_bytes();
    let rec0 = build_record0(17480, tb.len() as u32, 1, &fixture_exth());
    let book = open(build_doc(&[rec0, tb])).unwrap();
    assert_eq!(get_text(&book), Err(ExtractionError::UnsupportedCompression));
    // a text failure leaves the metadata untouched
    assert_eq!(get_title(&book).unwrap(), "The Rust Programming Language");
}

#[test]
fn missing_text_records() {
    let tb = fixture_text().into_bytes();
    let rec0 = build_record0(2, tb.len() as u32, 5, &fixture_exth());
    let book = open(build_doc(&[rec0, palmdoc_compress(&tb)])).unwrap();
    assert_eq!(get_text(&book), Err(ExtractionError::MissingTextRecords));
}

#[test]
fn corrupt_text_record() {
    let tb = fixture_text().into_bytes();
    let rec0 = build_record0(2, tb.len() as u32, 1, &fixture_exth());
    // a back-reference with distance zero is never valid
    let book = open(build_doc(&[rec0, vec![0x80, 0x00]])).unwrap();
    assert_eq!(get_text(&book), Err(ExtractionError::CorruptRecord));
    assert_eq!(get_author(&book).unwrap(), "The Rust Team");
}

#[test]
fn every_accessor_reads_its_own_tag() {
    let tb = fixture_text().into_bytes();
    let exth: Vec<(u32, Vec<u8>)> = vec![
        (100, b"an author".to_vec()),
        (101, b"a publisher".to_vec()),
        (102, b"an imprint".to_vec()),
        (103, b"a description".to_vec()),
        (104, b"an isbn".to_vec()),
        (105, b"a subject".to_vec()),
        (106, b"a publish date".to_vec()),
        (107, b"a review".to_vec()),
        (108, b"a contributor".to_vec()),
        (109, b"a copyright notice".to_vec()),
        (113, b"an asin".to_vec()),
        (503, b"a title".to_vec()),
        (524, b"en".to_vec()),
    ];
    let rec0 = build_record0(2, tb.len() as u32, 1, &exth);
    let book = open(build_doc(&[rec0, palmdoc_compress(&tb)])).unwrap();
    assert_eq!(get_author(&book).unwrap(), "an author");
    assert_eq!(get_publisher(&book).unwrap(), "a publisher");
    assert_eq!(get_imprint(&book).unwrap(), "an imprint");
    assert_eq!(get_description(&book).unwrap(), "a description");
    assert_eq!(get_isbn(&book).unwrap(), "an isbn");
    assert_eq!(get_subject(&book).unwrap(), "a subject");
    assert_eq!(get_publish_date(&book).unwrap(), "a publish date");
    assert_eq!(get_review(&book).unwrap(), "a review");
    assert_eq!(get_contributer(&book).unwrap(), "a contributor");
    assert_eq!(get_copyright(&book).unwrap(), "a copyright notice");
    assert_eq!(get_asin(&book).unwrap(), "an asin");
    assert_eq!(get_title(&book).unwrap(), "a title");
    assert_eq!(get_language(&book).unwrap(), "en");
}

#[test]
fn compressed_records_concatenate() {
    let part1 = b"the first half of the text, ".to_vec();
    let part2 = b"and the second half".to_vec();
    let total = (part1.len() + part2.len()) as u32;
    let rec0 = build_record0(2, total, 2, &fixture_exth());
    let recs = vec![rec0, palmdoc_compress(&part1), palmdoc_compress(&part2)];
    let book = open(build_doc(&recs)).unwrap();
    assert_eq!(get_text(&book).unwrap(), "the first half of the text, and the second half");
}

#[test]
fn zero_text_records_give_empty_text() {
    let rec0 = build_record0(2, 0, 0, &fixture_exth());
    let book = open(build_doc(&[rec0, vec![0u8; 4]])).unwrap();
    assert_eq!(get_text(&book).unwrap(), "");
}

#[test]
fn empty_exth_block() {
    let tb = fixture_text().into_bytes();
    let rec0 = build_record0(2, tb.len() as u32, 1, &[]);
    let book = open(build_doc(&[rec0, palmdoc_compress(&tb)])).unwrap();
    assert_eq!(get_title(&book), Err(FieldAbsent));
    assert!(get_text(&book).is_ok());
}

#[test]
fn open_exth_start_past_end() {
    let tb = fixture_text().into_bytes();
    let mut rec0 = build_record0(2, tb.len() as u32, 1, &fixture_exth());
    set_be32(&mut rec0, 20, 0x00ffffff); // header length pushes EXTH past the record
    let bytes = build_doc(&[rec0, palmdoc_compress(&tb)]);
    assert!(matches!(open(bytes), Err(OpenError::MalformedHeader)));
}

#[test]
fn open_exth_entry_length_undersized() {
    let tb = fixture_text().into_bytes();
    let mut rec0 = build_record0(2, tb.len() as u32, 1, &fixture_exth());
    set_be32(&mut rec0, 148, 4); // first entry's length, below the 8-byte envelope
    let bytes = build_doc(&[rec0, palmdoc_compress(&tb)]);
    assert!(matches!(open(bytes), Err(OpenError::MalformedHeader)));
}

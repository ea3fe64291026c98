// Tests of the PalmDOC codec on raw records.

use mobi::{palmdoc_compress, palmdoc_decompress};

fn round_trip(data: &[u8]) {
    let v = data.to_vec();
    let packed = palmdoc_compress(&v);
    let unpacked = palmdoc_decompress(&packed);
    assert_eq!(unpacked, Some(v));
}

#[test]
fn round_trip_empty() {
    round_trip(b"");
}

#[test]
fn round_trip_plain_text() {
    round_trip(b"Hello, world! A Space Pair follows every word here.");
}

#[test]
fn round_trip_all_byte_values() {
    let mut v: Vec<u8> = Vec::new();
    for b in 0..=255u8 {
        v.push(b);
    }
    round_trip(&v);
}

#[test]
fn round_trip_nulls_and_controls() {
    round_trip(&[0x00, 0x01, 0x08, 0x09, 0x20, 0x40, 0x7f, 0x80, 0xbf, 0xc0, 0xff, 0x00]);
}

#[test]
fn compress_uses_space_shortcut() {
    // " A" packs into the single byte 0xc1
    let packed = palmdoc_compress(&b"a A".to_vec());
    assert_eq!(packed, vec![b'a', 0xc1]);
}

#[test]
fn decompress_literal_run() {
    assert_eq!(palmdoc_decompress(&vec![0x03, 0xf0, 0xf1, 0xf2]), Some(vec![0xf0, 0xf1, 0xf2]));
}

#[test]
fn decompress_zero_byte() {
    assert_eq!(palmdoc_decompress(&vec![0x00]), Some(vec![0x00]));
}

#[test]
fn decompress_space_shortcut() {
    assert_eq!(palmdoc_decompress(&vec![0xc1]), Some(b" A".to_vec()));
}

#[test]
fn decompress_back_reference() {
    // "abc" then distance 3, length 3: the pair encodes (3 << 3) | (3 - 3)
    let stream = vec![b'a', b'b', b'c', 0x80, 0x18];
    assert_eq!(palmdoc_decompress(&stream), Some(b"abcabc".to_vec()));
}

#[test]
fn decompress_overlapping_back_reference() {
    // "a" then distance 1, length 3 copies the same byte three times over
    let stream = vec![b'a', 0x80, 0x08];
    assert_eq!(palmdoc_decompress(&stream), Some(b"aaaa".to_vec()));
}

#[test]
fn decompress_truncated_literal_run() {
    assert_eq!(palmdoc_decompress(&vec![0x02, b'a']), None);
}

#[test]
fn decompress_truncated_pair() {
    assert_eq!(palmdoc_decompress(&vec![b'a', 0x85]), None);
}

#[test]
fn decompress_zero_distance() {
    assert_eq!(palmdoc_decompress(&vec![b'a', 0x80, 0x00]), None);
}

#[test]
fn decompress_distance_before_start() {
    // distance 3 with only one byte of output so far
    assert_eq!(palmdoc_decompress(&vec![b'a', 0x80, 0x18]), None);
}

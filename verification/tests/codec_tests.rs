//! Codec framing behaviour: header and footer round trips, corruption
//! detection, and the write-time argument checks.

use rucene::codec_util::{
    check_footer, check_header, check_index_header, checksum_entire_file, footer_length,
    index_header_length, retrieve_checksum, write_footer, write_header, write_index_header,
};
use rucene::errors::{ArgumentKind, CorruptionKind, IndexError};
use rucene::store::{ChecksumIndexInput, RamInput, RamOutput};

fn framed_file(codec: &str, version: i32, id: &[u8], suffix: &str, body: &[u8]) -> Vec<u8> {
    let mut out = RamOutput::new();
    write_index_header(&mut out, codec, version, id, suffix).unwrap();
    out.write_bytes(body, 0, body.len());
    write_footer(&mut out);
    out.into_bytes()
}

#[test]
fn header_round_trip() {
    // write codec "Lucene62", version 1, an all-ones id and suffix "_0",
    // then read it back
    let id = vec![1u8; 16];
    let bytes = framed_file("Lucene62", 1, &id, "_0", b"payload");
    let mut input = RamInput::new(bytes);
    let version = check_index_header(&mut input, "Lucene62", 0, 2, &id, "_0").unwrap();
    assert_eq!(version, 1);
}

#[test]
fn header_rejects_any_flipped_byte() {
    let id = vec![1u8; 16];
    let clean = framed_file("Lucene62", 1, &id, "_0", b"");
    let header_len = index_header_length("Lucene62", "_0");
    for i in 0..header_len {
        let mut corrupted = clean.clone();
        corrupted[i] ^= 0x40;
        let mut input = RamInput::new(corrupted);
        let r = check_index_header(&mut input, "Lucene62", 0, 2, &id, "_0");
        assert!(
            matches!(r, Err(IndexError::CorruptIndex(_))),
            "byte {} left the header acceptable",
            i
        );
    }
}

#[test]
fn footer_round_trip_checks_clean() {
    let id = vec![7u8; 16];
    let bytes = framed_file("Lucene62", 1, &id, "", b"some payload bytes");
    let total = bytes.len();
    let mut input = ChecksumIndexInput::new(RamInput::new(bytes));
    let version = check_index_header(&mut input, "Lucene62", 1, 1, &id, "").unwrap();
    assert_eq!(version, 1);
    // consume the payload so only the footer remains
    let payload_len = total - index_header_length("Lucene62", "") - footer_length();
    rucene::store::read_bytes(&mut input, payload_len).unwrap();
    let crc = check_footer(&mut input).unwrap();
    assert!(crc >= 0);
}

#[test]
fn checksum_entire_file_matches_footer() {
    let id = vec![7u8; 16];
    let bytes = framed_file("Lucene62", 1, &id, "", b"other payload");
    let input = RamInput::new(bytes);
    let a = checksum_entire_file(&input).unwrap();
    let mut seekable = input;
    let b = retrieve_checksum(&mut seekable).unwrap();
    assert_eq!(a, b);
}

#[test]
fn corrupted_body_fails_the_checksum() {
    let id = vec![7u8; 16];
    let mut bytes = framed_file("Lucene62", 1, &id, "", b"zzzz");
    let k = index_header_length("Lucene62", "") + 1;
    bytes[k] ^= 1;
    let input = RamInput::new(bytes);
    match checksum_entire_file(&input) {
        Err(IndexError::CorruptIndex(CorruptionKind::ChecksumMismatch { expected, actual })) => {
            assert_ne!(expected, actual);
        }
        other => panic!("expected a checksum mismatch, got {:?}", other),
    }
}

#[test]
fn truncated_and_extended_files_are_detected() {
    let id = vec![7u8; 16];
    let clean = framed_file("Lucene62", 1, &id, "", b"abc");
    let content_len = index_header_length("Lucene62", "") + 3;
    // exactly sixteen bytes after the content: the footer checks clean
    let mut input = ChecksumIndexInput::new(RamInput::new(clean.clone()));
    rucene::store::read_bytes(&mut input, content_len).unwrap();
    assert!(check_footer(&mut input).is_ok());
    // one byte short: fifteen bytes remain where a footer needs sixteen
    let mut short = clean.clone();
    short.pop();
    let mut input = ChecksumIndexInput::new(RamInput::new(short));
    rucene::store::read_bytes(&mut input, content_len).unwrap();
    match check_footer(&mut input) {
        Err(IndexError::CorruptIndex(CorruptionKind::Truncated { remaining, expected })) => {
            assert_eq!(remaining, 15);
            assert_eq!(expected, 16);
        }
        other => panic!("expected truncation, got {:?}", other),
    }
    // one byte long: seventeen bytes remain
    let mut long = clean.clone();
    long.push(0);
    let mut input = ChecksumIndexInput::new(RamInput::new(long));
    rucene::store::read_bytes(&mut input, content_len).unwrap();
    match check_footer(&mut input) {
        Err(IndexError::CorruptIndex(CorruptionKind::Extended { remaining, expected })) => {
            assert_eq!(remaining, 17);
            assert_eq!(expected, 16);
        }
        other => panic!("expected extension, got {:?}", other),
    }
}

#[test]
fn stored_checksum_with_high_bits_is_rejected() {
    let id = vec![7u8; 16];
    let mut bytes = framed_file("Lucene62", 1, &id, "", b"abc");
    // force a high bit into the stored 64-bit checksum field
    let n = bytes.len();
    bytes[n - 8] = 0x80;
    let mut input = RamInput::new(bytes);
    match retrieve_checksum(&mut input) {
        Err(IndexError::CorruptIndex(CorruptionKind::ChecksumHighBits { value })) => {
            assert!(value < 0 || value > 0xFFFF_FFFF);
        }
        other => panic!("expected high-bit rejection, got {:?}", other),
    }
}

#[test]
fn codec_name_lengths_at_the_boundary() {
    let ok_name = "a".repeat(127);
    let mut out = RamOutput::new();
    assert!(write_header(&mut out, &ok_name, 1).is_ok());
    let long_name = "a".repeat(128);
    let mut out2 = RamOutput::new();
    match write_header(&mut out2, &long_name, 1) {
        Err(IndexError::IllegalArgument(ArgumentKind::CodecNameTooLong { len })) => {
            assert_eq!(len, 128);
        }
        other => panic!("expected rejection, got {:?}", other),
    }
    assert_eq!(out2.len(), 0);
}

#[test]
fn wrong_id_and_wrong_version_are_told_apart() {
    let id = vec![1u8; 16];
    let other_id = vec![2u8; 16];
    let bytes = framed_file("Lucene62", 5, &id, "x", b"");
    let mut input = RamInput::new(bytes.clone());
    match check_index_header(&mut input, "Lucene62", 0, 2, &id, "x") {
        Err(IndexError::CorruptIndex(CorruptionKind::VersionMismatch { actual, min, max })) => {
            assert_eq!((actual, min, max), (5, 0, 2));
        }
        other => panic!("expected version mismatch, got {:?}", other),
    }
    let mut input = RamInput::new(bytes);
    match check_index_header(&mut input, "Lucene62", 0, 9, &other_id, "x") {
        Err(IndexError::CorruptIndex(CorruptionKind::IdMismatch)) => {}
        other => panic!("expected id mismatch, got {:?}", other),
    }
}

#[test]
fn wrong_codec_name_is_a_mismatch() {
    let id = vec![1u8; 16];
    let bytes = framed_file("Lucene62", 1, &id, "", b"");
    let mut input = RamInput::new(bytes);
    match check_header(&mut input, "Lucene70", 0, 9) {
        Err(IndexError::CorruptIndex(CorruptionKind::CodecMismatch)) => {}
        other => panic!("expected codec mismatch, got {:?}", other),
    }
}

//! Framing, header parsing, hashing and compression, on concrete values.

use git_starter_rust::codec::{encode_frame, parse_header, parse_stored, parse_stored_validated};
use git_starter_rust::compress::{compress_object, decode_stored};
use git_starter_rust::hashing::{
    digest_hex, is_valid_identifier, object_id, object_path_parts, parse_stored_checked,
};
use git_starter_rust::object::{Error, ObjectType};

const HELLO_ID: &[u8] = b"b6fc4c620b67d95f953a5c1c1230aaab5db5a1b0";

#[test]
fn frame_bytes_are_exact() {
    assert_eq!(encode_frame(ObjectType::Blob, b"hello"), b"blob 5\x00hello".to_vec());
    assert_eq!(encode_frame(ObjectType::Blob, b""), b"blob 0\x00".to_vec());
    assert_eq!(encode_frame(ObjectType::Tree, b"xyz"), b"tree 3\x00xyz".to_vec());
    assert_eq!(encode_frame(ObjectType::Commit, b"c"), b"commit 1\x00c".to_vec());
    assert_eq!(encode_frame(ObjectType::Tag, b"t"), b"tag 1\x00t".to_vec());
}

#[test]
fn hello_blob_hashes_to_known_identifier() {
    let id = object_id(ObjectType::Blob, b"hello");
    assert_eq!(id, HELLO_ID.to_vec());
    assert_eq!(digest_hex(b"blob 5\x00hello"), HELLO_ID.to_vec());
}

#[test]
fn empty_blob_hashes_to_known_identifier() {
    let id = object_id(ObjectType::Blob, b"");
    assert_eq!(id, b"e69de29bb2d1d6434b8b29ae775ad8c2e48c5391".to_vec());
}

#[test]
fn digest_agrees_with_direct_sha1() {
    // cross-check the wrappers against the outside crates used directly
    let data = b"blob 5\x00hello";
    let mut hasher = <sha1::Sha1 as sha1::Digest>::new();
    sha1::Digest::update(&mut hasher, &data[..]);
    let direct = hex::encode(sha1::Digest::finalize(hasher));
    assert_eq!(digest_hex(data), direct.into_bytes());
}

#[test]
fn flipping_any_bit_changes_the_identifier() {
    let frame = b"blob 5\x00hello".to_vec();
    let original = digest_hex(&frame);
    for i in 0..frame.len() {
        for bit in 0..8 {
            let mut flipped = frame.clone();
            flipped[i] ^= 1u8 << bit;
            assert_ne!(digest_hex(&flipped), original, "byte {} bit {}", i, bit);
        }
    }
}

#[test]
fn parse_header_reads_back_the_frame() {
    let h = parse_header(b"blob 5\x00hello").unwrap();
    assert_eq!(h.kind, ObjectType::Blob);
    assert_eq!(h.length, 5);
    assert_eq!(h.offset, 7);
    let h = parse_header(b"commit 11\x00abcdefghijk").unwrap();
    assert_eq!(h.kind, ObjectType::Commit);
    assert_eq!(h.length, 11);
    assert_eq!(h.offset, 10);
}

#[test]
fn parse_header_accepts_leading_zeros() {
    let h = parse_header(b"blob 005\x00aaaaa").unwrap();
    assert_eq!(h.length, 5);
}

#[test]
fn parse_header_rejects_missing_space() {
    assert_eq!(parse_header(b"blob5\x00hello"), Err(Error::CorruptObject));
}

#[test]
fn parse_header_rejects_missing_nul() {
    assert_eq!(parse_header(b"blob 5hello"), Err(Error::CorruptObject));
}

#[test]
fn parse_header_rejects_unknown_tag() {
    assert_eq!(parse_header(b"blog 5\x00hello"), Err(Error::CorruptObject));
}

#[test]
fn parse_header_rejects_empty_length() {
    assert_eq!(parse_header(b"blob \x00hello"), Err(Error::CorruptObject));
}

#[test]
fn parse_header_rejects_non_digit_length() {
    assert_eq!(parse_header(b"blob 5a\x00hello"), Err(Error::CorruptObject));
}

#[test]
fn parse_header_rejects_oversized_length() {
    // one digit past what a u64 can hold
    assert_eq!(parse_header(b"blob 99999999999999999999\x00x"), Err(Error::CorruptObject));
}

#[test]
fn parse_stored_trusts_declared_length() {
    let h = parse_stored(b"blob 6\x00hello").unwrap();
    assert_eq!(h.kind(), ObjectType::Blob);
    assert_eq!(h.length(), 6);
    assert_eq!(h.content(), b"hello".to_vec());
}

#[test]
fn parse_stored_validated_reports_length_mismatch() {
    assert_eq!(
        parse_stored_validated(b"blob 6\x00hello").map(|h| h.length),
        Err(Error::LengthMismatch)
    );
    let h = parse_stored_validated(b"blob 5\x00hello").unwrap();
    assert_eq!(h.length, 5);
}

#[test]
fn parse_stored_checked_verifies_the_hash() {
    let ok = parse_stored_checked(b"blob 5\x00hello", HELLO_ID).unwrap();
    assert_eq!(ok.content, b"hello".to_vec());
    let wrong = b"b6fc4c620b67d95f953a5c1c1230aaab5db5a1b1";
    assert_eq!(
        parse_stored_checked(b"blob 5\x00hello", wrong).map(|h| h.length),
        Err(Error::HashMismatch)
    );
    // right hash but lying header: the hash check passes, the length check fires
    let lying = b"blob 6\x00hello";
    let lying_id = digest_hex(lying);
    assert_eq!(
        parse_stored_checked(lying, &lying_id).map(|h| h.length),
        Err(Error::LengthMismatch)
    );
}

#[test]
fn compress_then_decode_round_trips() {
    let compressed = compress_object(ObjectType::Blob, b"hello");
    let h = decode_stored(&compressed).unwrap();
    assert_eq!(h.kind, ObjectType::Blob);
    assert_eq!(h.length, 5);
    assert_eq!(h.content, b"hello".to_vec());
}

#[test]
fn decode_agrees_with_direct_flate2() {
    // compress with flate2 directly; the library must read it back
    let mut enc =
        flate2::write::ZlibEncoder::new(Vec::new(), flate2::Compression::default());
    std::io::Write::write_all(&mut enc, b"tree 3\x00xyz").unwrap();
    let compressed = enc.finish().unwrap();
    let h = decode_stored(&compressed).unwrap();
    assert_eq!(h.kind, ObjectType::Tree);
    assert_eq!(h.content, b"xyz".to_vec());
}

#[test]
fn decode_rejects_garbage_stream() {
    assert_eq!(decode_stored(b"not zlib at all").map(|h| h.length), Err(Error::CorruptObject));
}

#[test]
fn decode_rejects_well_compressed_garbage() {
    let mut enc =
        flate2::write::ZlibEncoder::new(Vec::new(), flate2::Compression::default());
    std::io::Write::write_all(&mut enc, b"no header here").unwrap();
    let compressed = enc.finish().unwrap();
    assert_eq!(decode_stored(&compressed).map(|h| h.length), Err(Error::CorruptObject));
}

#[test]
fn tags_round_trip() {
    for t in [ObjectType::Blob, ObjectType::Tree, ObjectType::Commit, ObjectType::Tag] {
        let tag = t.tag_bytes();
        assert_eq!(ObjectType::from_tag(&tag), Some(t));
    }
    assert_eq!(ObjectType::from_tag(b"blob"), Some(ObjectType::Blob));
    assert_eq!(ObjectType::from_tag(b"blog"), None);
    assert_eq!(ObjectType::from_tag(b""), None);
}

#[test]
fn identifier_validation_and_path() {
    assert!(is_valid_identifier(HELLO_ID));
    assert!(!is_valid_identifier(b"b6fc"));
    assert!(!is_valid_identifier(b"B6FC4C620B67D95F953A5C1C1230AAAB5DB5A1B0"));
    assert!(!is_valid_identifier(b"b6fc4c620b67d95f953a5c1c1230aaab5db5a1bg"));
    let (dir, rest) = object_path_parts(HELLO_ID);
    assert_eq!(dir, b"b6".to_vec());
    assert_eq!(rest, b"fc4c620b67d95f953a5c1c1230aaab5db5a1b0".to_vec());
}

use git_objects::digest::{hash_bytes, parse_digest, store_path, HashedObject, InvalidHash};
use git_objects::text::read_text;

#[test]
fn hashed_bytes_carry_their_text() {
    let hashed = hash_bytes(b"");
    assert_eq!(hashed.hash_str, "da39a3ee5e6b4b0d3255bfef95601890afd80709");
    assert_eq!(hashed.hash[0], 0xda);
    assert_eq!(hashed.hash[19], 0x09);
    assert_eq!(hashed.hash_str.len(), 40);
}

#[test]
fn digest_text_is_lower_case_hex() {
    let hashed = hash_bytes(b"The quick brown fox jumps over the lazy dog");
    assert_eq!(hashed.hash_str, "2fd4e1c67a2d28fced849ee1bb76e7391b93eb12");
}

#[test]
fn parse_reads_forty_digits() {
    let parsed = parse_digest("2fd4e1c67a2d28fced849ee1bb76e7391b93eb12").unwrap();
    assert_eq!(
        parsed.hash,
        [
            0x2f, 0xd4, 0xe1, 0xc6, 0x7a, 0x2d, 0x28, 0xfc, 0xed, 0x84, 0x9e, 0xe1, 0xbb, 0x76,
            0xe7, 0x39, 0x1b, 0x93, 0xeb, 0x12
        ]
    );
    assert_eq!(parsed.hash_str, "2fd4e1c67a2d28fced849ee1bb76e7391b93eb12");
}

#[test]
fn parse_normalizes_case() {
    let parsed = parse_digest("2FD4E1C67A2D28FCED849EE1BB76E7391B93EB12").unwrap();
    assert_eq!(parsed.hash_str, "2fd4e1c67a2d28fced849ee1bb76e7391b93eb12");
    let mixed = parse_digest("2fD4e1C67a2d28fcED849ee1bb76e7391b93eB12").unwrap();
    assert_eq!(mixed, parsed);
}

#[test]
fn parse_undoes_the_text() {
    let hashed = hash_bytes(b"round");
    assert_eq!(parse_digest(&hashed.hash_str), Ok(hashed));
}

#[test]
fn parse_rejects_other_lengths() {
    assert_eq!(parse_digest(""), Err(InvalidHash));
    assert_eq!(parse_digest("ab"), Err(InvalidHash));
    assert_eq!(parse_digest("2fd4e1c67a2d28fced849ee1bb76e7391b93eb1"), Err(InvalidHash));
    assert_eq!(parse_digest("2fd4e1c67a2d28fced849ee1bb76e7391b93eb120"), Err(InvalidHash));
    assert_eq!(parse_digest("2fd4e1c67a2d28fced849ee1bb76e7391b93eb1200"), Err(InvalidHash));
}

#[test]
fn parse_rejects_foreign_characters() {
    assert_eq!(parse_digest("2fd4e1c67a2d28fced849ee1bb76e7391b93ebg2"), Err(InvalidHash));
    assert_eq!(parse_digest("2fd4e1c67a2d28fced849ee1bb76e7391b93eb 2"), Err(InvalidHash));
    assert_eq!(parse_digest("\u{e9}fd4e1c67a2d28fced849ee1bb76e7391b93eb1"), Err(InvalidHash));
}

#[test]
fn store_path_splits_two_and_thirty_eight() {
    let hashed: HashedObject = hash_bytes(b"");
    let path = store_path(&hashed.hash);
    assert_eq!(path.dir, "da");
    assert_eq!(path.file, "39a3ee5e6b4b0d3255bfef95601890afd80709");
    assert_eq!(format!("{}{}", path.dir, path.file), hashed.hash_str);
}

#[test]
fn store_path_of_small_bytes() {
    let path = store_path(&[0x00, 0x0f, 0xa0, 0xff, 1, 2, 3, 4, 5, 6, 7, 8, 9, 10, 11, 12, 13, 14, 15, 16]);
    assert_eq!(path.dir, "00");
    assert_eq!(path.file, "0fa0ff0102030405060708090a0b0c0d0e0f10");
}

#[test]
fn text_is_read_as_utf8() {
    assert_eq!(read_text(b"plain"), Some("plain".to_string()));
    assert_eq!(read_text("z\u{e9}\u{4e2d}\u{1f600}".as_bytes()), Some("z\u{e9}\u{4e2d}\u{1f600}".to_string()));
    assert_eq!(read_text(b""), Some(String::new()));
    assert_eq!(read_text(b"\xff"), None);
    assert_eq!(read_text(b"\xed\xa0\x80"), None);
    assert_eq!(read_text(b"\xe4\xb8"), None);
}

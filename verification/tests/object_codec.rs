use git_objects::decode::{
    decode_object, decode_tree, parse_mode, split_header, Corruption, DecodeError,
};
use git_objects::object::{encode_blob, encode_object, encode_tree, GitObject, TreeEntry};
use git_objects::sha1::sha1;

fn encoded(object: &GitObject) -> Vec<u8> {
    let mut out = Vec::new();
    encode_object(object, &mut out);
    out
}

fn entry(mode: u32, name: &str, fill: u8) -> TreeEntry {
    TreeEntry { mode, name: name.to_string(), object_hash: [fill; 20] }
}

fn corrupted(context: Corruption) -> Result<GitObject, DecodeError> {
    Err(DecodeError::CorruptedObject { context })
}

#[test]
fn blob_framing() {
    let mut out = Vec::new();
    encode_blob(b"A", &mut out);
    assert_eq!(out, b"blob 1\0A");
}

#[test]
fn digest_of_blob_framing() {
    let mut out = Vec::new();
    encode_blob(b"A", &mut out);
    assert_eq!(hex::encode(sha1(&out)), "8c7e5a667f1b771847fe88c01c3de34413a1b220");
}

#[test]
fn empty_blob_framing() {
    assert_eq!(encoded(&GitObject::Blob(Vec::new())), b"blob 0\0");
}

#[test]
fn blob_framing_counts_bytes() {
    let content: Vec<u8> = (0..300).map(|i| (i % 251) as u8).collect();
    let out = encoded(&GitObject::Blob(content.clone()));
    assert_eq!(&out[..9], b"blob 300\0");
    assert_eq!(&out[9..], &content[..]);
}

#[test]
fn encode_appends_to_the_buffer() {
    let mut out = b"xy".to_vec();
    encode_blob(b"A", &mut out);
    assert_eq!(out, b"xyblob 1\0A");
}

#[test]
fn tree_framing() {
    let entries = vec![entry(0o100644, "a.txt", 0x11), entry(0o40000, "dir", 0x22)];
    let mut out = Vec::new();
    encode_tree(&entries, &mut out);
    let mut expected = b"tree 63\0".to_vec();
    expected.extend_from_slice(b"100644 a.txt\0");
    expected.extend_from_slice(&[0x11; 20]);
    expected.extend_from_slice(b"40000 dir\0");
    expected.extend_from_slice(&[0x22; 20]);
    assert_eq!(out, expected);
}

#[test]
fn empty_tree_framing() {
    assert_eq!(encoded(&GitObject::Tree(Vec::new())), b"tree 0\0");
}

#[test]
fn blob_round_trip() {
    for content in [&b""[..], b"A", b"hello\n", b"with\0nul and space", &[0xff, 0xfe, 0x00, 0x20]] {
        let object = GitObject::Blob(content.to_vec());
        assert_eq!(decode_object(&encoded(&object)), Ok(object));
    }
}

#[test]
fn tree_round_trip() {
    let object = GitObject::Tree(vec![
        entry(0o100644, "a.txt", 0x00),
        entry(0o100755, "name with space", 0x20),
        entry(0o40000, "sub", 0xff),
        entry(0o120000, "z\u{e9}\u{4e2d}\u{1f600}", 0x7f),
    ]);
    assert_eq!(decode_object(&encoded(&object)), Ok(object));
}

#[test]
fn empty_tree_round_trip() {
    let object = GitObject::Tree(Vec::new());
    assert_eq!(decode_object(&encoded(&object)), Ok(object));
}

#[test]
fn tree_round_trip_keeps_the_order() {
    let object = GitObject::Tree(vec![entry(0o100644, "b", 1), entry(0o100644, "a", 2)]);
    assert_eq!(decode_object(&encoded(&object)), Ok(object));
}

#[test]
fn decode_ignores_bytes_behind_the_payload() {
    assert_eq!(decode_object(b"blob 1\0Aextra"), Ok(GitObject::Blob(b"A".to_vec())));
}

#[test]
fn decode_rejects_short_input() {
    assert_eq!(decode_object(b""), corrupted(Corruption::TooShort));
    assert_eq!(decode_object(b"b"), corrupted(Corruption::TooShort));
}

#[test]
fn decode_rejects_missing_space() {
    assert_eq!(decode_object(b"blob1\0A"), corrupted(Corruption::NoSpace));
}

#[test]
fn decode_rejects_missing_nul_after_size() {
    assert_eq!(decode_object(b"blob 1"), corrupted(Corruption::NoSizeEnd));
    assert_eq!(decode_object(b"blob 12345"), corrupted(Corruption::NoSizeEnd));
    assert_eq!(decode_object(b"blob 1A"), corrupted(Corruption::SizeNotTerminated));
    assert_eq!(decode_object(b"blob 1 \0A"), corrupted(Corruption::SizeNotTerminated));
}

#[test]
fn decode_rejects_non_digit_in_size() {
    assert_eq!(decode_object(b"blob 1x\0A"), corrupted(Corruption::SizeNotTerminated));
    assert_eq!(decode_object(b"blob -1\0A"), corrupted(Corruption::SizeNotTerminated));
    assert_eq!(decode_object(b"blob +1\0A"), corrupted(Corruption::SizeNotTerminated));
}

#[test]
fn decode_rejects_bad_size() {
    assert_eq!(decode_object(b"blob \0A"), Err(DecodeError::InvalidObjectSize));
    assert_eq!(decode_object(b"blob 2\0A"), Err(DecodeError::InvalidObjectSize));
    assert_eq!(
        decode_object(b"blob 99999999999999999999999999\0A"),
        Err(DecodeError::InvalidObjectSize)
    );
}

#[test]
fn decode_rejects_unknown_kind() {
    assert_eq!(decode_object(b"blub 1\0A"), Err(DecodeError::UnknownObjectKind));
    assert_eq!(decode_object(b" 1\0A"), Err(DecodeError::UnknownObjectKind));
    assert_eq!(decode_object(b"BLOB 1\0A"), Err(DecodeError::UnknownObjectKind));
}

#[test]
fn decode_rejects_commit_and_tag() {
    assert_eq!(decode_object(b"commit 1\0A"), Err(DecodeError::UnsupportedKind));
    assert_eq!(decode_object(b"tag 1\0A"), Err(DecodeError::UnsupportedKind));
}

#[test]
fn size_is_checked_before_kind() {
    assert_eq!(decode_object(b"blub 2\0A"), Err(DecodeError::InvalidObjectSize));
}

fn tree_with_payload(payload: &[u8]) -> Vec<u8> {
    let mut out = format!("tree {}\0", payload.len()).into_bytes();
    out.extend_from_slice(payload);
    out
}

#[test]
fn decode_rejects_short_hash_tail() {
    let mut payload = b"100644 a\0".to_vec();
    payload.extend_from_slice(&[7; 19]);
    assert_eq!(
        decode_object(&tree_with_payload(&payload)),
        Err(DecodeError::CorruptedTreeEntrySha1)
    );
    let mut two = b"100644 a\0".to_vec();
    two.extend_from_slice(&[7; 20]);
    two.extend_from_slice(b"100644 b\0");
    two.extend_from_slice(&[8; 5]);
    assert_eq!(decode_object(&tree_with_payload(&two)), Err(DecodeError::CorruptedTreeEntrySha1));
}

#[test]
fn decode_rejects_entry_without_space_or_nul() {
    assert_eq!(
        decode_object(&tree_with_payload(b"100644")),
        Err(DecodeError::CorruptedTreeEntry)
    );
    assert_eq!(
        decode_object(&tree_with_payload(b"100644 name-without-end")),
        Err(DecodeError::CorruptedTreeEntry)
    );
}

#[test]
fn decode_rejects_bad_mode() {
    let mut payload = b"10x644 a\0".to_vec();
    payload.extend_from_slice(&[7; 20]);
    assert_eq!(decode_object(&tree_with_payload(&payload)), Err(DecodeError::TreeEntryMode));
    let mut decimal = b"100648 a\0".to_vec();
    decimal.extend_from_slice(&[7; 20]);
    assert_eq!(decode_object(&tree_with_payload(&decimal)), Err(DecodeError::TreeEntryMode));
    let mut none = b" a\0".to_vec();
    none.extend_from_slice(&[7; 20]);
    assert_eq!(decode_object(&tree_with_payload(&none)), Err(DecodeError::TreeEntryMode));
}

#[test]
fn decode_rejects_name_that_is_not_utf8() {
    let mut payload = b"100644 a\xff\0".to_vec();
    payload.extend_from_slice(&[7; 20]);
    assert_eq!(decode_object(&tree_with_payload(&payload)), Err(DecodeError::TreeEntryName));
    let mut overlong = b"100644 \xc0\xaf\0".to_vec();
    overlong.extend_from_slice(&[7; 20]);
    assert_eq!(decode_object(&tree_with_payload(&overlong)), Err(DecodeError::TreeEntryName));
}

#[test]
fn decode_reads_octal_modes() {
    let mut payload = b"100644 a\0".to_vec();
    payload.extend_from_slice(&[7; 20]);
    assert_eq!(
        decode_object(&tree_with_payload(&payload)),
        Ok(GitObject::Tree(vec![entry(0o100644, "a", 7)]))
    );
    assert_eq!(0o100644, 33188);
}

#[test]
fn mode_parsing() {
    assert_eq!(parse_mode(b"100644"), Some(0o100644));
    assert_eq!(parse_mode(b"0"), Some(0));
    assert_eq!(parse_mode(b"+755"), Some(0o755));
    assert_eq!(parse_mode(b"37777777777"), Some(u32::MAX));
    assert_eq!(parse_mode(b"40000000000"), None);
    assert_eq!(parse_mode(b""), None);
    assert_eq!(parse_mode(b"+"), None);
    assert_eq!(parse_mode(b"++1"), None);
    assert_eq!(parse_mode(b"-1"), None);
    assert_eq!(parse_mode(b"9"), None);
}

#[test]
fn header_splitting() {
    assert_eq!(split_header(b"blob 3\0abcdef"), Ok((&b"blob"[..], &b"abc"[..])));
    assert_eq!(split_header(b"anything 0\0"), Ok((&b"anything"[..], &b""[..])));
    assert_eq!(split_header(b"x 003\0abc"), Ok((&b"x"[..], &b"abc"[..])));
}

#[test]
fn tree_payload_decoding() {
    assert_eq!(decode_tree(b""), Ok(Vec::new()));
    let mut payload = b"40000 d\0".to_vec();
    payload.extend_from_slice(&[9; 20]);
    assert_eq!(decode_tree(&payload), Ok(vec![entry(0o40000, "d", 9)]));
}

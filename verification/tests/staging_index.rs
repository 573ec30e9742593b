use git_objects::index::{read_index, verify_checksum, Index, IndexEntry, ReadIndexError};
use git_objects::object::TreeEntry;

fn be32(v: u32) -> [u8; 4] {
    v.to_be_bytes()
}

fn raw_entry(path: &[u8], first: u32, mode: u32, sha1: [u8; 20], flags: u16) -> Vec<u8> {
    let mut out = Vec::new();
    for k in 0..10u32 {
        let v = if k == 6 { mode } else { first + k };
        out.extend_from_slice(&be32(v));
    }
    out.extend_from_slice(&sha1);
    out.extend_from_slice(&flags.to_be_bytes());
    out.extend_from_slice(path);
    let total = ((62 + path.len() + 8) / 8) * 8;
    out.resize(total, 0);
    out
}

fn file(version: u32, declared: u32, entries: &[Vec<u8>], checksum: [u8; 20]) -> Vec<u8> {
    let mut out = b"DIRC".to_vec();
    out.extend_from_slice(&be32(version));
    out.extend_from_slice(&be32(declared));
    for e in entries {
        out.extend_from_slice(e);
    }
    out.extend_from_slice(&checksum);
    out
}

fn expected_entry(path: &str, first: u32, mode: u32, sha1: [u8; 20], flags: u16) -> IndexEntry {
    IndexEntry {
        ctime_s: first,
        ctime_n: first + 1,
        mtime_s: first + 2,
        mtime_n: first + 3,
        dev: first + 4,
        ino: first + 5,
        mode,
        uid: first + 7,
        gid: first + 8,
        size: first + 9,
        sha1,
        flags,
        path: path.to_string(),
    }
}

#[test]
fn index_with_two_entries() {
    let bytes = hex::decode(
        "444952430000000200000002000000010000000200000003000000040000000500000006000081a4\
         00000008000000090000000a8c7e5a667f1b771847fe88c01c3de34413a1b2200005612e74787400\
         000000000000000b0000000c0000000d0000000e0000000f00000010000081ed0000001200000013\
         000000147371f47a6f8bd23a8fa1a8b2a9479cdd76380e5400096469722f622e74787400179f5d2b\
         f002aa0ffcacfbcc5e863dfdecd71624",
    )
    .unwrap();
    let sha_a: [u8; 20] =
        hex::decode("8c7e5a667f1b771847fe88c01c3de34413a1b220").unwrap().try_into().unwrap();
    let sha_b: [u8; 20] =
        hex::decode("7371f47a6f8bd23a8fa1a8b2a9479cdd76380e54").unwrap().try_into().unwrap();
    let checksum: [u8; 20] =
        hex::decode("179f5d2bf002aa0ffcacfbcc5e863dfdecd71624").unwrap().try_into().unwrap();
    let index = read_index(&bytes).unwrap();
    assert_eq!(
        index,
        Index {
            sha1: checksum,
            version: 2,
            entries: vec![
                IndexEntry {
                    ctime_s: 1,
                    ctime_n: 2,
                    mtime_s: 3,
                    mtime_n: 4,
                    dev: 5,
                    ino: 6,
                    mode: 0o100644,
                    uid: 8,
                    gid: 9,
                    size: 10,
                    sha1: sha_a,
                    flags: 5,
                    path: "a.txt".to_string(),
                },
                IndexEntry {
                    ctime_s: 11,
                    ctime_n: 12,
                    mtime_s: 13,
                    mtime_n: 14,
                    dev: 15,
                    ino: 16,
                    mode: 0o100755,
                    uid: 18,
                    gid: 19,
                    size: 20,
                    sha1: sha_b,
                    flags: 9,
                    path: "dir/b.txt".to_string(),
                },
            ],
        }
    );
}

#[test]
fn index_fields_are_big_endian() {
    let e = raw_entry(b"p", 0x01020304, 0xa1b2c3d4, [3; 20], 0x1234);
    let index = read_index(&file(0x0a0b0c0d, 1, &[e], [9; 20])).unwrap();
    assert_eq!(index.version, 0x0a0b0c0d);
    assert_eq!(index.entries[0].ctime_s, 0x01020304);
    assert_eq!(index.entries[0].mode, 0xa1b2c3d4);
    assert_eq!(index.entries[0].flags, 0x1234);
    assert_eq!(index.sha1, [9; 20]);
}

#[test]
fn index_without_entries() {
    let index = read_index(&file(2, 0, &[], [1; 20])).unwrap();
    assert_eq!(index, Index { sha1: [1; 20], version: 2, entries: Vec::new() });
}

#[test]
fn index_entry_padding() {
    // 62 + 1 + 1 = 64 bytes: one NUL; 62 + 2 + 1 = 65: padded to 72.
    for path in ["a", "ab", "abcdefg", "abcdefgh", "abcdefghi", "abcdefghij"] {
        let e = raw_entry(path.as_bytes(), 1, 0o100644, [4; 20], 0);
        assert_eq!(e.len() % 8, 0);
        let e2 = raw_entry(b"second", 20, 0o100644, [5; 20], 0);
        let index = read_index(&file(2, 2, &[e, e2], [0; 20])).unwrap();
        assert_eq!(
            index.entries,
            vec![
                expected_entry(path, 1, 0o100644, [4; 20], 0),
                expected_entry("second", 20, 0o100644, [5; 20], 0)
            ]
        );
    }
}

#[test]
fn index_stops_at_the_declared_count() {
    let e1 = raw_entry(b"one", 1, 0o100644, [4; 20], 0);
    let e2 = raw_entry(b"two", 20, 0o100644, [5; 20], 0);
    let index = read_index(&file(2, 1, &[e1, e2], [0; 20])).unwrap();
    assert_eq!(index.entries, vec![expected_entry("one", 1, 0o100644, [4; 20], 0)]);
}

#[test]
fn index_rejects_bad_signature() {
    let mut bytes = file(2, 0, &[], [1; 20]);
    bytes[3] = b'X';
    assert_eq!(
        read_index(&bytes),
        Err(ReadIndexError::InvalidSignature { found: [b'D', b'I', b'R', b'X'] })
    );
    let other = [b'x'; 40];
    assert_eq!(read_index(&other), Err(ReadIndexError::InvalidSignature { found: [b'x'; 4] }));
}

#[test]
fn index_rejects_count_mismatch() {
    let e1 = raw_entry(b"one", 1, 0o100644, [4; 20], 0);
    assert_eq!(
        read_index(&file(2, 2, &[e1.clone()], [0; 20])),
        Err(ReadIndexError::MissingEntries { expected: 2, got: 1 })
    );
    assert_eq!(
        read_index(&file(2, 3, &[], [0; 20])),
        Err(ReadIndexError::MissingEntries { expected: 3, got: 0 })
    );
}

#[test]
fn index_rejects_short_files() {
    assert_eq!(read_index(b""), Err(ReadIndexError::NoIndexHash));
    assert_eq!(read_index(&[0; 19]), Err(ReadIndexError::NoIndexHash));
    assert_eq!(read_index(b"DIRC0123456789abcdef"), Err(ReadIndexError::NoIndexEntries));
    let mut almost = b"DIRC".to_vec();
    almost.resize(31, 0);
    assert_eq!(read_index(&almost), Err(ReadIndexError::NoIndexEntries));
}

#[test]
fn index_rejects_entry_without_path_end() {
    let mut e = raw_entry(b"abc", 1, 0o100644, [4; 20], 0);
    for b in e.iter_mut().skip(62) {
        *b = b'x';
    }
    // The checksum is all ones, so no NUL byte ends the path.
    assert_eq!(read_index(&file(2, 1, &[e], [1; 20])), Err(ReadIndexError::NoIndexEntryPath));
}

#[test]
fn index_rejects_path_that_is_not_utf8() {
    let e = raw_entry(b"a\xffb", 1, 0o100644, [4; 20], 0);
    assert_eq!(read_index(&file(2, 1, &[e], [1; 20])), Err(ReadIndexError::CorruptedPath));
}

#[test]
fn index_rejects_truncated_padding() {
    let mut e = raw_entry(b"ab", 1, 0o100644, [4; 20], 0);
    e.truncate(66);
    assert_eq!(read_index(&file(2, 1, &[e], [1; 20])), Err(ReadIndexError::TruncatedEntry));
}

#[test]
fn tree_entry_from_index_entry() {
    let entry = expected_entry("src/lib.rs", 1, 0o100644, [0xab; 20], 7);
    assert_eq!(
        TreeEntry::from(entry),
        TreeEntry { mode: 0o100644, name: "src/lib.rs".to_string(), object_hash: [0xab; 20] }
    );
}

#[test]
fn checksum_is_checked_on_request() {
    let body = file(2, 0, &[], [0; 20]);
    let mut good = body[..12].to_vec();
    good.extend_from_slice(&git_objects::sha1::sha1(&body[..12]));
    assert!(verify_checksum(&good));
    assert!(!verify_checksum(&body));
    assert!(!verify_checksum(b"short"));
    // The digest of nothing, behind nothing.
    assert!(verify_checksum(&hex::decode("da39a3ee5e6b4b0d3255bfef95601890afd80709").unwrap()));
    // Reading does not depend on the checksum.
    assert!(read_index(&body).is_ok());
}

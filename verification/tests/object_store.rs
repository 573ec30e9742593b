use git_objects::decode::{Corruption, DecodeError};
use git_objects::object::{GitObject, TreeEntry};
use git_objects::store::{
    advance_put, begin_put, file_contents, hash_git_object, hash_object, object_path, read_object,
    PutStep, ReadObjectError, StoreReply,
};
use std::collections::{BTreeMap, BTreeSet};

struct MemoryStore {
    dirs: BTreeSet<String>,
    files: BTreeMap<(String, String), Vec<u8>>,
    writes: usize,
}

fn put(store: &mut MemoryStore, object: &GitObject, persist: bool) -> String {
    let loose = hash_git_object(object);
    let path = object_path(&loose);
    let mut step = begin_put(persist);
    loop {
        let reply = match step {
            PutStep::CheckDir => StoreReply::Exists(store.dirs.contains(&path.dir)),
            PutStep::CreateDir => {
                store.dirs.insert(path.dir.clone());
                StoreReply::Completed
            }
            PutStep::CheckFile => StoreReply::Exists(
                store.files.contains_key(&(path.dir.clone(), path.file.clone())),
            ),
            PutStep::WriteFile => {
                let contents = file_contents(&loose).unwrap();
                store.files.insert((path.dir.clone(), path.file.clone()), contents);
                store.writes += 1;
                StoreReply::Completed
            }
            PutStep::Done => return loose.id.hash_str,
        };
        step = advance_put(step, reply).unwrap();
    }
}

fn empty_store() -> MemoryStore {
    MemoryStore { dirs: BTreeSet::new(), files: BTreeMap::new(), writes: 0 }
}

#[test]
fn blob_is_hashed_over_its_framing() {
    let loose = hash_git_object(&GitObject::Blob(b"A".to_vec()));
    assert_eq!(loose.encoded, b"blob 1\0A");
    assert_eq!(loose.id.hash_str, "8c7e5a667f1b771847fe88c01c3de34413a1b220");
    assert_eq!(hex::encode(loose.id.hash), loose.id.hash_str);
}

#[test]
fn known_blob_digests() {
    assert_eq!(hash_object(b"").id.hash_str, "e69de29bb2d1d6434b8b29ae775ad8c2e48c5391");
    assert_eq!(hash_object(b"hello\n").id.hash_str, "ce013625030ba8dba906f756967f9e9ca394464a");
    assert_eq!(hash_object(b"A"), hash_git_object(&GitObject::Blob(b"A".to_vec())));
}

#[test]
fn empty_tree_digest() {
    let loose = hash_git_object(&GitObject::Tree(Vec::new()));
    assert_eq!(loose.id.hash_str, "4b825dc642cb6eb9a060e54bf8d69288fbee4904");
}

#[test]
fn object_lies_under_its_digest() {
    let loose = hash_object(b"A");
    let path = object_path(&loose);
    assert_eq!(path.dir, "8c");
    assert_eq!(path.file, "7e5a667f1b771847fe88c01c3de34413a1b220");
}

#[test]
fn file_contents_are_a_zlib_stream() {
    let loose = hash_object(b"A");
    let contents = file_contents(&loose).unwrap();
    assert_ne!(contents, loose.encoded);
    // The zlib header: deflate with a 32 KiB window.
    assert_eq!(contents[0], 0x78);
    assert_eq!(read_object(&contents), Ok(GitObject::Blob(b"A".to_vec())));
}

#[test]
fn stored_objects_are_read_back() {
    let content: Vec<u8> = (0..5000).map(|i| (i % 7) as u8).collect();
    let tree = GitObject::Tree(vec![
        TreeEntry { mode: 0o100644, name: "a".to_string(), object_hash: [1; 20] },
        TreeEntry { mode: 0o40000, name: "b".to_string(), object_hash: [2; 20] },
    ]);
    for object in [GitObject::Blob(content), GitObject::Blob(Vec::new()), tree] {
        let contents = file_contents(&hash_git_object(&object)).unwrap();
        assert_eq!(read_object(&contents), Ok(object));
    }
}

#[test]
fn compression_shrinks_repetitive_content() {
    let loose = hash_object(&vec![b'a'; 10000]);
    assert!(file_contents(&loose).unwrap().len() < 200);
}

#[test]
fn read_rejects_what_is_no_zlib_stream() {
    assert_eq!(read_object(b"blob 1\0A"), Err(ReadObjectError::CorruptedStream));
    assert_eq!(read_object(b""), Err(ReadObjectError::CorruptedStream));
    let mut cut = file_contents(&hash_object(b"some content here")).unwrap();
    cut.truncate(cut.len() - 6);
    assert_eq!(read_object(&cut), Err(ReadObjectError::CorruptedStream));
}

#[test]
fn read_rejects_stream_without_framing() {
    let stream = hex::decode("789c4bcac94f5230647004000be40232").unwrap();
    assert_eq!(read_object(&stream), Ok(GitObject::Blob(b"A".to_vec())));
    // The same bytes without the NUL: "blob 1A".
    let mut encoder = flate2::write::ZlibEncoder::new(Vec::new(), flate2::Compression::default());
    std::io::Write::write_all(&mut encoder, b"blob 1A").unwrap();
    let broken = encoder.finish().unwrap();
    assert_eq!(
        read_object(&broken),
        Err(ReadObjectError::Decode(DecodeError::CorruptedObject {
            context: Corruption::SizeNotTerminated
        }))
    );
}

#[test]
fn put_steps() {
    assert_eq!(begin_put(true), PutStep::CheckDir);
    assert_eq!(begin_put(false), PutStep::Done);
    assert_eq!(advance_put(PutStep::CheckDir, StoreReply::Exists(true)), Some(PutStep::CheckFile));
    assert_eq!(advance_put(PutStep::CheckDir, StoreReply::Exists(false)), Some(PutStep::CreateDir));
    assert_eq!(advance_put(PutStep::CreateDir, StoreReply::Completed), Some(PutStep::CheckFile));
    assert_eq!(advance_put(PutStep::CheckFile, StoreReply::Exists(true)), Some(PutStep::Done));
    assert_eq!(advance_put(PutStep::CheckFile, StoreReply::Exists(false)), Some(PutStep::WriteFile));
    assert_eq!(advance_put(PutStep::WriteFile, StoreReply::Completed), Some(PutStep::Done));
}

#[test]
fn put_refuses_replies_that_do_not_fit() {
    assert_eq!(advance_put(PutStep::CheckDir, StoreReply::Completed), None);
    assert_eq!(advance_put(PutStep::CreateDir, StoreReply::Exists(true)), None);
    assert_eq!(advance_put(PutStep::CheckFile, StoreReply::Completed), None);
    assert_eq!(advance_put(PutStep::WriteFile, StoreReply::Exists(false)), None);
    assert_eq!(advance_put(PutStep::Done, StoreReply::Completed), None);
    assert_eq!(advance_put(PutStep::Done, StoreReply::Exists(true)), None);
}

#[test]
fn put_twice_writes_one_file() {
    let mut store = empty_store();
    let object = GitObject::Blob(b"A".to_vec());
    let first = put(&mut store, &object, true);
    assert_eq!(store.files.len(), 1);
    assert_eq!(store.writes, 1);
    let second = put(&mut store, &object, true);
    assert_eq!(first, second);
    assert_eq!(store.files.len(), 1);
    assert_eq!(store.writes, 1);
    assert_eq!(store.dirs.len(), 1);
    let stored = &store.files[&("8c".to_string(), "7e5a667f1b771847fe88c01c3de34413a1b220".to_string())];
    assert_eq!(read_object(stored), Ok(object));
}

#[test]
fn put_without_persist_touches_nothing() {
    let mut store = empty_store();
    let digest = put(&mut store, &GitObject::Blob(b"A".to_vec()), false);
    assert_eq!(digest, "8c7e5a667f1b771847fe88c01c3de34413a1b220");
    assert!(store.files.is_empty());
    assert!(store.dirs.is_empty());
}

#[test]
fn put_shares_directories() {
    let mut store = empty_store();
    store.dirs.insert("8c".to_string());
    put(&mut store, &GitObject::Blob(b"A".to_vec()), true);
    assert_eq!(store.dirs.len(), 1);
    assert_eq!(store.files.len(), 1);
}

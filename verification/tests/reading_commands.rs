use git_objects::commands::{
    cat_file_content, cat_file_path, ls_tree_names, ls_tree_path, CatFileError, LsTreeError,
};
use git_objects::decode::DecodeError;
use git_objects::digest::StorePath;
use git_objects::object::{GitObject, TreeEntry};
use git_objects::store::{file_contents, hash_git_object, ReadObjectError};

fn stored(object: &GitObject) -> Vec<u8> {
    file_contents(&hash_git_object(object)).unwrap()
}

fn place(dir: &str, file: &str) -> StorePath {
    StorePath { dir: dir.to_string(), file: file.to_string() }
}

#[test]
fn cat_file_finds_the_object_file() {
    assert_eq!(
        cat_file_path("8C7E5a667f1b771847fe88c01c3de34413a1b220", true),
        Ok(place("8c", "7e5a667f1b771847fe88c01c3de34413a1b220"))
    );
}

#[test]
fn cat_file_checks_length_then_option_then_digits() {
    assert_eq!(cat_file_path("8c7e", false), Err(CatFileError::InvalidObjectName));
    assert_eq!(cat_file_path("8c7e", true), Err(CatFileError::InvalidObjectName));
    assert_eq!(
        cat_file_path("zz7e5a667f1b771847fe88c01c3de34413a1b220", false),
        Err(CatFileError::MustUsePrettyPrint)
    );
    assert_eq!(
        cat_file_path("zz7e5a667f1b771847fe88c01c3de34413a1b220", true),
        Err(CatFileError::InvalidHash)
    );
}

#[test]
fn cat_file_shows_blob_content() {
    assert_eq!(cat_file_content(&stored(&GitObject::Blob(b"hello\n".to_vec()))), Ok(b"hello\n".to_vec()));
}

#[test]
fn cat_file_refuses_trees_and_broken_files() {
    assert_eq!(cat_file_content(&stored(&GitObject::Tree(Vec::new()))), Err(CatFileError::NotABlob));
    assert_eq!(
        cat_file_content(b"not a stream"),
        Err(CatFileError::ReadObject(ReadObjectError::CorruptedStream))
    );
}

#[test]
fn ls_tree_finds_the_object_file() {
    assert_eq!(
        ls_tree_path("4b825dc642cb6eb9a060e54bf8d69288fbee4904", true),
        Ok(place("4b", "825dc642cb6eb9a060e54bf8d69288fbee4904"))
    );
}

#[test]
fn ls_tree_checks_option_then_name() {
    assert_eq!(ls_tree_path("4b82", false), Err(LsTreeError::MustUseNameOnly));
    assert_eq!(ls_tree_path("4b82", true), Err(LsTreeError::InvalidHash));
    assert_eq!(
        ls_tree_path("4b825dc642cb6eb9a060e54bf8d69288fbee490x", true),
        Err(LsTreeError::InvalidHash)
    );
}

#[test]
fn ls_tree_lists_names_in_order() {
    let tree = GitObject::Tree(vec![
        TreeEntry { mode: 0o100644, name: "a.txt".to_string(), object_hash: [1; 20] },
        TreeEntry { mode: 0o40000, name: "dir".to_string(), object_hash: [2; 20] },
    ]);
    assert_eq!(ls_tree_names(&stored(&tree)), Ok(vec!["a.txt".to_string(), "dir".to_string()]));
    assert_eq!(ls_tree_names(&stored(&GitObject::Tree(Vec::new()))), Ok(Vec::new()));
}

#[test]
fn ls_tree_refuses_blobs_and_broken_files() {
    assert_eq!(ls_tree_names(&stored(&GitObject::Blob(b"A".to_vec()))), Err(LsTreeError::NotATree));
    assert_eq!(
        ls_tree_names(b""),
        Err(LsTreeError::ReadObject(ReadObjectError::CorruptedStream))
    );
    let mut encoder = flate2::write::ZlibEncoder::new(Vec::new(), flate2::Compression::default());
    std::io::Write::write_all(&mut encoder, b"commit 0\0").unwrap();
    assert_eq!(
        ls_tree_names(&encoder.finish().unwrap()),
        Err(LsTreeError::ReadObject(ReadObjectError::Decode(DecodeError::UnsupportedKind)))
    );
}

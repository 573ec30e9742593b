//! What the two reading commands decide: which file to read for an object
//! name, and what to show of the object that the file holds.

use vstd::prelude::*;
use vstd::string::StringSliceAdditionalSpecFns;
use crate::digest::{hex_bytes, hex_string, is_hex_string, parse_digest, store_path, StorePath};
use crate::object::{GitObject, ObjectView, TreeEntryView};
use crate::store::{read_object, stored_object, zlib_content, ReadObjectError};

verus! {

/// Why the content of an object is not shown.
#[derive(Debug, Clone, Copy, PartialEq, Eq, Structural)]
pub enum CatFileError {
    /// The object name does not have forty bytes.
    InvalidObjectName,
    /// Pretty-printing was not asked for, and nothing else is offered.
    MustUsePrettyPrint,
    /// The object name is not made of hexadecimal digits.
    InvalidHash,
    /// The file of the object gives no object.
    ReadObject(ReadObjectError),
    /// The object is not a blob.
    NotABlob,
}

/// Why the names of a tree are not listed.
#[derive(Debug, Clone, Copy, PartialEq, Eq, Structural)]
pub enum LsTreeError {
    /// Names only were not asked for, and nothing else is offered.
    MustUseNameOnly,
    /// The object name is not made of forty hexadecimal digits.
    InvalidHash,
    /// The file of the object gives no object.
    ReadObject(ReadObjectError),
    /// The object is not a tree.
    NotATree,
}

/// The place that an object name stands for: the name is read as a digest in
/// hexadecimal, in either case.
pub open spec fn named_place(object: Seq<char>) -> (Seq<char>, Seq<char>) {
    (hex_string(hex_bytes(object)).take(2), hex_string(hex_bytes(object)).skip(2))
}

/// The view of a place, or of the reason why there is none.
pub open spec fn place_view<E>(r: Result<StorePath, E>) -> Result<(Seq<char>, Seq<char>), E> {
    match r {
        Ok(path) => Ok((path.dir@, path.file@)),
        Err(e) => Err(e),
    }
}

/// The file to read for showing the object named `object`. The length of the
/// name is looked at first, then the option, then the digits.
pub fn cat_file_path(object: &str, pretty_print: bool) -> (r: Result<StorePath, CatFileError>)
    ensures
        place_view(r) == (if object.spec_bytes().len() != 40 {
            Err(CatFileError::InvalidObjectName)
        } else if !pretty_print {
            Err(CatFileError::MustUsePrettyPrint)
        } else if !(is_hex_string(object@) && object@.len() == 40) {
            Err(CatFileError::InvalidHash)
        } else {
            Ok(named_place(object@))
        }),
{
    if object.as_bytes().len() != 40 {
        return Err(CatFileError::InvalidObjectName);
    }
    if !pretty_print {
        return Err(CatFileError::MustUsePrettyPrint);
    }
    match parse_digest(object) {
        Err(_) => Err(CatFileError::InvalidHash),
        Ok(hashed) => Ok(store_path(&hashed.hash)),
    }
}

/// What is shown of an object: the content of a blob.
pub open spec fn shown_content(object: Result<ObjectView, ReadObjectError>) -> Result<
    Seq<u8>,
    CatFileError,
> {
    match object {
        Err(e) => Err(CatFileError::ReadObject(e)),
        Ok(ObjectView::Blob(content)) => Ok(content),
        Ok(ObjectView::Tree(_)) => Err(CatFileError::NotABlob),
    }
}

/// The view of an optional byte string.
pub open spec fn content_view(r: Result<Vec<u8>, CatFileError>) -> Result<Seq<u8>, CatFileError> {
    match r {
        Ok(content) => Ok(content@),
        Err(e) => Err(e),
    }
}

/// The bytes to show for the object whose file holds `file`.
pub fn cat_file_content(file: &[u8]) -> (r: Result<Vec<u8>, CatFileError>)
    ensures
        content_view(r) == shown_content(stored_object(zlib_content(file@))),
{
    match read_object(file) {
        Err(e) => Err(CatFileError::ReadObject(e)),
        Ok(GitObject::Blob(content)) => Ok(content),
        Ok(GitObject::Tree(_)) => Err(CatFileError::NotABlob),
    }
}

/// The file to read for listing the tree named `object`. The option is looked
/// at first, then the name.
pub fn ls_tree_path(object: &str, name_only: bool) -> (r: Result<StorePath, LsTreeError>)
    ensures
        place_view(r) == (if !name_only {
            Err(LsTreeError::MustUseNameOnly)
        } else if !(is_hex_string(object@) && object@.len() == 40) {
            Err(LsTreeError::InvalidHash)
        } else {
            Ok(named_place(object@))
        }),
{
    if !name_only {
        return Err(LsTreeError::MustUseNameOnly);
    }
    match parse_digest(object) {
        Err(_) => Err(LsTreeError::InvalidHash),
        Ok(hashed) => Ok(store_path(&hashed.hash)),
    }
}

/// What is listed of an object: the names of a tree's entries, in their
/// order.
pub open spec fn listed_names(object: Result<ObjectView, ReadObjectError>) -> Result<
    Seq<Seq<char>>,
    LsTreeError,
> {
    match object {
        Err(e) => Err(LsTreeError::ReadObject(e)),
        Ok(ObjectView::Tree(entries)) => Ok(entries.map_values(|e: TreeEntryView| e.name)),
        Ok(ObjectView::Blob(_)) => Err(LsTreeError::NotATree),
    }
}

/// The view of a list of names, or of the reason why there is none.
pub open spec fn names_view(r: Result<Vec<String>, LsTreeError>) -> Result<
    Seq<Seq<char>>,
    LsTreeError,
> {
    match r {
        Ok(names) => Ok(names@.map_values(|name: String| name@)),
        Err(e) => Err(e),
    }
}

/// The names to list for the object whose file holds `file`.
pub fn ls_tree_names(file: &[u8]) -> (r: Result<Vec<String>, LsTreeError>)
    ensures
        names_view(r) == listed_names(stored_object(zlib_content(file@))),
{
    match read_object(file) {
        Err(e) => Err(LsTreeError::ReadObject(e)),
        Ok(GitObject::Blob(_)) => Err(LsTreeError::NotATree),
        Ok(GitObject::Tree(entries)) => {
            let mut names: Vec<String> = Vec::new();
            let mut i: usize = 0;
            while i < entries.len()
                invariant
                    0 <= i <= entries.len(),
                    names@.len() == i,
                    forall|k: int| 0 <= k < i ==> names@[k]@ == entries@[k].name@,
                decreases entries.len() - i,
            {
                names.push(entries[i].name.clone());
                i = i + 1;
            }
            assert(names@.map_values(|name: String| name@) =~= crate::object::entries_view(
                entries@,
            ).map_values(|e: TreeEntryView| e.name));
            Ok(names)
        },
    }
}

} // verus!

//! Objects and their canonical byte framing.
//!
//! An object is a blob (opaque bytes) or a tree (named references to other
//! objects). Its framing is `<kind> <size>\0<payload>`: the kind in lower case,
//! the payload's length in decimal, a NUL byte, and the payload itself.

use vstd::prelude::*;
use vstd::utf8::encode_utf8;
use crate::bytes::append_bytes;
use crate::radix::{radix_digits, write_radix};

verus! {

/// One line of a tree: a file mode, a name, and the digest of the object that
/// the name refers to.
#[derive(Debug, Clone, PartialEq, Eq)]
pub struct TreeEntry {
    pub mode: u32,
    pub name: String,
    pub object_hash: [u8; 20],
}

/// An object of the store.
#[derive(Debug, Clone, PartialEq, Eq)]
pub enum GitObject {
    /// File contents.
    Blob(Vec<u8>),
    /// A directory: its entries, in the order in which they are written.
    Tree(Vec<TreeEntry>),
}

/// The mathematical value of a [`TreeEntry`].
pub struct TreeEntryView {
    pub mode: u32,
    pub name: Seq<char>,
    pub object_hash: Seq<u8>,
}

/// The mathematical value of a [`GitObject`].
pub enum ObjectView {
    Blob(Seq<u8>),
    Tree(Seq<TreeEntryView>),
}

impl View for TreeEntry {
    type V = TreeEntryView;

    open spec fn view(&self) -> TreeEntryView {
        TreeEntryView { mode: self.mode, name: self.name@, object_hash: self.object_hash@ }
    }
}

/// The values of a sequence of entries, in the same order.
pub open spec fn entries_view(entries: Seq<TreeEntry>) -> Seq<TreeEntryView> {
    Seq::new(entries.len(), |i: int| entries[i]@)
}

impl View for GitObject {
    type V = ObjectView;

    open spec fn view(&self) -> ObjectView {
        match self {
            GitObject::Blob(content) => ObjectView::Blob(content@),
            GitObject::Tree(entries) => ObjectView::Tree(entries_view(entries@)),
        }
    }
}

/// The ASCII bytes `blob`.
pub open spec fn blob_tag() -> Seq<u8> {
    seq![0x62u8, 0x6cu8, 0x6fu8, 0x62u8]
}

/// The ASCII bytes `tree`.
pub open spec fn tree_tag() -> Seq<u8> {
    seq![0x74u8, 0x72u8, 0x65u8, 0x65u8]
}

/// One tree entry as bytes: the mode in octal, a space, the name in UTF-8, a
/// NUL byte, and the twenty raw bytes of the digest.
pub open spec fn entry_bytes(e: TreeEntryView) -> Seq<u8> {
    radix_digits(e.mode as nat, 8) + seq![0x20u8] + encode_utf8(e.name) + seq![0u8]
        + e.object_hash
}

/// The payload of a tree: its entries as bytes, one after the other.
pub open spec fn tree_payload(entries: Seq<TreeEntryView>) -> Seq<u8>
    decreases entries.len(),
{
    if entries.len() == 0 {
        Seq::empty()
    } else {
        entry_bytes(entries.first()) + tree_payload(entries.drop_first())
    }
}

/// A payload behind its header: the kind, a space, the payload's length in
/// decimal and a NUL byte.
pub open spec fn framed(tag: Seq<u8>, payload: Seq<u8>) -> Seq<u8> {
    tag + seq![0x20u8] + radix_digits(payload.len(), 10) + seq![0u8] + payload
}

impl ObjectView {
    /// The kind of the object, as it stands at the start of the framing.
    pub open spec fn tag(self) -> Seq<u8> {
        match self {
            ObjectView::Blob(_) => blob_tag(),
            ObjectView::Tree(_) => tree_tag(),
        }
    }

    /// The bytes that the header announces.
    pub open spec fn payload(self) -> Seq<u8> {
        match self {
            ObjectView::Blob(content) => content,
            ObjectView::Tree(entries) => tree_payload(entries),
        }
    }

    /// The canonical framing of the object.
    pub open spec fn encoding(self) -> Seq<u8> {
        framed(self.tag(), self.payload())
    }
}

/// Appends the header for a payload of `len` bytes of the given kind.
fn write_header(tag: &[u8], len: usize, w: &mut Vec<u8>)
    ensures
        final(w)@ == old(w)@ + tag@ + seq![0x20u8] + radix_digits(len as nat, 10) + seq![0u8],
{
    append_bytes(w, tag);
    w.push(0x20u8);
    write_radix(len as u64, 10, w);
    w.push(0u8);
}

/// Appends the framing of a blob with the given content to `w`.
pub fn encode_blob(blob: &[u8], w: &mut Vec<u8>)
    ensures
        final(w)@ == old(w)@ + ObjectView::Blob(blob@).encoding(),
{
    let tag: [u8; 4] = [0x62u8, 0x6cu8, 0x6fu8, 0x62u8];
    assert(tag@ == blob_tag());
    write_header(tag.as_slice(), blob.len(), w);
    append_bytes(w, blob);
    assert(w@ == old(w)@ + framed(blob_tag(), blob@));
}

/// Appends one tree entry to `w`.
fn write_entry(entry: &TreeEntry, w: &mut Vec<u8>)
    ensures
        final(w)@ == old(w)@ + entry_bytes(entry@),
{
    write_radix(entry.mode as u64, 8, w);
    w.push(0x20u8);
    append_bytes(w, entry.name.as_str().as_bytes());
    w.push(0u8);
    append_bytes(w, entry.object_hash.as_slice());
    assert(w@ == old(w)@ + entry_bytes(entry@));
}

/// Appends the framing of a tree with the given entries, in the given order,
/// to `w`.
pub fn encode_tree(entries: &[TreeEntry], w: &mut Vec<u8>)
    ensures
        final(w)@ == old(w)@ + ObjectView::Tree(entries_view(entries@)).encoding(),
{
    let ghost all = entries_view(entries@);
    let mut payload: Vec<u8> = Vec::new();
    let mut i: usize = 0;
    assert(all.skip(0) == all);
    while i < entries.len()
        invariant
            0 <= i <= entries.len(),
            all == entries_view(entries@),
            tree_payload(all) == payload@ + tree_payload(all.skip(i as int)),
        decreases entries.len() - i,
    {
        write_entry(&entries[i], &mut payload);
        proof {
            let rest = all.skip(i as int);
            assert(rest.first() == entries@[i as int]@);
            assert(rest.drop_first() == all.skip(i + 1));
        }
        i = i + 1;
    }
    let tag: [u8; 4] = [0x74u8, 0x72u8, 0x65u8, 0x65u8];
    assert(tag@ == tree_tag());
    write_header(tag.as_slice(), payload.len(), w);
    append_bytes(w, payload.as_slice());
    assert(w@ == old(w)@ + framed(tree_tag(), tree_payload(all)));
}

/// Appends the canonical framing of `kind` to `w`.
pub fn encode_object(kind: &GitObject, w: &mut Vec<u8>)
    ensures
        final(w)@ == old(w)@ + kind@.encoding(),
{
    match kind {
        GitObject::Blob(blob) => encode_blob(blob.as_slice(), w),
        GitObject::Tree(entries) => encode_tree(entries.as_slice(), w),
    }
}

} // verus!

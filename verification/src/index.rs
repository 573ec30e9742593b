//! The staging index: a header, a run of entries, and a checksum.
//!
//! The file starts with the signature `DIRC`, a version and the number of
//! entries, each a big-endian 32-bit word, and ends with twenty bytes of
//! checksum. An entry is 62 bytes of fixed fields, a path that a NUL byte
//! ends, and further NUL bytes up to a multiple of eight.

use vstd::prelude::*;
use vstd::slice::slice_subrange;
use crate::object::TreeEntry;
use crate::bytes::{bytes_equal, digest_at, half_at, load_half, load_word, word_at};
use crate::scan::{find_byte, span_until};
use crate::sha1::{sha1, sha1_digest};
use crate::text::{read_text, utf8_text};

verus! {

/// One tracked file of the index.
#[derive(Debug, Clone, PartialEq, Eq)]
pub struct IndexEntry {
    pub ctime_s: u32,
    pub ctime_n: u32,
    pub mtime_s: u32,
    pub mtime_n: u32,
    pub dev: u32,
    pub ino: u32,
    pub mode: u32,
    pub uid: u32,
    pub gid: u32,
    pub size: u32,
    pub sha1: [u8; 20],
    pub flags: u16,
    pub path: String,
}

/// A parsed index file.
#[derive(Debug, Clone, PartialEq, Eq)]
pub struct Index {
    pub sha1: [u8; 20],
    pub version: u32,
    pub entries: Vec<IndexEntry>,
}

/// Why a byte string is not an index file.
#[derive(Debug, Clone, PartialEq, Eq)]
pub enum ReadIndexError {
    /// The file is too short to end with a checksum.
    NoIndexHash,
    /// The file does not start with `DIRC`; `found` holds its first four bytes.
    InvalidSignature { found: [u8; 4] },
    /// The file has no room for entries between header and checksum.
    NoIndexEntries,
    /// Fewer entries were found than the header declares.
    MissingEntries { expected: usize, got: usize },
    /// No NUL byte ends the path of an entry.
    NoIndexEntryPath,
    /// The path of an entry is not UTF-8.
    CorruptedPath,
    /// The padding of an entry runs past the end of the entries.
    TruncatedEntry,
}

/// The mathematical value of an [`IndexEntry`].
pub struct IndexEntryView {
    pub ctime_s: u32,
    pub ctime_n: u32,
    pub mtime_s: u32,
    pub mtime_n: u32,
    pub dev: u32,
    pub ino: u32,
    pub mode: u32,
    pub uid: u32,
    pub gid: u32,
    pub size: u32,
    pub sha1: Seq<u8>,
    pub flags: u16,
    pub path: Seq<char>,
}

/// The mathematical value of an [`Index`].
pub struct IndexView {
    pub sha1: Seq<u8>,
    pub version: u32,
    pub entries: Seq<IndexEntryView>,
}

/// The mathematical value of a [`ReadIndexError`].
pub enum ReadIndexErrorView {
    NoIndexHash,
    InvalidSignature { found: Seq<u8> },
    NoIndexEntries,
    MissingEntries { expected: nat, got: nat },
    NoIndexEntryPath,
    CorruptedPath,
    TruncatedEntry,
}

impl View for IndexEntry {
    type V = IndexEntryView;

    open spec fn view(&self) -> IndexEntryView {
        IndexEntryView {
            ctime_s: self.ctime_s,
            ctime_n: self.ctime_n,
            mtime_s: self.mtime_s,
            mtime_n: self.mtime_n,
            dev: self.dev,
            ino: self.ino,
            mode: self.mode,
            uid: self.uid,
            gid: self.gid,
            size: self.size,
            sha1: self.sha1@,
            flags: self.flags,
            path: self.path@,
        }
    }
}

/// The values of a sequence of index entries, in the same order.
pub open spec fn index_entries_view(entries: Seq<IndexEntry>) -> Seq<IndexEntryView> {
    Seq::new(entries.len(), |i: int| entries[i]@)
}

impl View for Index {
    type V = IndexView;

    open spec fn view(&self) -> IndexView {
        IndexView {
            sha1: self.sha1@,
            version: self.version,
            entries: index_entries_view(self.entries@),
        }
    }
}

impl View for ReadIndexError {
    type V = ReadIndexErrorView;

    open spec fn view(&self) -> ReadIndexErrorView {
        match self {
            ReadIndexError::NoIndexHash => ReadIndexErrorView::NoIndexHash,
            ReadIndexError::InvalidSignature { found } => ReadIndexErrorView::InvalidSignature {
                found: found@,
            },
            ReadIndexError::NoIndexEntries => ReadIndexErrorView::NoIndexEntries,
            ReadIndexError::MissingEntries { expected, got } => ReadIndexErrorView::MissingEntries {
                expected: *expected as nat,
                got: *got as nat,
            },
            ReadIndexError::NoIndexEntryPath => ReadIndexErrorView::NoIndexEntryPath,
            ReadIndexError::CorruptedPath => ReadIndexErrorView::CorruptedPath,
            ReadIndexError::TruncatedEntry => ReadIndexErrorView::TruncatedEntry,
        }
    }
}

/// The tree entry that an index entry stands for: its mode, its path as the
/// name, and its digest.
impl From<IndexEntry> for TreeEntry {
    fn from(entry: IndexEntry) -> (r: TreeEntry) {
        TreeEntry { mode: entry.mode, name: entry.path, object_hash: entry.sha1 }
    }
}

impl vstd::std_specs::convert::FromSpecImpl<IndexEntry> for TreeEntry {
    open spec fn obeys_from_spec() -> bool {
        true
    }

    open spec fn from_spec(entry: IndexEntry) -> TreeEntry {
        TreeEntry { mode: entry.mode, name: entry.path, object_hash: entry.sha1 }
    }
}

/// The ASCII bytes `DIRC`.
pub open spec fn index_signature() -> Seq<u8> {
    seq![0x44u8, 0x49u8, 0x52u8, 0x43u8]
}

/// The length of an entry whose path has `path_len` bytes: the fixed fields,
/// the path and at least one NUL byte, rounded up to a multiple of eight.
pub open spec fn entry_len(path_len: int) -> int {
    ((62 + path_len + 8) / 8) * 8
}

/// The entry whose fixed fields stand at the start of `bytes`, with the given
/// path.
pub open spec fn entry_fields(bytes: Seq<u8>, path: Seq<char>) -> IndexEntryView {
    IndexEntryView {
        ctime_s: word_at(bytes, 0),
        ctime_n: word_at(bytes, 4),
        mtime_s: word_at(bytes, 8),
        mtime_n: word_at(bytes, 12),
        dev: word_at(bytes, 16),
        ino: word_at(bytes, 20),
        mode: word_at(bytes, 24),
        uid: word_at(bytes, 28),
        gid: word_at(bytes, 32),
        size: word_at(bytes, 36),
        sha1: bytes.subrange(40, 60),
        flags: half_at(bytes, 60),
        path,
    }
}

/// The entry at the start of `bytes`, which hold more than 62 bytes, and the
/// number of bytes that it takes.
pub open spec fn first_entry(bytes: Seq<u8>) -> Result<(IndexEntryView, int), ReadIndexErrorView> {
    let path_len = span_until(bytes.skip(62), 0u8) as int;
    let path = bytes.subrange(62, 62 + path_len);
    if 62 + path_len == bytes.len() {
        Err(ReadIndexErrorView::NoIndexEntryPath)
    } else if utf8_text(path) is None {
        Err(ReadIndexErrorView::CorruptedPath)
    } else if entry_len(path_len) > bytes.len() {
        Err(ReadIndexErrorView::TruncatedEntry)
    } else {
        Ok((entry_fields(bytes, utf8_text(path)->0), entry_len(path_len)))
    }
}

/// The entries at the start of `bytes`: entries are read until `count` of them
/// have been read, or until 62 bytes or fewer are left.
pub open spec fn parse_entries(bytes: Seq<u8>, count: nat) -> Result<
    Seq<IndexEntryView>,
    ReadIndexErrorView,
>
    decreases count,
{
    if count == 0 || bytes.len() <= 62 {
        Ok(Seq::empty())
    } else {
        match first_entry(bytes) {
            Err(e) => Err(e),
            Ok((entry, taken)) => match parse_entries(bytes.skip(taken), (count - 1) as nat) {
                Err(e) => Err(e),
                Ok(entries) => Ok(seq![entry] + entries),
            },
        }
    }
}

/// The index that `bytes` hold, or the reason why they hold none. The checks
/// come in this order: room for the checksum, the signature, room for the
/// header, the entries, and their number against the header.
pub open spec fn parse_index(bytes: Seq<u8>) -> Result<IndexView, ReadIndexErrorView> {
    let declared = word_at(bytes, 8) as nat;
    if bytes.len() < 20 {
        Err(ReadIndexErrorView::NoIndexHash)
    } else if bytes.take(4) != index_signature() {
        Err(ReadIndexErrorView::InvalidSignature { found: bytes.take(4) })
    } else if bytes.len() < 32 {
        Err(ReadIndexErrorView::NoIndexEntries)
    } else {
        match parse_entries(bytes.subrange(12, bytes.len() - 20), declared) {
            Err(e) => Err(e),
            Ok(entries) => if entries.len() != declared {
                Err(ReadIndexErrorView::MissingEntries { expected: declared, got: entries.len() })
            } else {
                Ok(
                    IndexView {
                        sha1: bytes.skip(bytes.len() - 20),
                        version: word_at(bytes, 4),
                        entries,
                    },
                )
            },
        }
    }
}

/// A file that does not start with `DIRC` is no index.
pub proof fn lemma_signature_required(bytes: Seq<u8>)
    requires
        bytes.len() < 4 || bytes.take(4) != index_signature(),
    ensures
        parse_index(bytes) is Err,
{
}

/// A file in which fewer entries are found than its header declares is no
/// index.
pub proof fn lemma_declared_count_required(bytes: Seq<u8>)
    requires
        bytes.len() >= 32,
        parse_entries(bytes.subrange(12, bytes.len() - 20), word_at(bytes, 8) as nat)
            matches Ok(entries) && entries.len() != word_at(bytes, 8),
    ensures
        parse_index(bytes) is Err,
{
}

/// The entries that are read are never more than were asked for.
pub proof fn lemma_parse_entries_len(bytes: Seq<u8>, count: nat)
    ensures
        parse_entries(bytes, count) matches Ok(entries) ==> entries.len() <= count,
    decreases count,
{
    if count == 0 || bytes.len() <= 62 {
    } else if let Ok((entry, taken)) = first_entry(bytes) {
        lemma_parse_entries_len(bytes.skip(taken), (count - 1) as nat);
    }
}

/// The view of a parsing result.
pub open spec fn index_result_view(r: Result<Index, ReadIndexError>) -> Result<
    IndexView,
    ReadIndexErrorView,
> {
    match r {
        Ok(index) => Ok(index@),
        Err(e) => Err(e@),
    }
}

/// Whether the last twenty bytes of `bytes` are the digest of all the bytes
/// before them.
pub open spec fn checksum_holds(bytes: Seq<u8>) -> bool {
    bytes.len() >= 20 && bytes.skip(bytes.len() - 20) == sha1_digest(bytes.take(bytes.len() - 20))
}

/// Checks the checksum of an index file. [`read_index`] stores the checksum
/// and does not check it.
pub fn verify_checksum(index: &[u8]) -> (r: bool)
    ensures
        r == checksum_holds(index@),
{
    if index.len() < 20 {
        return false;
    }
    let body = slice_subrange(index, 0, index.len() - 20);
    let stored = slice_subrange(index, index.len() - 20, index.len());
    let computed = sha1(body);
    bytes_equal(stored, computed.as_slice())
}

/// Reads the entry at the start of `bytes`, and says how many bytes it takes.
fn read_entry(bytes: &[u8]) -> (r: Result<(IndexEntry, usize), ReadIndexError>)
    requires
        bytes.len() > 62,
    ensures
        match r {
            Ok((entry, taken)) => first_entry(bytes@) == Ok::<_, ReadIndexErrorView>(
                (entry@, taken as int),
            ) && 62 < taken <= bytes.len(),
            Err(e) => first_entry(bytes@) == Err::<(IndexEntryView, int), _>(e@),
        },
{
    let behind = slice_subrange(bytes, 62, bytes.len());
    let path_len = find_byte(behind, 0u8);
    if path_len == behind.len() {
        return Err(ReadIndexError::NoIndexEntryPath);
    }
    let path_bytes = slice_subrange(behind, 0, path_len);
    assert(path_bytes@ == bytes@.subrange(62, 62 + path_len));
    let path = match read_text(path_bytes) {
        Some(path) => path,
        None => {
            return Err(ReadIndexError::CorruptedPath);
        },
    };
    let used: usize = 62 + path_len + 1;
    let padding: usize = (8 - used % 8) % 8;
    if padding > bytes.len() - used {
        return Err(ReadIndexError::TruncatedEntry);
    }
    let taken: usize = used + padding;
    assert(taken == entry_len(path_len as int));
    let entry = IndexEntry {
        ctime_s: load_word(bytes, 0),
        ctime_n: load_word(bytes, 4),
        mtime_s: load_word(bytes, 8),
        mtime_n: load_word(bytes, 12),
        dev: load_word(bytes, 16),
        ino: load_word(bytes, 20),
        mode: load_word(bytes, 24),
        uid: load_word(bytes, 28),
        gid: load_word(bytes, 32),
        size: load_word(bytes, 36),
        sha1: digest_at(bytes, 40),
        flags: load_half(bytes, 60),
        path,
    };
    Ok((entry, taken))
}

/// Parses an index file.
pub fn read_index(index: &[u8]) -> (r: Result<Index, ReadIndexError>)
    ensures
        index_result_view(r) == parse_index(index@),
{
    if index.len() < 20 {
        return Err(ReadIndexError::NoIndexHash);
    }
    let signature: [u8; 4] = [0x44u8, 0x49u8, 0x52u8, 0x43u8];
    assert(signature@ == index_signature());
    let start = slice_subrange(index, 0, 4);
    if !bytes_equal(start, signature.as_slice()) {
        let found: [u8; 4] = [index[0], index[1], index[2], index[3]];
        assert(found@ == index@.take(4));
        return Err(ReadIndexError::InvalidSignature { found });
    }
    if index.len() < 32 {
        return Err(ReadIndexError::NoIndexEntries);
    }
    let sha1 = digest_at(index, index.len() - 20);
    let version = load_word(index, 4);
    let declared = load_word(index, 8);
    let all = slice_subrange(index, 12, index.len() - 20);
    let mut rest: &[u8] = all;
    let mut entries: Vec<IndexEntry> = Vec::new();
    while entries.len() < declared as usize && rest.len() > 62
        invariant
            index.len() >= 32,
            index@.take(4) == index_signature(),
            all@ == index@.subrange(12, index.len() - 20),
            declared == word_at(index@, 8),
            entries.len() <= declared,
            parse_entries(all@, declared as nat) == (match parse_entries(
                rest@,
                (declared - entries.len()) as nat,
            ) {
                Ok(more) => Ok::<_, ReadIndexErrorView>(index_entries_view(entries@) + more),
                Err(e) => Err(e),
            }),
        decreases rest.len(),
    {
        let ghost before = index_entries_view(entries@);
        let ghost left = (declared - entries.len()) as nat;
        let (entry, taken) = match read_entry(rest) {
            Ok(found) => found,
            Err(e) => {
                assert(parse_entries(rest@, left) == Err::<Seq<IndexEntryView>, _>(e@));
                return Err(e);
            },
        };
        entries.push(entry);
        proof {
            let e = entries@.last()@;
            assert(index_entries_view(entries@) == before + seq![e]);
            let next = parse_entries(rest@.skip(taken as int), (declared - entries.len()) as nat);
            if let Ok(more) = next {
                assert(before + (seq![e] + more) == (before + seq![e]) + more);
            }
        }
        rest = slice_subrange(rest, taken, rest.len());
    }
    assert(index_entries_view(entries@) + Seq::<IndexEntryView>::empty() == index_entries_view(
        entries@,
    ));
    if entries.len() != declared as usize {
        return Err(
            ReadIndexError::MissingEntries { expected: declared as usize, got: entries.len() },
        );
    }
    Ok(Index { sha1, version, entries })
}

} // verus!

//! Parsing the canonical framing back into an object.

use vstd::prelude::*;
use vstd::slice::slice_subrange;
use vstd::utf8::{decode_utf8, valid_utf8};
use crate::bytes::{append_bytes, bytes_equal, digest_at};
use crate::object::{blob_tag, tree_tag, GitObject, ObjectView, TreeEntry, TreeEntryView, entries_view};
use crate::radix::{parse_radix, radix_parse, radix_value};
use crate::text::read_text;
use crate::scan::{digit_span, find_byte, find_non_digit, lemma_digit_span, lemma_span_until, span_until};

verus! {

/// Where the header of a framing is broken.
#[derive(Debug, Clone, Copy, PartialEq, Eq, Structural)]
pub enum Corruption {
    /// The framing has fewer than two bytes.
    TooShort,
    /// No space ends the kind.
    NoSpace,
    /// Nothing but decimal digits follows the space.
    NoSizeEnd,
    /// The byte that ends the digits of the size is not NUL.
    SizeNotTerminated,
}

/// Why a byte string is not the framing of an object.
#[derive(Debug, Clone, Copy, PartialEq, Eq, Structural)]
pub enum DecodeError {
    /// The header is broken.
    CorruptedObject { context: Corruption },
    /// The size field is empty, or announces more bytes than follow it.
    InvalidObjectSize,
    /// The kind is `commit` or `tag`, which this store does not decode.
    UnsupportedKind,
    /// The kind is not one that the store knows.
    UnknownObjectKind,
    /// A tree entry lacks the space after its mode or the NUL after its name.
    CorruptedTreeEntry,
    /// A tree entry's mode is not an octal number that fits in 32 bits.
    TreeEntryMode,
    /// A tree entry's name is not UTF-8.
    TreeEntryName,
    /// Fewer than twenty bytes follow a tree entry's name.
    CorruptedTreeEntrySha1,
}

/// The ASCII bytes `commit`.
pub open spec fn commit_tag() -> Seq<u8> {
    seq![0x63u8, 0x6fu8, 0x6du8, 0x6du8, 0x69u8, 0x74u8]
}

/// The ASCII bytes `tag`.
pub open spec fn tag_tag() -> Seq<u8> {
    seq![0x74u8, 0x61u8, 0x67u8]
}

/// The kind and the payload that a framing announces: the kind is what stands
/// before the first space, the size is the run of decimal digits after it,
/// which a NUL byte must end, and the payload is that many of the bytes that
/// follow. Bytes behind the payload are not looked at.
pub open spec fn split_framing(bytes: Seq<u8>) -> Result<(Seq<u8>, Seq<u8>), DecodeError> {
    let kind_len = span_until(bytes, 0x20u8) as int;
    let rest = bytes.skip(kind_len + 1);
    let size_len = digit_span(rest) as int;
    let body = rest.skip(size_len + 1);
    let size = radix_value(rest.take(size_len), 10);
    if bytes.len() <= 1 {
        Err(DecodeError::CorruptedObject { context: Corruption::TooShort })
    } else if kind_len == bytes.len() {
        Err(DecodeError::CorruptedObject { context: Corruption::NoSpace })
    } else if size_len == rest.len() {
        Err(DecodeError::CorruptedObject { context: Corruption::NoSizeEnd })
    } else if rest[size_len] != 0u8 {
        Err(DecodeError::CorruptedObject { context: Corruption::SizeNotTerminated })
    } else if size_len == 0 || size > body.len() {
        Err(DecodeError::InvalidObjectSize)
    } else {
        Ok((bytes.take(kind_len), body.take(size as int)))
    }
}

/// The mode that the bytes before an entry's space stand for: octal digits,
/// which a single `+` may precede, with a value that fits in 32 bits.
pub open spec fn mode_value(s: Seq<u8>) -> Option<u32> {
    let digits = if s.len() > 0 && s[0] == 0x2bu8 {
        s.drop_first()
    } else {
        s
    };
    match radix_parse(digits, 8, 0xffff_ffff) {
        Some(v) => Some(v as u32),
        None => None,
    }
}

/// The entries that a tree payload holds. Each entry is a mode, a space, a
/// name, a NUL byte and twenty bytes of digest; the payload ends where an
/// entry ends.
pub open spec fn decode_entries(payload: Seq<u8>) -> Result<Seq<TreeEntryView>, DecodeError>
    decreases payload.len(),
    via decode_entries_decreases
{
    let mode_len = span_until(payload, 0x20u8) as int;
    let rest = payload.skip(mode_len + 1);
    let name_len = span_until(rest, 0u8) as int;
    let tail = rest.skip(name_len + 1);
    if payload.len() == 0 {
        Ok(Seq::empty())
    } else if mode_len == payload.len() {
        Err(DecodeError::CorruptedTreeEntry)
    } else if mode_value(payload.take(mode_len)) is None {
        Err(DecodeError::TreeEntryMode)
    } else if name_len == rest.len() {
        Err(DecodeError::CorruptedTreeEntry)
    } else if !valid_utf8(rest.take(name_len)) {
        Err(DecodeError::TreeEntryName)
    } else if tail.len() < 20 {
        Err(DecodeError::CorruptedTreeEntrySha1)
    } else {
        let entry = TreeEntryView {
            mode: mode_value(payload.take(mode_len))->0,
            name: decode_utf8(rest.take(name_len)),
            object_hash: tail.take(20),
        };
        match decode_entries(tail.skip(20)) {
            Ok(entries) => Ok(seq![entry] + entries),
            Err(e) => Err(e),
        }
    }
}

#[via_fn]
proof fn decode_entries_decreases(payload: Seq<u8>) {
    lemma_span_until(payload, 0x20u8);
    lemma_span_until(payload.skip(span_until(payload, 0x20u8) as int + 1), 0u8);
}

/// The object that a kind and a payload stand for.
pub open spec fn decode_payload(tag: Seq<u8>, payload: Seq<u8>) -> Result<ObjectView, DecodeError> {
    if tag == blob_tag() {
        Ok(ObjectView::Blob(payload))
    } else if tag == commit_tag() || tag == tag_tag() {
        Err(DecodeError::UnsupportedKind)
    } else if tag == tree_tag() {
        match decode_entries(payload) {
            Ok(entries) => Ok(ObjectView::Tree(entries)),
            Err(e) => Err(e),
        }
    } else {
        Err(DecodeError::UnknownObjectKind)
    }
}

/// The object that a byte string is the framing of, or the reason why it is
/// none. The header is checked before the kind, and the kind before the
/// payload.
pub open spec fn decoding(bytes: Seq<u8>) -> Result<ObjectView, DecodeError> {
    match split_framing(bytes) {
        Ok((tag, payload)) => decode_payload(tag, payload),
        Err(e) => Err(e),
    }
}

/// The view of a decoding result.
pub open spec fn result_view(r: Result<GitObject, DecodeError>) -> Result<ObjectView, DecodeError> {
    match r {
        Ok(object) => Ok(object@),
        Err(e) => Err(e),
    }
}

/// Reads the mode of a tree entry.
pub fn parse_mode(s: &[u8]) -> (r: Option<u32>)
    ensures
        r == mode_value(s@),
{
    let digits = if s.len() > 0 && s[0] == 0x2bu8 {
        slice_subrange(s, 1, s.len())
    } else {
        s
    };
    match parse_radix(digits, 8, 0xffff_ffff) {
        Some(v) => Some(v as u32),
        None => None,
    }
}

/// Splits a framing into its kind and its payload.
pub fn split_header<'a>(bytes: &'a [u8]) -> (r: Result<(&'a [u8], &'a [u8]), DecodeError>)
    ensures
        match r {
            Ok((tag, payload)) => split_framing(bytes@) == Ok::<_, DecodeError>((tag@, payload@)),
            Err(e) => split_framing(bytes@) == Err::<(Seq<u8>, Seq<u8>), _>(e),
        },
{
    if bytes.len() <= 1 {
        return Err(DecodeError::CorruptedObject { context: Corruption::TooShort });
    }
    let kind_len = find_byte(bytes, 0x20u8);
    if kind_len == bytes.len() {
        return Err(DecodeError::CorruptedObject { context: Corruption::NoSpace });
    }
    let rest = slice_subrange(bytes, kind_len + 1, bytes.len());
    let size_len = find_non_digit(rest);
    if size_len == rest.len() {
        return Err(DecodeError::CorruptedObject { context: Corruption::NoSizeEnd });
    }
    if rest[size_len] != 0u8 {
        return Err(DecodeError::CorruptedObject { context: Corruption::SizeNotTerminated });
    }
    let body = slice_subrange(rest, size_len + 1, rest.len());
    let digits = slice_subrange(rest, 0, size_len);
    match parse_radix(digits, 10, body.len() as u64) {
        None => {
            proof {
                lemma_digit_span(rest@);
            }
            Err(DecodeError::InvalidObjectSize)
        },
        Some(size) => {
            let tag = slice_subrange(bytes, 0, kind_len);
            let payload = slice_subrange(body, 0, size as usize);
            Ok((tag, payload))
        },
    }
}

/// Reads the entries of a tree payload.
pub fn decode_tree(payload: &[u8]) -> (r: Result<Vec<TreeEntry>, DecodeError>)
    ensures
        match r {
            Ok(entries) => decode_entries(payload@) == Ok::<_, DecodeError>(entries_view(entries@)),
            Err(e) => decode_entries(payload@) == Err::<Seq<TreeEntryView>, _>(e),
        },
{
    let mut entries: Vec<TreeEntry> = Vec::new();
    let mut rest: &[u8] = payload;
    loop
        invariant
            decode_entries(payload@) == (match decode_entries(rest@) {
                Ok(more) => Ok::<_, DecodeError>(entries_view(entries@) + more),
                Err(e) => Err(e),
            }),
        decreases rest.len(),
    {
        if rest.len() == 0 {
            assert(entries_view(entries@) + Seq::<TreeEntryView>::empty() == entries_view(
                entries@,
            ));
            return Ok(entries);
        }
        let mode_len = find_byte(rest, 0x20u8);
        if mode_len == rest.len() {
            return Err(DecodeError::CorruptedTreeEntry);
        }
        let mode = match parse_mode(slice_subrange(rest, 0, mode_len)) {
            Some(mode) => mode,
            None => {
                return Err(DecodeError::TreeEntryMode);
            },
        };
        let after_mode = slice_subrange(rest, mode_len + 1, rest.len());
        let name_len = find_byte(after_mode, 0u8);
        if name_len == after_mode.len() {
            return Err(DecodeError::CorruptedTreeEntry);
        }
        let name_bytes = slice_subrange(after_mode, 0, name_len);
        let name = match read_text(name_bytes) {
            Some(name) => name,
            None => {
                return Err(DecodeError::TreeEntryName);
            },
        };
        let tail = slice_subrange(after_mode, name_len + 1, after_mode.len());
        if tail.len() < 20 {
            return Err(DecodeError::CorruptedTreeEntrySha1);
        }
        let object_hash = digest_at(tail, 0);
        assert(tail@.subrange(0, 20) == tail@.take(20));
        let ghost before = entries_view(entries@);
        let entry = TreeEntry { mode, name, object_hash };
        entries.push(entry);
        proof {
            let e = entries@.last()@;
            assert(entries_view(entries@) == before + seq![e]);
            let next = decode_entries(tail@.skip(20));
            if let Ok(more) = next {
                assert(before + (seq![e] + more) == (before + seq![e]) + more);
            }
        }
        rest = slice_subrange(tail, 20, tail.len());
    }
}

/// Parses the canonical framing of an object.
pub fn decode_object(bytes: &[u8]) -> (r: Result<GitObject, DecodeError>)
    ensures
        result_view(r) == decoding(bytes@),
{
    let (tag, payload) = match split_header(bytes) {
        Ok(parts) => parts,
        Err(e) => {
            return Err(e);
        },
    };
    let blob: [u8; 4] = [0x62u8, 0x6cu8, 0x6fu8, 0x62u8];
    let commit: [u8; 6] = [0x63u8, 0x6fu8, 0x6du8, 0x6du8, 0x69u8, 0x74u8];
    let tag_kind: [u8; 3] = [0x74u8, 0x61u8, 0x67u8];
    let tree: [u8; 4] = [0x74u8, 0x72u8, 0x65u8, 0x65u8];
    assert(blob@ == blob_tag());
    assert(commit@ == commit_tag());
    assert(tag_kind@ == tag_tag());
    assert(tree@ == tree_tag());
    if bytes_equal(tag, blob.as_slice()) {
        let mut content: Vec<u8> = Vec::new();
        append_bytes(&mut content, payload);
        assert(content@ == payload@);
        Ok(GitObject::Blob(content))
    } else if bytes_equal(tag, commit.as_slice()) || bytes_equal(tag, tag_kind.as_slice()) {
        Err(DecodeError::UnsupportedKind)
    } else if bytes_equal(tag, tree.as_slice()) {
        match decode_tree(payload) {
            Ok(entries) => Ok(GitObject::Tree(entries)),
            Err(e) => Err(e),
        }
    } else {
        Err(DecodeError::UnknownObjectKind)
    }
}

} // verus!

//! What holds of encoding and decoding together: decoding undoes encoding, and
//! broken framings are rejected.

use vstd::prelude::*;
use vstd::utf8::{
    char_is_scalar, char_u32_cast, encode_scalar, encode_utf8, encode_utf8_decode_utf8,
    encode_utf8_valid_utf8,
};
use crate::decode::{decode_entries, decoding, mode_value, split_framing, DecodeError};
use crate::object::{blob_tag, entry_bytes, framed, tree_payload, tree_tag, ObjectView, TreeEntryView};
use crate::radix::{lemma_radix_round_trip, radix_digits, radix_parse};
use crate::scan::{digit_span, lemma_digit_span_is, lemma_span_until_is, span_until};

verus! {

/// A name that a tree entry can carry: one without the NUL character.
pub open spec fn nul_free(name: Seq<char>) -> bool {
    forall|i: int| 0 <= i < name.len() ==> name[i] != '\0'
}

/// An entry that the framing can carry: its name is free of NUL, and its
/// digest has twenty bytes.
pub open spec fn entry_well_formed(e: TreeEntryView) -> bool {
    nul_free(e.name) && e.object_hash.len() == 20
}

proof fn lemma_scalar_bytes_nonzero(c: u32)
    by (bit_vector)
    requires
        c != 0,
        c <= 0x10ffff,
    ensures
        (c & 0x7F) as u8 != 0 || c > 0x7f,
        0xC0u8 | ((c >> 6) & 0x1F) as u8 != 0,
        0xE0u8 | ((c >> 12) & 0x0F) as u8 != 0,
        0xF0u8 | ((c >> 18) & 0x7) as u8 != 0,
        0x80u8 | (c & 0x3F) as u8 != 0,
        0x80u8 | ((c >> 6) & 0x3F) as u8 != 0,
        0x80u8 | ((c >> 12) & 0x3F) as u8 != 0,
{
}

/// The UTF-8 encoding of a name without NUL holds no zero byte.
pub proof fn lemma_utf8_nul_free(name: Seq<char>)
    requires
        nul_free(name),
    ensures
        forall|j: int| 0 <= j < encode_utf8(name).len() ==> encode_utf8(name)[j] != 0u8,
    decreases name.len(),
{
    if name.len() > 0 {
        let c = name[0] as u32;
        let head = encode_scalar(c);
        let rest = name.drop_first();
        char_is_scalar(name[0]);
        assert(c != 0) by {
            char_u32_cast(name[0], c);
            char_u32_cast('\0', 0u32);
        }
        lemma_scalar_bytes_nonzero(c);
        assert(forall|j: int| 0 <= j < head.len() ==> head[j] != 0u8);
        assert forall|i: int| 0 <= i < rest.len() implies rest[i] != '\0' by {
            assert(rest[i] == name[i + 1]);
        }
        lemma_utf8_nul_free(rest);
        assert(encode_utf8(name) == head + encode_utf8(rest));
    }
}

/// A header written for a payload is read back as that kind and that payload,
/// provided that the kind holds no space.
pub proof fn lemma_split_framed(tag: Seq<u8>, payload: Seq<u8>)
    requires
        forall|j: int| 0 <= j < tag.len() ==> tag[j] != 0x20u8,
    ensures
        split_framing(framed(tag, payload)) == Ok::<_, DecodeError>((tag, payload)),
{
    let digits = radix_digits(payload.len(), 10);
    let bytes = framed(tag, payload);
    lemma_radix_round_trip(payload.len(), 10);
    let kind_len = tag.len() as int;
    assert(bytes[kind_len] == 0x20u8);
    assert forall|j: int| 0 <= j < kind_len implies bytes[j] != 0x20u8 by {
        assert(bytes[j] == tag[j]);
    }
    lemma_span_until_is(bytes, 0x20u8, kind_len);
    let rest = bytes.skip(kind_len + 1);
    assert(rest == digits + seq![0u8] + payload);
    let size_len = digits.len() as int;
    assert forall|j: int| 0 <= j < size_len implies 48 <= #[trigger] rest[j] <= 57 by {
        assert(rest[j] == digits[j]);
    }
    assert(rest[size_len] == 0u8);
    lemma_digit_span_is(rest, size_len);
    assert(rest.take(size_len) == digits);
    assert(rest.skip(size_len + 1) == payload);
    assert(payload.take(payload.len() as int) == payload);
    assert(bytes.take(kind_len) == tag);
}

/// The mode of an entry, written in octal, is read back as that mode.
pub proof fn lemma_mode_round_trip(mode: u32)
    ensures
        mode_value(radix_digits(mode as nat, 8)) == Some(mode),
        forall|j: int|
            0 <= j < radix_digits(mode as nat, 8).len() ==> radix_digits(mode as nat, 8)[j]
                != 0x20u8,
{
    let digits = radix_digits(mode as nat, 8);
    lemma_radix_round_trip(mode as nat, 8);
    assert(digits[0] != 0x2bu8);
    assert(radix_parse(digits, 8, 0xffff_ffff) == Some(mode as u64));
}

/// What is read from a payload that starts with the bytes of `entries`: the
/// entries, then whatever the rest of the payload gives.
pub open spec fn after_entries(
    entries: Seq<TreeEntryView>,
    rest: Result<Seq<TreeEntryView>, DecodeError>,
) -> Result<Seq<TreeEntryView>, DecodeError> {
    match rest {
        Ok(more) => Ok(entries + more),
        Err(e) => Err(e),
    }
}

/// One entry at the start of a payload is read back as it was written, and
/// reading goes on behind it.
pub proof fn lemma_first_entry(e: TreeEntryView, behind: Seq<u8>)
    requires
        entry_well_formed(e),
    ensures
        decode_entries(entry_bytes(e) + behind) == after_entries(seq![e], decode_entries(behind)),
{
    let payload = entry_bytes(e) + behind;
    let mode = radix_digits(e.mode as nat, 8);
    let name = encode_utf8(e.name);
    assert(payload == mode + seq![0x20u8] + name + seq![0u8] + e.object_hash + behind);

    lemma_mode_round_trip(e.mode);
    let mode_len = mode.len() as int;
    assert(payload[mode_len] == 0x20u8);
    assert forall|j: int| 0 <= j < mode_len implies payload[j] != 0x20u8 by {
        assert(payload[j] == mode[j]);
    }
    lemma_span_until_is(payload, 0x20u8, mode_len);
    assert(payload.take(mode_len) == mode);

    let rest = payload.skip(mode_len + 1);
    assert(rest == name + seq![0u8] + e.object_hash + behind);
    lemma_utf8_nul_free(e.name);
    let name_len = name.len() as int;
    assert(rest[name_len] == 0u8);
    assert forall|j: int| 0 <= j < name_len implies rest[j] != 0u8 by {
        assert(rest[j] == name[j]);
    }
    lemma_span_until_is(rest, 0u8, name_len);
    assert(rest.take(name_len) == name);
    encode_utf8_valid_utf8(e.name);
    encode_utf8_decode_utf8(e.name);

    let tail = rest.skip(name_len + 1);
    assert(tail == e.object_hash + behind);
    assert(tail.take(20) == e.object_hash);
    assert(tail.skip(20) == behind);
}

/// The entries at the start of a tree payload are read back as they were
/// written, and reading goes on behind them.
pub proof fn lemma_entries_then(entries: Seq<TreeEntryView>, behind: Seq<u8>)
    requires
        forall|i: int| 0 <= i < entries.len() ==> entry_well_formed(#[trigger] entries[i]),
    ensures
        decode_entries(tree_payload(entries) + behind) == after_entries(
            entries,
            decode_entries(behind),
        ),
    decreases entries.len(),
{
    if entries.len() == 0 {
        assert(tree_payload(entries) + behind == behind);
        if let Ok(more) = decode_entries(behind) {
            assert(entries + more == more);
        }
    } else {
        let e = entries.first();
        let others = entries.drop_first();
        assert(entry_well_formed(entries[0]));
        assert forall|i: int| 0 <= i < others.len() implies entry_well_formed(
            #[trigger] others[i],
        ) by {
            assert(others[i] == entries[i + 1]);
        }
        assert(tree_payload(entries) + behind == entry_bytes(e) + (tree_payload(others) + behind));
        lemma_first_entry(e, tree_payload(others) + behind);
        lemma_entries_then(others, behind);
        if let Ok(more) = decode_entries(behind) {
            assert(seq![e] + (others + more) == entries + more);
        }
    }
}

/// The entries of a tree payload are read back as they were written.
pub proof fn lemma_entries_round_trip(entries: Seq<TreeEntryView>)
    requires
        forall|i: int| 0 <= i < entries.len() ==> entry_well_formed(#[trigger] entries[i]),
    ensures
        decode_entries(tree_payload(entries)) == Ok::<_, DecodeError>(entries),
{
    lemma_entries_then(entries, Seq::empty());
    assert(tree_payload(entries) + Seq::<u8>::empty() == tree_payload(entries));
    assert(entries + Seq::<TreeEntryView>::empty() == entries);
}

/// Decoding the framing of a blob gives the blob back, whatever its content.
pub proof fn lemma_blob_round_trip(content: Seq<u8>)
    ensures
        decoding(ObjectView::Blob(content).encoding()) == Ok::<_, DecodeError>(
            ObjectView::Blob(content),
        ),
{
    lemma_split_framed(blob_tag(), content);
}

/// Decoding the framing of a tree gives the same entries in the same order,
/// provided that no name holds a NUL character.
pub proof fn lemma_tree_round_trip(entries: Seq<TreeEntryView>)
    requires
        forall|i: int| 0 <= i < entries.len() ==> entry_well_formed(#[trigger] entries[i]),
    ensures
        decoding(ObjectView::Tree(entries).encoding()) == Ok::<_, DecodeError>(
            ObjectView::Tree(entries),
        ),
{
    lemma_split_framed(tree_tag(), tree_payload(entries));
    lemma_entries_round_trip(entries);
    assert(tree_tag() != blob_tag()) by {
        assert(tree_tag()[0] != blob_tag()[0]);
    }
    assert(tree_tag() != crate::decode::commit_tag()) by {
        assert(tree_tag().len() != crate::decode::commit_tag().len());
    }
    assert(tree_tag() != crate::decode::tag_tag()) by {
        assert(tree_tag().len() != crate::decode::tag_tag().len());
    }
}

/// A framing in which no NUL byte follows the digits of the size is rejected
/// as corrupt, whatever else it holds.
pub proof fn lemma_size_without_nul_rejected(bytes: Seq<u8>)
    requires
        bytes.len() > 1,
        span_until(bytes, 0x20u8) < bytes.len(),
        ({
            let rest = bytes.skip(span_until(bytes, 0x20u8) as int + 1);
            digit_span(rest) == rest.len() || rest[digit_span(rest) as int] != 0u8
        }),
    ensures
        decoding(bytes) is Err,
        decoding(bytes)->Err_0 is CorruptedObject,
{
}

/// A tree whose last entry has fewer than twenty bytes behind its name is
/// rejected, whatever well-formed entries stand before it.
pub proof fn lemma_short_digest_rejected(
    entries: Seq<TreeEntryView>,
    last: TreeEntryView,
    short: Seq<u8>,
)
    requires
        forall|i: int| 0 <= i < entries.len() ==> entry_well_formed(#[trigger] entries[i]),
        nul_free(last.name),
        short.len() < 20,
    ensures
        decode_entries(
            tree_payload(entries) + (radix_digits(last.mode as nat, 8) + seq![0x20u8] + encode_utf8(
                last.name,
            ) + seq![0u8] + short),
        ) == Err::<Seq<TreeEntryView>, _>(DecodeError::CorruptedTreeEntrySha1),
{
    let mode = radix_digits(last.mode as nat, 8);
    let name = encode_utf8(last.name);
    let payload = mode + seq![0x20u8] + name + seq![0u8] + short;
    lemma_entries_then(entries, payload);

    lemma_mode_round_trip(last.mode);
    let mode_len = mode.len() as int;
    assert(payload[mode_len] == 0x20u8);
    assert forall|j: int| 0 <= j < mode_len implies payload[j] != 0x20u8 by {
        assert(payload[j] == mode[j]);
    }
    lemma_span_until_is(payload, 0x20u8, mode_len);
    assert(payload.take(mode_len) == mode);

    let rest = payload.skip(mode_len + 1);
    assert(rest == name + seq![0u8] + short);
    lemma_utf8_nul_free(last.name);
    let name_len = name.len() as int;
    assert(rest[name_len] == 0u8);
    assert forall|j: int| 0 <= j < name_len implies rest[j] != 0u8 by {
        assert(rest[j] == name[j]);
    }
    lemma_span_until_is(rest, 0u8, name_len);
    assert(rest.take(name_len) == name);
    encode_utf8_valid_utf8(last.name);
    assert(rest.skip(name_len + 1) == short);
}

} // verus!

//! Small operations on byte strings: copying, comparing, and reading
//! big-endian integers.

use vstd::prelude::*;

verus! {

/// The 32-bit word whose bytes, most significant first, stand at `i` to
/// `i + 3` in `bytes`.
pub open spec fn word_at(bytes: Seq<u8>, i: int) -> u32 {
    ((bytes[i] as u32) << 24) | ((bytes[i + 1] as u32) << 16) | ((bytes[i + 2] as u32) << 8) | (
    bytes[i + 3] as u32)
}

/// The 16-bit word whose bytes, most significant first, stand at `i` and
/// `i + 1` in `bytes`.
pub open spec fn half_at(bytes: Seq<u8>, i: int) -> u16 {
    ((bytes[i] as u16) << 8) | (bytes[i + 1] as u16)
}

/// Appends `src` to `out`.
pub fn append_bytes(out: &mut Vec<u8>, src: &[u8])
    ensures
        final(out)@ == old(out)@ + src@,
{
    let mut i: usize = 0;
    while i < src.len()
        invariant
            0 <= i <= src.len(),
            out@ == old(out)@ + src@.take(i as int),
        decreases src.len() - i,
    {
        out.push(src[i]);
        i = i + 1;
        assert(src@.take(i as int) == src@.take(i - 1).push(src@[i - 1]));
    }
    assert(src@.take(i as int) == src@);
}

/// Whether `a` and `b` hold the same bytes.
pub fn bytes_equal(a: &[u8], b: &[u8]) -> (r: bool)
    ensures
        r == (a@ == b@),
{
    if a.len() != b.len() {
        return false;
    }
    let mut i: usize = 0;
    while i < a.len()
        invariant
            0 <= i <= a.len(),
            a.len() == b.len(),
            a@.take(i as int) == b@.take(i as int),
        decreases a.len() - i,
    {
        if a[i] != b[i] {
            return false;
        }
        i = i + 1;
        assert(a@.take(i as int) == a@.take(i - 1).push(a@[i - 1]));
        assert(b@.take(i as int) == b@.take(i - 1).push(b@[i - 1]));
    }
    assert(a@.take(i as int) == a@);
    assert(b@.take(i as int) == b@);
    true
}

/// The twenty bytes that start at `start` in `bytes`.
pub(crate) fn digest_at(bytes: &[u8], start: usize) -> (digest: [u8; 20])
    requires
        start + 20 <= bytes.len(),
    ensures
        digest@ == bytes@.subrange(start as int, start + 20),
{
    let mut digest: [u8; 20] = [0u8; 20];
    let mut i: usize = 0;
    while i < 20
        invariant
            0 <= i <= 20,
            start + 20 <= bytes.len(),
            forall|j: int| 0 <= j < i ==> digest@[j] == bytes@[start + j],
        decreases 20 - i,
    {
        digest[i] = bytes[start + i];
        i = i + 1;
    }
    assert(digest@ =~= bytes@.subrange(start as int, start + 20));
    digest
}

/// Reads the big-endian 32-bit word at `i`.
pub(crate) fn load_word(bytes: &[u8], i: usize) -> (w: u32)
    requires
        i + 4 <= bytes.len(),
    ensures
        w == word_at(bytes@, i as int),
{
    ((bytes[i] as u32) << 24) | ((bytes[i + 1] as u32) << 16) | ((bytes[i + 2] as u32) << 8) | (
    bytes[i + 3] as u32)
}

/// Reads the big-endian 16-bit word at `i`.
pub(crate) fn load_half(bytes: &[u8], i: usize) -> (w: u16)
    requires
        i + 2 <= bytes.len(),
    ensures
        w == half_at(bytes@, i as int),
{
    ((bytes[i] as u16) << 8) | (bytes[i + 1] as u16)
}

} // verus!

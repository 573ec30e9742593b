//! The SHA-1 digest (FIPS 180), stated as a function on byte sequences and
//! computed block by block.

use vstd::prelude::*;
use crate::bytes::{append_bytes, load_word, word_at};

verus! {

/// The five working words of the digest.
#[derive(Debug, Clone, Copy, PartialEq, Eq, Structural)]
pub struct State {
    pub a: u32,
    pub b: u32,
    pub c: u32,
    pub d: u32,
    pub e: u32,
}

/// The state before any block has been read.
pub open spec fn initial_state() -> State {
    State { a: 0x67452301, b: 0xEFCDAB89, c: 0x98BADCFE, d: 0x10325476, e: 0xC3D2E1F0 }
}

/// `x` rotated left by `n` bits, for `n` from 1 to 31.
pub open spec fn rotate_left(x: u32, n: u32) -> u32 {
    (x << n) | (x >> ((32 - n) as u32))
}

/// The four bytes of `w`, most significant first.
pub open spec fn word_bytes(w: u32) -> Seq<u8> {
    seq![
        ((w >> 24) & 0xff) as u8,
        ((w >> 16) & 0xff) as u8,
        ((w >> 8) & 0xff) as u8,
        (w & 0xff) as u8,
    ]
}

/// The eight bytes of `v`, most significant first.
pub open spec fn length_bytes(v: u64) -> Seq<u8> {
    seq![
        ((v >> 56) & 0xff) as u8,
        ((v >> 48) & 0xff) as u8,
        ((v >> 40) & 0xff) as u8,
        ((v >> 32) & 0xff) as u8,
        ((v >> 24) & 0xff) as u8,
        ((v >> 16) & 0xff) as u8,
        ((v >> 8) & 0xff) as u8,
        (v & 0xff) as u8,
    ]
}

/// Word `t` of the message schedule of a 64-byte block: the sixteen words of
/// the block, then each word made of four earlier ones.
pub open spec fn schedule(block: Seq<u8>, t: int) -> u32
    decreases t,
{
    if t < 16 {
        word_at(block, 4 * t)
    } else {
        rotate_left(
            schedule(block, t - 3) ^ schedule(block, t - 8) ^ schedule(block, t - 14) ^ schedule(
                block,
                t - 16,
            ),
            1,
        )
    }
}

/// The logical function of round `t`.
pub open spec fn round_function(t: int, b: u32, c: u32, d: u32) -> u32 {
    if t < 20 {
        (b & c) | ((!b) & d)
    } else if t < 40 {
        b ^ c ^ d
    } else if t < 60 {
        (b & c) | (b & d) | (c & d)
    } else {
        b ^ c ^ d
    }
}

/// The constant of round `t`.
pub open spec fn round_constant(t: int) -> u32 {
    if t < 20 {
        0x5A827999
    } else if t < 40 {
        0x6ED9EBA1
    } else if t < 60 {
        0x8F1BBCDC
    } else {
        0xCA62C1D6
    }
}

/// The state after round `t`, which reads the schedule word `w`.
pub open spec fn round(s: State, t: int, w: u32) -> State {
    State {
        a: rotate_left(s.a, 5).wrapping_add(round_function(t, s.b, s.c, s.d)).wrapping_add(
            s.e,
        ).wrapping_add(round_constant(t)).wrapping_add(w),
        b: s.a,
        c: rotate_left(s.b, 30),
        d: s.c,
        e: s.d,
    }
}

/// The state after the first `t` rounds on a block, starting from `s`.
pub open spec fn rounds(s: State, block: Seq<u8>, t: nat) -> State
    decreases t,
{
    if t == 0 {
        s
    } else {
        round(rounds(s, block, (t - 1) as nat), t - 1, schedule(block, t - 1))
    }
}

/// The state after a 64-byte block: eighty rounds, added word by word to the
/// state before the block.
pub open spec fn compress(h: State, block: Seq<u8>) -> State {
    let r = rounds(h, block, 80);
    State {
        a: h.a.wrapping_add(r.a),
        b: h.b.wrapping_add(r.b),
        c: h.c.wrapping_add(r.c),
        d: h.d.wrapping_add(r.d),
        e: h.e.wrapping_add(r.e),
    }
}

/// The number of zero bytes in the padding of a message of `len` bytes: the
/// fewest that bring the length, with the byte `0x80` before them and the
/// eight bytes of the bit count behind them, to a multiple of 64.
pub open spec fn zero_padding(len: nat) -> nat {
    ((119 - len % 64) % 64) as nat
}

/// The bit count that ends the padding: eight times the length, in 64 bits.
pub open spec fn bit_count(len: nat) -> u64 {
    ((8 * len) % 0x1_0000_0000_0000_0000) as u64
}

/// A message with its padding: the byte `0x80`, zero bytes, and the bit count
/// of the message.
pub open spec fn padded(message: Seq<u8>) -> Seq<u8> {
    message + seq![0x80u8] + Seq::new(zero_padding(message.len()), |i: int| 0u8) + length_bytes(
        bit_count(message.len()),
    )
}

/// The state after the first `n` blocks of `data`.
pub open spec fn absorb(data: Seq<u8>, n: nat) -> State
    decreases n,
{
    if n == 0 {
        initial_state()
    } else {
        compress(absorb(data, (n - 1) as nat), data.subrange(64 * (n - 1), 64 * (n as int)))
    }
}

/// The twenty bytes of a state: its five words, each most significant byte
/// first.
pub open spec fn state_bytes(s: State) -> Seq<u8> {
    word_bytes(s.a) + word_bytes(s.b) + word_bytes(s.c) + word_bytes(s.d) + word_bytes(s.e)
}

/// The SHA-1 digest of a message.
pub open spec fn sha1_digest(message: Seq<u8>) -> Seq<u8> {
    state_bytes(absorb(padded(message), padded(message).len() / 64))
}

/// The padded length of a message is a whole number of blocks.
pub proof fn lemma_padded_len(message: Seq<u8>)
    ensures
        padded(message).len() == message.len() + 9 + zero_padding(message.len()),
        padded(message).len() % 64 == 0,
{
}

/// The digest of any message has twenty bytes.
pub proof fn lemma_digest_len(message: Seq<u8>)
    ensures
        sha1_digest(message).len() == 20,
{
}

fn rotl(x: u32, n: u32) -> (r: u32)
    requires
        0 < n < 32,
    ensures
        r == rotate_left(x, n),
{
    (x << n) | (x >> (32 - n))
}

/// The state after the 64-byte block that starts at `start` in `data`.
fn compress_block(h: State, data: &[u8], start: usize) -> (r: State)
    requires
        start + 64 <= data.len(),
    ensures
        r == compress(h, data@.subrange(start as int, start + 64)),
{
    let block = vstd::slice::slice_subrange(data, start, start + 64);
    let mut w: [u32; 80] = [0u32; 80];
    let mut t: usize = 0;
    while t < 80
        invariant
            0 <= t <= 80,
            block@.len() == 64,
            forall|j: int| 0 <= j < t ==> w@[j] == schedule(block@, j),
        decreases 80 - t,
    {
        if t < 16 {
            w[t] = load_word(block, 4 * t);
        } else {
            w[t] = rotl(w[t - 3] ^ w[t - 8] ^ w[t - 14] ^ w[t - 16], 1);
        }
        t = t + 1;
    }
    let mut s = h;
    let mut t: usize = 0;
    while t < 80
        invariant
            0 <= t <= 80,
            forall|j: int| 0 <= j < 80 ==> w@[j] == schedule(block@, j),
            s == rounds(h, block@, t as nat),
        decreases 80 - t,
    {
        let f: u32;
        let k: u32;
        if t < 20 {
            f = (s.b & s.c) | ((!s.b) & s.d);
            k = 0x5A827999;
        } else if t < 40 {
            f = s.b ^ s.c ^ s.d;
            k = 0x6ED9EBA1;
        } else if t < 60 {
            f = (s.b & s.c) | (s.b & s.d) | (s.c & s.d);
            k = 0x8F1BBCDC;
        } else {
            f = s.b ^ s.c ^ s.d;
            k = 0xCA62C1D6;
        }
        let a = rotl(s.a, 5).wrapping_add(f).wrapping_add(s.e).wrapping_add(k).wrapping_add(w[t]);
        s = State { a, b: s.a, c: rotl(s.b, 30), d: s.c, e: s.d };
        t = t + 1;
    }
    State {
        a: h.a.wrapping_add(s.a),
        b: h.b.wrapping_add(s.b),
        c: h.c.wrapping_add(s.c),
        d: h.d.wrapping_add(s.d),
        e: h.e.wrapping_add(s.e),
    }
}

/// Appends the padding of a message of `len` bytes to `buffer`.
fn push_padding(buffer: &mut Vec<u8>, len: usize)
    ensures
        final(buffer)@ == old(buffer)@ + seq![0x80u8] + Seq::new(
            zero_padding(len as nat),
            |i: int| 0u8,
        ) + length_bytes(bit_count(len as nat)),
{
    buffer.push(0x80u8);
    let zeros: usize = (119 - len % 64) % 64;
    let mut i: usize = 0;
    while i < zeros
        invariant
            0 <= i <= zeros,
            buffer@ == old(buffer)@ + seq![0x80u8] + Seq::new(i as nat, |i: int| 0u8),
        decreases zeros - i,
    {
        buffer.push(0u8);
        i = i + 1;
    }
    let bits: u64 = (len as u64).wrapping_mul(8);
    assert(bits == bit_count(len as nat));
    buffer.push(((bits >> 56) & 0xff) as u8);
    buffer.push(((bits >> 48) & 0xff) as u8);
    buffer.push(((bits >> 40) & 0xff) as u8);
    buffer.push(((bits >> 32) & 0xff) as u8);
    buffer.push(((bits >> 24) & 0xff) as u8);
    buffer.push(((bits >> 16) & 0xff) as u8);
    buffer.push(((bits >> 8) & 0xff) as u8);
    buffer.push((bits & 0xff) as u8);
}

/// The SHA-1 digest of `data`.
pub fn sha1(data: &[u8]) -> (digest: [u8; 20])
    ensures
        digest@ == sha1_digest(data@),
{
    let mut buffer: Vec<u8> = Vec::new();
    append_bytes(&mut buffer, data);
    push_padding(&mut buffer, data.len());
    assert(buffer@ == padded(data@));
    proof {
        lemma_padded_len(data@);
    }
    let blocks: usize = buffer.len() / 64;
    let mut h = State {
        a: 0x67452301,
        b: 0xEFCDAB89,
        c: 0x98BADCFE,
        d: 0x10325476,
        e: 0xC3D2E1F0,
    };
    let mut n: usize = 0;
    while n < blocks
        invariant
            0 <= n <= blocks,
            blocks == buffer.len() / 64,
            h == absorb(buffer@, n as nat),
        decreases blocks - n,
    {
        h = compress_block(h, buffer.as_slice(), 64 * n);
        n = n + 1;
    }
    let digest: [u8; 20] = [
        ((h.a >> 24) & 0xff) as u8,
        ((h.a >> 16) & 0xff) as u8,
        ((h.a >> 8) & 0xff) as u8,
        (h.a & 0xff) as u8,
        ((h.b >> 24) & 0xff) as u8,
        ((h.b >> 16) & 0xff) as u8,
        ((h.b >> 8) & 0xff) as u8,
        (h.b & 0xff) as u8,
        ((h.c >> 24) & 0xff) as u8,
        ((h.c >> 16) & 0xff) as u8,
        ((h.c >> 8) & 0xff) as u8,
        (h.c & 0xff) as u8,
        ((h.d >> 24) & 0xff) as u8,
        ((h.d >> 16) & 0xff) as u8,
        ((h.d >> 8) & 0xff) as u8,
        (h.d & 0xff) as u8,
        ((h.e >> 24) & 0xff) as u8,
        ((h.e >> 16) & 0xff) as u8,
        ((h.e >> 8) & 0xff) as u8,
        (h.e & 0xff) as u8,
    ];
    assert(digest@ == state_bytes(h));
    digest
}

} // verus!

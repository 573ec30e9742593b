//! Digests as text: forty lower-case hexadecimal characters, and the split of
//! that text into the directory and the file under which an object is stored.

use vstd::prelude::*;
use vstd::slice::slice_subrange;
use crate::bytes::digest_at;
use crate::sha1::{sha1, sha1_digest};

verus! {

/// The lower-case hexadecimal digit for a value below sixteen.
pub open spec fn hex_digit(n: u8) -> char
    recommends
        n < 16,
{
    if n < 10 {
        (48 + n) as char
    } else {
        (87 + n) as char
    }
}

/// The text of `bytes` in hexadecimal: two lower-case digits for each byte, the
/// upper half of the byte first.
pub open spec fn hex_string(bytes: Seq<u8>) -> Seq<char> {
    Seq::new(
        2 * bytes.len(),
        |i: int|
            if i % 2 == 0 {
                hex_digit(bytes[i / 2] / 16)
            } else {
                hex_digit(bytes[i / 2] % 16)
            },
    )
}

/// The value of a hexadecimal digit of either case.
pub open spec fn hex_value(c: char) -> Option<u8> {
    let v = c as u32;
    if 48 <= v <= 57 {
        Some((v - 48) as u8)
    } else if 97 <= v <= 102 {
        Some((v - 87) as u8)
    } else if 65 <= v <= 70 {
        Some((v - 55) as u8)
    } else {
        None
    }
}

/// `s` is made of an even number of hexadecimal digits.
pub open spec fn is_hex_string(s: Seq<char>) -> bool {
    s.len() % 2 == 0 && forall|i: int| 0 <= i < s.len() ==> hex_value(#[trigger] s[i]) is Some
}

/// The bytes that a hexadecimal text stands for, two digits to the byte.
pub open spec fn hex_bytes(s: Seq<char>) -> Seq<u8> {
    Seq::new(
        s.len() / 2,
        |i: int| (16 * hex_value(s[2 * i])->0 + hex_value(s[2 * i + 1])->0) as u8,
    )
}

/// `hex::FromHexError`, carried through without a look inside.
#[verifier::external_type_specification]
#[verifier::external_body]
pub struct ExFromHexError(hex::FromHexError);

/// `hex::encode`: the text of `data` in lower-case hexadecimal, two digits for
/// each byte.
#[verifier::external_body]
fn hex_encode(data: &[u8]) -> (text: String)
    ensures
        text@ == hex_string(data@),
{
    hex::encode(data)
}

/// `hex::decode`: succeeds exactly on an even number of hexadecimal digits of
/// either case, and then returns the bytes that they stand for.
#[verifier::external_body]
fn hex_decode(text: &str) -> (r: Result<Vec<u8>, hex::FromHexError>)
    ensures
        r is Ok <==> is_hex_string(text@),
        r is Ok ==> r->Ok_0@ == hex_bytes(text@),
{
    hex::decode(text)
}

/// A digest with its text.
#[derive(Debug, Clone, PartialEq, Eq)]
pub struct HashedObject {
    pub hash: [u8; 20],
    pub hash_str: String,
}

impl HashedObject {
    /// The text is the digest in hexadecimal.
    pub open spec fn well_formed(&self) -> bool {
        self.hash_str@ == hex_string(self.hash@)
    }
}

/// A text that names no digest: it is not made of forty hexadecimal digits.
#[derive(Debug, Clone, Copy, PartialEq, Eq, Structural)]
pub struct InvalidHash;

/// The digest of `bytes`, with its text.
pub fn hash_bytes(bytes: &[u8]) -> (hashed: HashedObject)
    ensures
        hashed.hash@ == sha1_digest(bytes@),
        hashed.well_formed(),
{
    let hash = sha1(bytes);
    let hash_str = hex_encode(hash.as_slice());
    HashedObject { hash, hash_str }
}

/// Reads a digest from its text. Digits of either case are accepted; the text
/// of the result is in lower case.
pub fn parse_digest(text: &str) -> (r: Result<HashedObject, InvalidHash>)
    ensures
        r is Ok <==> is_hex_string(text@) && text@.len() == 40,
        r is Ok ==> r->Ok_0.hash@ == hex_bytes(text@) && r->Ok_0.well_formed(),
{
    match hex_decode(text) {
        Err(_) => Err(InvalidHash),
        Ok(bytes) => {
            if bytes.len() != 20 {
                return Err(InvalidHash);
            }
            let hash = digest_at(bytes.as_slice(), 0);
            assert(hash@ == bytes@);
            let hash_str = hex_encode(hash.as_slice());
            Ok(HashedObject { hash, hash_str })
        },
    }
}

/// Where an object lies in the store: a directory named by the first two
/// characters of the digest's text, and in it a file named by the other
/// thirty-eight.
#[derive(Debug, Clone, PartialEq, Eq)]
pub struct StorePath {
    pub dir: String,
    pub file: String,
}

/// The place of the object with the given digest.
pub fn store_path(hash: &[u8; 20]) -> (path: StorePath)
    ensures
        path.dir@ == hex_string(hash@).take(2),
        path.file@ == hex_string(hash@).skip(2),
{
    let all = hash.as_slice();
    let dir = hex_encode(slice_subrange(all, 0, 1));
    let file = hex_encode(slice_subrange(all, 1, 20));
    assert(dir@ == hex_string(hash@).take(2));
    assert(file@ == hex_string(hash@).skip(2));
    StorePath { dir, file }
}

/// Reading the text of a digest gives the digest back.
pub proof fn lemma_hex_round_trip(bytes: Seq<u8>)
    ensures
        is_hex_string(hex_string(bytes)),
        hex_bytes(hex_string(bytes)) == bytes,
{
    let s = hex_string(bytes);
    assert forall|i: int| 0 <= i < s.len() implies hex_value(#[trigger] s[i]) is Some by {
        let b = bytes[i / 2];
        assert(b / 16 < 16 && b % 16 < 16);
    }
    assert forall|i: int| 0 <= i < bytes.len() implies hex_bytes(s)[i] == bytes[i] by {
        let b = bytes[i];
        assert(s[2 * i] == hex_digit(b / 16));
        assert(s[2 * i + 1] == hex_digit(b % 16));
        assert(hex_value(hex_digit(b / 16)) == Some(b / 16));
        assert(hex_value(hex_digit(b % 16)) == Some(b % 16));
    }
    assert(hex_bytes(s) =~= bytes);
}

} // verus!

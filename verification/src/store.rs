//! The compressed store: what is written for an object, the steps by which it
//! is written, and how a stored file is read back.
//!
//! The store itself is a directory tree that the caller owns. This module
//! decides; the caller acts. For a write it is told, step by step, what the
//! directory tree answered, and says what to do next.

use vstd::prelude::*;
use crate::decode::{decode_object, decoding, DecodeError};
use crate::digest::{hash_bytes, hex_string, store_path, HashedObject, StorePath};
use crate::object::{encode_object, GitObject, ObjectView};
use crate::sha1::sha1_digest;

verus! {

/// `std::io::Error`, carried through without a look inside.
#[verifier::external_type_specification]
#[verifier::external_body]
pub struct ExIoError(std::io::Error);

/// The zlib stream that the encoder makes of `data` at its default level, or
/// `None` where the encoder reports an error.
pub uninterp spec fn zlib_stream(data: Seq<u8>) -> Option<Seq<u8>>;

/// The data that the decoder reads from the zlib stream at the start of
/// `stream`, or `None` where the decoder reports an error.
pub uninterp spec fn zlib_content(stream: Seq<u8>) -> Option<Seq<u8>>;

/// `flate2::write::ZlibEncoder` at `Compression::default()`, writing into a
/// vector: `write_all` of the data, then `finish`. The outcome depends on the
/// data alone.
#[verifier::external_body]
fn zlib_compress(data: &[u8]) -> (r: Result<Vec<u8>, std::io::Error>)
    ensures
        match r {
            Ok(stream) => zlib_stream(data@) == Some(stream@),
            Err(_) => zlib_stream(data@) is None,
        },
{
    let mut encoder = flate2::write::ZlibEncoder::new(Vec::new(), flate2::Compression::default());
    std::io::Write::write_all(&mut encoder, data)?;
    encoder.finish()
}

/// `flate2::bufread::ZlibDecoder` over a byte slice, read to its end. The
/// outcome depends on the bytes alone.
#[verifier::external_body]
fn zlib_decompress(stream: &[u8]) -> (r: Result<Vec<u8>, std::io::Error>)
    ensures
        match r {
            Ok(data) => zlib_content(stream@) == Some(data@),
            Err(_) => zlib_content(stream@) is None,
        },
{
    let mut decoder = flate2::bufread::ZlibDecoder::new(stream);
    let mut data = Vec::new();
    std::io::Read::read_to_end(&mut decoder, &mut data)?;
    Ok(data)
}

/// An object ready for the store: its canonical framing and the digest of
/// that framing.
#[derive(Debug, Clone, PartialEq, Eq)]
pub struct LooseObject {
    pub id: HashedObject,
    pub encoded: Vec<u8>,
}

/// The mathematical value of a [`LooseObject`].
pub struct LooseObjectView {
    pub hash: Seq<u8>,
    pub hash_str: Seq<char>,
    pub encoded: Seq<u8>,
}

impl View for LooseObject {
    type V = LooseObjectView;

    open spec fn view(&self) -> LooseObjectView {
        LooseObjectView {
            hash: self.id.hash@,
            hash_str: self.id.hash_str@,
            encoded: self.encoded@,
        }
    }
}

/// What is stored for `object`: its framing, the digest of the framing, and
/// the text of the digest.
pub open spec fn loose_object(object: ObjectView) -> LooseObjectView {
    LooseObjectView {
        hash: sha1_digest(object.encoding()),
        hash_str: hex_string(sha1_digest(object.encoding())),
        encoded: object.encoding(),
    }
}

/// Encodes `object` and computes the digest of the framing.
pub fn hash_git_object(object: &GitObject) -> (loose: LooseObject)
    ensures
        loose@ == loose_object(object@),
{
    let mut encoded: Vec<u8> = Vec::new();
    encode_object(object, &mut encoded);
    assert(encoded@ == object@.encoding());
    let id = hash_bytes(encoded.as_slice());
    LooseObject { id, encoded }
}

/// Encodes a blob with the given content and computes the digest of the
/// framing.
pub fn hash_object(content: &[u8]) -> (loose: LooseObject)
    ensures
        loose@ == loose_object(ObjectView::Blob(content@)),
{
    let mut encoded: Vec<u8> = Vec::new();
    crate::object::encode_blob(content, &mut encoded);
    assert(encoded@ == ObjectView::Blob(content@).encoding());
    let id = hash_bytes(encoded.as_slice());
    LooseObject { id, encoded }
}

/// What the store is asked to do next while an object is written.
#[derive(Debug, Clone, Copy, PartialEq, Eq, Structural)]
pub enum PutStep {
    /// Say whether the object's directory exists.
    CheckDir,
    /// Create the object's directory.
    CreateDir,
    /// Say whether the object's file exists.
    CheckFile,
    /// Create the object's file and write the compressed framing into it.
    WriteFile,
    /// Nothing: the write is over.
    Done,
}

/// What the store answers to a step.
#[derive(Debug, Clone, Copy, PartialEq, Eq, Structural)]
pub enum StoreReply {
    /// The answer to `CheckDir` and `CheckFile`.
    Exists(bool),
    /// The answer to `CreateDir` and `WriteFile`, when they succeeded.
    Completed,
}

/// The first step of a write: with `persist` unset nothing is stored, and the
/// write is over before it began.
pub open spec fn first_step(persist: bool) -> PutStep {
    if persist {
        PutStep::CheckDir
    } else {
        PutStep::Done
    }
}

/// The step that follows `step` on `reply`, or `None` where the reply is not
/// an answer to the step. A missing directory is created; a file that exists
/// is left as it is, since its name says what it holds.
pub open spec fn next_step(step: PutStep, reply: StoreReply) -> Option<PutStep> {
    match (step, reply) {
        (PutStep::CheckDir, StoreReply::Exists(true)) => Some(PutStep::CheckFile),
        (PutStep::CheckDir, StoreReply::Exists(false)) => Some(PutStep::CreateDir),
        (PutStep::CreateDir, StoreReply::Completed) => Some(PutStep::CheckFile),
        (PutStep::CheckFile, StoreReply::Exists(true)) => Some(PutStep::Done),
        (PutStep::CheckFile, StoreReply::Exists(false)) => Some(PutStep::WriteFile),
        (PutStep::WriteFile, StoreReply::Completed) => Some(PutStep::Done),
        _ => None,
    }
}

/// The first step of a write.
pub fn begin_put(persist: bool) -> (step: PutStep)
    ensures
        step == first_step(persist),
{
    if persist {
        PutStep::CheckDir
    } else {
        PutStep::Done
    }
}

/// The step that follows `step` on `reply`.
pub fn advance_put(step: PutStep, reply: StoreReply) -> (next: Option<PutStep>)
    ensures
        next == next_step(step, reply),
{
    match step {
        PutStep::CheckDir => match reply {
            StoreReply::Exists(true) => Some(PutStep::CheckFile),
            StoreReply::Exists(false) => Some(PutStep::CreateDir),
            StoreReply::Completed => None,
        },
        PutStep::CreateDir => match reply {
            StoreReply::Completed => Some(PutStep::CheckFile),
            StoreReply::Exists(_) => None,
        },
        PutStep::CheckFile => match reply {
            StoreReply::Exists(true) => Some(PutStep::Done),
            StoreReply::Exists(false) => Some(PutStep::WriteFile),
            StoreReply::Completed => None,
        },
        PutStep::WriteFile => match reply {
            StoreReply::Completed => Some(PutStep::Done),
            StoreReply::Exists(_) => None,
        },
        PutStep::Done => None,
    }
}

/// A store as far as a write can tell: the directories that exist, and the
/// files with what they hold. A file is named by its directory and its own
/// name.
pub struct StoreModel {
    pub dirs: Set<Seq<char>>,
    pub files: Map<(Seq<char>, Seq<char>), Seq<u8>>,
}

/// The number of steps that can still follow `step`.
pub open spec fn steps_left(step: PutStep) -> nat {
    match step {
        PutStep::CheckDir => 4,
        PutStep::CreateDir => 3,
        PutStep::CheckFile => 2,
        PutStep::WriteFile => 1,
        PutStep::Done => 0,
    }
}

/// What `store` answers to `step` for the object at `place`.
pub open spec fn store_reply(
    store: StoreModel,
    step: PutStep,
    place: (Seq<char>, Seq<char>),
) -> StoreReply {
    match step {
        PutStep::CheckDir => StoreReply::Exists(store.dirs.contains(place.0)),
        PutStep::CheckFile => StoreReply::Exists(store.files.dom().contains(place)),
        _ => StoreReply::Completed,
    }
}

/// `store` after it has done `step` for the object at `place`.
pub open spec fn store_after(
    store: StoreModel,
    step: PutStep,
    place: (Seq<char>, Seq<char>),
    contents: Seq<u8>,
) -> StoreModel {
    match step {
        PutStep::CreateDir => StoreModel { dirs: store.dirs.insert(place.0), files: store.files },
        PutStep::WriteFile => StoreModel {
            dirs: store.dirs,
            files: store.files.insert(place, contents),
        },
        _ => store,
    }
}

/// The store at the end of a write that stands at `step`, and the number of
/// files that were written on the way.
pub open spec fn put_outcome(
    store: StoreModel,
    step: PutStep,
    place: (Seq<char>, Seq<char>),
    contents: Seq<u8>,
) -> (StoreModel, nat)
    decreases steps_left(step),
{
    match next_step(step, store_reply(store, step, place)) {
        None => (store, 0),
        Some(next) => {
            let rest = put_outcome(store_after(store, step, place, contents), next, place, contents);
            if step == PutStep::WriteFile {
                (rest.0, rest.1 + 1)
            } else {
                rest
            }
        },
    }
}

/// Writing an object twice writes one file: the second write finds the file,
/// writes nothing and leaves the store as the first write left it. The first
/// write adds at most the object's own file.
pub proof fn lemma_put_twice(store: StoreModel, place: (Seq<char>, Seq<char>), contents: Seq<u8>)
    ensures
        ({
            let first = put_outcome(store, first_step(true), place, contents);
            let second = put_outcome(first.0, first_step(true), place, contents);
            &&& first.1 <= 1
            &&& first.0.files.dom() == store.files.dom().insert(place)
            &&& second.1 == 0
            &&& second.0 == first.0
        }),
{
    reveal_with_fuel(put_outcome, 5);
    let first = put_outcome(store, first_step(true), place, contents);
    assert(first.0.files.dom() =~= store.files.dom().insert(place));
}

/// A write that is not to persist leaves the store alone.
pub proof fn lemma_put_dry_run(store: StoreModel, place: (Seq<char>, Seq<char>), contents: Seq<u8>)
    ensures
        put_outcome(store, first_step(false), place, contents) == (store, 0nat),
{
}

/// The encoder failed on the framing of an object.
#[derive(Debug, Clone, Copy, PartialEq, Eq, Structural)]
pub struct CompressError;

/// The contents of the file of a stored object: its framing as a zlib stream.
pub fn file_contents(loose: &LooseObject) -> (r: Result<Vec<u8>, CompressError>)
    ensures
        match r {
            Ok(contents) => zlib_stream(loose.encoded@) == Some(contents@),
            Err(_) => zlib_stream(loose.encoded@) is None,
        },
{
    match zlib_compress(loose.encoded.as_slice()) {
        Ok(contents) => Ok(contents),
        Err(_) => Err(CompressError),
    }
}

/// The place of a stored object.
pub fn object_path(loose: &LooseObject) -> (path: StorePath)
    ensures
        path.dir@ == hex_string(loose.id.hash@).take(2),
        path.file@ == hex_string(loose.id.hash@).skip(2),
{
    store_path(&loose.id.hash)
}

/// Why the file of a stored object gives no object.
#[derive(Debug, Clone, Copy, PartialEq, Eq, Structural)]
pub enum ReadObjectError {
    /// The file is not a complete zlib stream.
    CorruptedStream,
    /// The stream holds no framing of an object.
    Decode(DecodeError),
}

/// The object that a stored file holds, given what the decoder read from it.
pub open spec fn stored_object(content: Option<Seq<u8>>) -> Result<ObjectView, ReadObjectError> {
    match content {
        None => Err(ReadObjectError::CorruptedStream),
        Some(bytes) => match decoding(bytes) {
            Ok(object) => Ok(object),
            Err(e) => Err(ReadObjectError::Decode(e)),
        },
    }
}

/// The view of the result of reading an object.
pub open spec fn read_result_view(r: Result<GitObject, ReadObjectError>) -> Result<
    ObjectView,
    ReadObjectError,
> {
    match r {
        Ok(object) => Ok(object@),
        Err(e) => Err(e),
    }
}

/// Reads an object from the contents of its file.
pub fn read_object(contents: &[u8]) -> (r: Result<GitObject, ReadObjectError>)
    ensures
        read_result_view(r) == stored_object(zlib_content(contents@)),
{
    match zlib_decompress(contents) {
        Err(_) => Err(ReadObjectError::CorruptedStream),
        Ok(bytes) => match decode_object(bytes.as_slice()) {
            Ok(object) => Ok(object),
            Err(e) => Err(ReadObjectError::Decode(e)),
        },
    }
}

} // verus!

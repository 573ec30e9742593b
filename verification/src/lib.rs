//! A content-addressed object store in the style of a version-control
//! system's loose-object layer: SHA-1 digests, the canonical framing of blobs
//! and trees, the compressed storage path, tree building, and the staging
//! index format.

pub mod bytes;
pub mod codec_laws;
pub mod commands;
pub mod decode;
pub mod digest;
pub mod index;
pub mod object;
pub mod order;
pub mod radix;
pub mod scan;
pub mod sha1;
pub mod store;
pub mod text;
pub mod tree;
pub mod walk;

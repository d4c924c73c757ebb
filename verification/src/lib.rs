//! Decoder for a chunked binary scene/asset container format.
//!
//! The decoder validates a fixed magic signature and a version field, then
//! reads chunk records until a sentinel chunk is reached, decompressing each
//! chunk's payload (stored, Zstandard, or raw LZ4 block).  The result is a
//! structured, human-inspectable record: payloads are decompressed but kept
//! as rendered text or hex, never interpreted further.

use vstd::prelude::*;

pub mod codec;
pub mod laws;
pub mod parse;
pub mod render;

pub use codec::decompress_chunk;
pub use parse::parse_file;
pub use render::slice_to_hex_string;
pub use render::slice_to_string;

verus! {

/// How a chunk's payload was stored on disk.
#[derive(Clone, Copy, Debug, PartialEq, Eq, Structural)]
pub enum CompressionType {
    Uncompressed,
    Lz4,
    Zstd,
}

/// Why a decode was aborted.  Every error is fatal for the decode in
/// progress; no partial result is ever returned beside one.
#[derive(Debug)]
pub enum DecodeError {
    /// The magic signature or the version field does not have the one
    /// supported value; carries the expected and the actual bytes.
    FormatMismatch { expected: Vec<u8>, actual: Vec<u8> },
    /// The input ended before a required field or payload could be read.
    UnexpectedEof,
    /// The detected codec did not produce exactly the declared number of
    /// decompressed bytes.  `actual` is the size the codec produced, where
    /// it produced one within the declared budget.
    DecompressionError { kind: CompressionType, expected: usize, actual: Option<usize> },
    /// A structural impossibility distinct from a short read: a compressed
    /// payload too short to hold a compression-format signature.
    MalformedChunk,
}

/// The mathematical shape of a [`DecodeError`], over byte sequences.
pub ghost enum ErrorModel {
    FormatMismatch { expected: Seq<u8>, actual: Seq<u8> },
    UnexpectedEof,
    DecompressionError { kind: CompressionType, expected: nat },
    MalformedChunk,
}

impl View for DecodeError {
    type V = ErrorModel;

    open spec fn view(&self) -> ErrorModel {
        match self {
            DecodeError::FormatMismatch { expected, actual } => ErrorModel::FormatMismatch {
                expected: expected@,
                actual: actual@,
            },
            DecodeError::UnexpectedEof => ErrorModel::UnexpectedEof,
            DecodeError::DecompressionError { kind, expected, actual: _ } => {
                ErrorModel::DecompressionError { kind: *kind, expected: *expected as nat }
            },
            DecodeError::MalformedChunk => ErrorModel::MalformedChunk,
        }
    }
}

/// One record of the container's body, after decompression, with its fields
/// rendered for inspection: `name` and `data` as text where the bytes are
/// valid UTF-8 and as a hex dump otherwise, `reserved` always as a hex dump.
#[derive(Debug)]
pub struct Chunk {
    pub name: String,
    pub reserved: String,
    pub compression_type: CompressionType,
    pub data: String,
}

/// The decoded container: the header fields and the chunks in on-disk order.
/// The chunk sequence is non-empty and ends with the sentinel chunk.
#[derive(Debug)]
pub struct BinaryFile {
    pub class_count: u32,
    pub instance_count: u32,
    pub reserved: String,
    pub chunks: Vec<Chunk>,
}

} // verus!

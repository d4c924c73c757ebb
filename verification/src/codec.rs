//! Compression-format detection and payload decompression.
//!
//! A chunk whose compressed length is nonzero stores either a Zstandard
//! stream, recognised by the fixed four-byte frame magic number, or a raw
//! (frameless) LZ4 block.  An LZ4 block carries no decompressed length of
//! its own; the container's declared length is authoritative for both.

use vstd::prelude::*;
use vstd::slice::slice_index_get;

use crate::CompressionType;
use crate::DecodeError;
use crate::ErrorModel;

verus! {

/// The four-byte Zstandard frame magic number.
pub open spec fn spec_zstd_magic() -> Seq<u8> {
    seq![0x28u8, 0xb5u8, 0x2fu8, 0xfdu8]
}

/// Whether a payload is dispatched to the Zstandard codec: its first four
/// bytes are the Zstandard frame magic number.
pub open spec fn sniffs_zstd(data: Seq<u8>) -> bool {
    data.len() >= 4 && data.subrange(0, 4) == spec_zstd_magic()
}

/// The decompressed image of `data` read as Zstandard frames, if `data` is
/// a valid sequence of such frames.
pub uninterp spec fn zstd_frame_decode(data: Seq<u8>) -> Option<Seq<u8>>;

/// The decompressed image of `data` read as one raw LZ4 block, if `data` is
/// a valid such block.
pub uninterp spec fn lz4_block_decode(data: Seq<u8>) -> Option<Seq<u8>>;

/// Relies on zstd::bulk::decompress: when it succeeds, the result is the
/// decompression of the whole buffer and fits in `capacity` bytes.  Nothing
/// is promised of failure: beside rejecting invalid or over-budget data, the
/// call can fail to allocate its decompression context.
#[verifier::external_body]
fn zstd_decompress(data: &[u8], capacity: usize) -> (r: Option<Vec<u8>>)
    ensures
        r matches Some(v) ==> zstd_frame_decode(data@) == Some(v@) && v@.len() <= capacity,
{
    match zstd::bulk::decompress(data, capacity) {
        Ok(v) => Some(v),
        Err(_) => None,
    }
}

/// Relies on lz4_flex::decompress (safe-decode build): it succeeds exactly
/// when the buffer is a valid raw LZ4 block whose decompression fits in
/// `min_size` bytes, and then returns that decompression whole.
#[verifier::external_body]
fn lz4_decompress(data: &[u8], min_size: usize) -> (r: Option<Vec<u8>>)
    ensures
        r matches Some(v) ==> lz4_block_decode(data@) == Some(v@) && v@.len() <= min_size,
        r is None ==> !(lz4_block_decode(data@) matches Some(p) && p.len() <= min_size),
{
    match lz4_flex::decompress(data, min_size) {
        Ok(v) => Some(v),
        Err(_) => None,
    }
}

/// What classifying and decompressing a chunk payload yields: the detected
/// kind with the decompressed bytes, or the error that aborts the decode.
/// The declared decompressed length must be met exactly.
pub open spec fn spec_decompress(data: Seq<u8>, dlen: nat) -> Result<
    (CompressionType, Seq<u8>),
    ErrorModel,
> {
    if data.len() < 4 {
        Err(ErrorModel::MalformedChunk)
    } else if sniffs_zstd(data) {
        match zstd_frame_decode(data) {
            Some(p) => if p.len() == dlen {
                Ok((CompressionType::Zstd, p))
            } else {
                Err(ErrorModel::DecompressionError { kind: CompressionType::Zstd, expected: dlen })
            },
            None => Err(
                ErrorModel::DecompressionError { kind: CompressionType::Zstd, expected: dlen },
            ),
        }
    } else {
        match lz4_block_decode(data) {
            Some(p) => if p.len() == dlen {
                Ok((CompressionType::Lz4, p))
            } else {
                Err(ErrorModel::DecompressionError { kind: CompressionType::Lz4, expected: dlen })
            },
            None => Err(
                ErrorModel::DecompressionError { kind: CompressionType::Lz4, expected: dlen },
            ),
        }
    }
}

/// The one error payload a failed classification or decompression of `data`
/// against declared length `dlen` carries.
pub open spec fn spec_decompress_err(data: Seq<u8>, dlen: nat) -> ErrorModel {
    if data.len() < 4 {
        ErrorModel::MalformedChunk
    } else if sniffs_zstd(data) {
        ErrorModel::DecompressionError { kind: CompressionType::Zstd, expected: dlen }
    } else {
        ErrorModel::DecompressionError { kind: CompressionType::Lz4, expected: dlen }
    }
}

fn has_zstd_magic(data: &[u8]) -> (r: bool)
    requires
        data@.len() >= 4,
    ensures
        r == sniffs_zstd(data@),
{
    let b0: u8 = *slice_index_get(data, 0);
    let b1: u8 = *slice_index_get(data, 1);
    let b2: u8 = *slice_index_get(data, 2);
    let b3: u8 = *slice_index_get(data, 3);
    let r = b0 == 0x28 && b1 == 0xb5 && b2 == 0x2f && b3 == 0xfd;
    proof {
        if r {
            assert(data@.subrange(0, 4) =~= spec_zstd_magic());
        } else {
            assert(data@.subrange(0, 4)[0] == b0);
            assert(data@.subrange(0, 4)[1] == b1);
            assert(data@.subrange(0, 4)[2] == b2);
            assert(data@.subrange(0, 4)[3] == b3);
        }
    }
    r
}

/// Classify a compressed chunk payload by its leading bytes and decompress
/// it to exactly `decompressed_len` bytes.
///
/// The result matches [`spec_decompress`], with one allowed divergence: a
/// payload dispatched to the Zstandard codec may fail even where the model
/// succeeds, since that codec can fail to allocate its context.  An LZ4 or
/// too-short payload is decided exactly.
pub fn decompress_chunk(data: &[u8], decompressed_len: usize) -> (r: Result<
    (CompressionType, Vec<u8>),
    DecodeError,
>)
    ensures
        r matches Ok(p) ==> (spec_decompress(data@, decompressed_len as nat) matches Ok(m)
            && p.0 == m.0 && p.1@ == m.1),
        spec_decompress(data@, decompressed_len as nat) matches Err(e) ==> (r matches Err(a)
            && a@ == e),
        r matches Err(a) ==> a@ == spec_decompress_err(data@, decompressed_len as nat),
        !sniffs_zstd(data@) ==> ((r is Ok) <==> (spec_decompress(
            data@,
            decompressed_len as nat,
        ) is Ok)),
{
    if data.len() < 4 {
        return Err(DecodeError::MalformedChunk);
    }
    if has_zstd_magic(data) {
        match zstd_decompress(data, decompressed_len) {
            Some(v) => {
                if v.len() == decompressed_len {
                    Ok((CompressionType::Zstd, v))
                } else {
                    Err(
                        DecodeError::DecompressionError {
                            kind: CompressionType::Zstd,
                            expected: decompressed_len,
                            actual: Some(v.len()),
                        },
                    )
                }
            },
            None => Err(
                DecodeError::DecompressionError {
                    kind: CompressionType::Zstd,
                    expected: decompressed_len,
                    actual: None,
                },
            ),
        }
    } else {
        match lz4_decompress(data, decompressed_len) {
            Some(v) => {
                if v.len() == decompressed_len {
                    Ok((CompressionType::Lz4, v))
                } else {
                    Err(
                        DecodeError::DecompressionError {
                            kind: CompressionType::Lz4,
                            expected: decompressed_len,
                            actual: Some(v.len()),
                        },
                    )
                }
            },
            None => Err(
                DecodeError::DecompressionError {
                    kind: CompressionType::Lz4,
                    expected: decompressed_len,
                    actual: None,
                },
            ),
        }
    }
}

} // verus!

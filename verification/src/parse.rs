//! The container decoder: header validation and the chunk-stream loop.
//!
//! The on-disk layout is a fixed magic signature, a little-endian 16-bit
//! version (the single supported value is 0), two little-endian 32-bit
//! counts, 8 reserved bytes, and then chunk records until a record whose
//! 4-byte tag is the sentinel `END\0`.  Each record is a 4-byte tag, a
//! 32-bit compressed length, a 32-bit decompressed length, 4 reserved bytes,
//! and the payload: `decompressed_len` bytes stored verbatim when the
//! compressed length is 0, and `compressed_len` bytes for the compression
//! dispatcher otherwise.

use vstd::prelude::*;
use vstd::slice::slice_index_get;
use vstd::slice::slice_subrange;
use vstd::slice::slice_to_vec;

use crate::codec::spec_decompress;
use crate::codec::spec_decompress_err;
use crate::codec::sniffs_zstd;
use crate::codec::decompress_chunk;
use crate::render::hex_render;
use crate::render::text_render;
use crate::BinaryFile;
use crate::Chunk;
use crate::CompressionType;
use crate::DecodeError;
use crate::ErrorModel;

verus! {

/// The fixed magic signature that opens the container.
pub open spec fn spec_magic() -> Seq<u8> {
    seq![
        0x3cu8,
        0x72u8,
        0x6fu8,
        0x62u8,
        0x6cu8,
        0x6fu8,
        0x78u8,
        0x21u8,
        0x89u8,
        0xffu8,
        0x0du8,
        0x0au8,
        0x1au8,
        0x0au8,
    ]
}

/// The little-endian bytes of the single supported version, 0.
pub open spec fn spec_version_bytes() -> Seq<u8> {
    seq![0u8, 0u8]
}

/// The tag of the sentinel chunk that ends the chunk stream: `END\0`.
pub open spec fn spec_sentinel() -> Seq<u8> {
    seq![0x45u8, 0x4eu8, 0x44u8, 0x00u8]
}

/// The byte length of the fixed header: magic, version, two counts, and the
/// reserved bytes.
pub open spec fn spec_header_len() -> int {
    32
}

/// The value of two bytes read as a little-endian 16-bit integer.
pub open spec fn spec_le16(b: Seq<u8>) -> int {
    b[0] + 0x100 * b[1]
}

/// The value of four bytes read as a little-endian 32-bit integer.
pub open spec fn spec_le32(b: Seq<u8>) -> int {
    b[0] + 0x100 * b[1] + 0x10000 * b[2] + 0x1000000 * b[3]
}

/// One decoded chunk: its raw tag and reserved bytes, the detected
/// compression kind, and the decompressed payload bytes.
pub ghost struct ChunkModel {
    pub tag: Seq<u8>,
    pub reserved: Seq<u8>,
    pub compression: CompressionType,
    pub payload: Seq<u8>,
}

/// The decoded container: the header fields and the chunks in input order.
pub ghost struct FileModel {
    pub class_count: int,
    pub instance_count: int,
    pub reserved: Seq<u8>,
    pub chunks: Seq<ChunkModel>,
}

/// Parse chunk records from `pos` until the sentinel chunk.  Yields the
/// chunks decoded before the outcome, and the outcome: the position just
/// after the sentinel chunk, or the error that aborts the decode.  The
/// sentinel chunk is the last element of the decoded sequence on success.
pub open spec fn spec_parse_chunks(input: Seq<u8>, pos: int) -> (Seq<ChunkModel>, Result<
    int,
    ErrorModel,
>)
    decreases input.len() - pos,
{
    if pos < 0 || pos + 16 > input.len() {
        (Seq::<ChunkModel>::empty(), Err(ErrorModel::UnexpectedEof))
    } else {
        let tag = input.subrange(pos, pos + 4);
        let clen = spec_le32(input.subrange(pos + 4, pos + 8));
        let dlen = spec_le32(input.subrange(pos + 8, pos + 12));
        let reserved = input.subrange(pos + 12, pos + 16);
        let body_len = if clen == 0 {
            dlen
        } else {
            clen
        };
        if pos + 16 + body_len > input.len() {
            (Seq::<ChunkModel>::empty(), Err(ErrorModel::UnexpectedEof))
        } else {
            let body = input.subrange(pos + 16, pos + 16 + body_len);
            let step = if clen == 0 {
                Ok((CompressionType::Uncompressed, body))
            } else {
                spec_decompress(body, dlen as nat)
            };
            match step {
                Err(e) => (Seq::<ChunkModel>::empty(), Err(e)),
                Ok((kind, payload)) => {
                    let chunk = ChunkModel { tag, reserved, compression: kind, payload };
                    if tag == spec_sentinel() {
                        (seq![chunk], Ok(pos + 16 + body_len))
                    } else {
                        let rest = spec_parse_chunks(input, pos + 16 + body_len);
                        (seq![chunk] + rest.0, rest.1)
                    }
                },
            }
        }
    }
}

/// Whether the input opens with the magic signature and the supported
/// version and is long enough to hold the whole fixed header.
pub open spec fn header_ok(input: Seq<u8>) -> bool {
    &&& input.len() >= spec_header_len()
    &&& input.subrange(0, 14) == spec_magic()
    &&& input.subrange(14, 16) == spec_version_bytes()
}

/// What decoding `input` yields: the decoded container, or the error that
/// aborted the decode.  This is the decoder's whole meaning; the executable
/// decoder is proved against it.
pub open spec fn spec_parse(input: Seq<u8>) -> Result<FileModel, ErrorModel> {
    if input.len() < 14 {
        Err(ErrorModel::UnexpectedEof)
    } else if input.subrange(0, 14) != spec_magic() {
        Err(
            ErrorModel::FormatMismatch { expected: spec_magic(), actual: input.subrange(0, 14) },
        )
    } else if input.len() < 16 {
        Err(ErrorModel::UnexpectedEof)
    } else if input.subrange(14, 16) != spec_version_bytes() {
        Err(
            ErrorModel::FormatMismatch {
                expected: spec_version_bytes(),
                actual: input.subrange(14, 16),
            },
        )
    } else if input.len() < 32 {
        Err(ErrorModel::UnexpectedEof)
    } else {
        let pc = spec_parse_chunks(input, 32);
        match pc.1 {
            Err(e) => Err(e),
            Ok(_end) => Ok(
                FileModel {
                    class_count: spec_le32(input.subrange(16, 20)),
                    instance_count: spec_le32(input.subrange(20, 24)),
                    reserved: input.subrange(24, 32),
                    chunks: pc.0,
                },
            ),
        }
    }
}

/// How an executable [`Chunk`] renders one [`ChunkModel`].
pub open spec fn chunk_matches(c: Chunk, m: ChunkModel) -> bool {
    &&& c.name@ == text_render(m.tag)
    &&& c.reserved@ == hex_render(m.reserved)
    &&& c.compression_type == m.compression
    &&& c.data@ == text_render(m.payload)
}

/// How an executable [`BinaryFile`] renders one [`FileModel`].
pub open spec fn file_matches(f: BinaryFile, m: FileModel) -> bool {
    &&& f.class_count as int == m.class_count
    &&& f.instance_count as int == m.instance_count
    &&& f.reserved@ == hex_render(m.reserved)
    &&& f.chunks@.len() == m.chunks.len()
    &&& forall|i: int|
        0 <= i < m.chunks.len() ==> chunk_matches(#[trigger] f.chunks@[i], m.chunks[i])
}

/// Whether decoding `input` consults the Zstandard codec at some chunk: a
/// decoded chunk carries the Zstandard kind, or the decode fails at one.
pub open spec fn zstd_reached(input: Seq<u8>) -> bool {
    let pc = spec_parse_chunks(input, spec_header_len());
    ||| exists|i: int|
        0 <= i < pc.0.len() && (#[trigger] pc.0[i]).compression == CompressionType::Zstd
    ||| (pc.1 matches Err(e) && (e matches ErrorModel::DecompressionError {
        kind: CompressionType::Zstd,
        ..
    }))
}

/// Whether two byte slices hold the same bytes.
fn bytes_eq(a: &[u8], b: &[u8]) -> (r: bool)
    ensures
        r == (a@ == b@),
{
    if a.len() != b.len() {
        proof {
            if a@ == b@ {
                assert(a@.len() == b@.len());
            }
        }
        return false;
    }
    let n = a.len();
    let mut i: usize = 0;
    while i < n
        invariant
            n == a@.len(),
            a@.len() == b@.len(),
            i <= n,
            forall|j: int| 0 <= j < i ==> a@[j] == b@[j],
        decreases n - i,
    {
        if *slice_index_get(a, i) != *slice_index_get(b, i) {
            proof {
                if a@ == b@ {
                    assert(a@[i as int] == b@[i as int]);
                }
            }
            return false;
        }
        i = i + 1;
    }
    proof {
        assert(a@ =~= b@);
    }
    true
}

fn magic_vec() -> (r: Vec<u8>)
    ensures
        r@ == spec_magic(),
{
    let v: Vec<u8> = vec![
        0x3c,
        0x72,
        0x6f,
        0x62,
        0x6c,
        0x6f,
        0x78,
        0x21,
        0x89,
        0xff,
        0x0d,
        0x0a,
        0x1a,
        0x0a,
    ];
    proof {
        assert(v@ =~= spec_magic());
    }
    v
}

fn sentinel_vec() -> (r: Vec<u8>)
    ensures
        r@ == spec_sentinel(),
{
    let v: Vec<u8> = vec![0x45, 0x4e, 0x44, 0x00];
    proof {
        assert(v@ =~= spec_sentinel());
    }
    v
}

/// Read four bytes at `pos` as a little-endian 32-bit integer.
fn read_le32(input: &[u8], pos: usize) -> (r: u32)
    requires
        pos + 4 <= input@.len(),
    ensures
        r as int == spec_le32(input@.subrange(pos as int, pos as int + 4)),
{
    let n = input.len();
    proof {
        assert(pos + 4 <= n);
    }
    let b0 = *slice_index_get(input, pos) as u32;
    let b1 = *slice_index_get(input, pos + 1) as u32;
    let b2 = *slice_index_get(input, pos + 2) as u32;
    let b3 = *slice_index_get(input, pos + 3) as u32;
    let r = b0 + 0x100 * b1 + 0x10000 * b2 + 0x1000000 * b3;
    proof {
        let s = input@.subrange(pos as int, pos as int + 4);
        assert(s[0] == input@[pos as int]);
        assert(s[1] == input@[pos as int + 1]);
        assert(s[2] == input@[pos as int + 2]);
        assert(s[3] == input@[pos as int + 3]);
    }
    r
}

/// Decode a container held whole in memory.
///
/// The result is pinned to [`spec_parse`]: a returned container renders the
/// model's header fields and chunks, and a returned error is the model's
/// error.  The one allowed divergence is a chunk dispatched to the
/// Zstandard codec, which can fail to allocate its decompression context:
/// there, and only there, the decoder may report a Zstandard decompression
/// error where the model succeeds.  Inputs whose model succeeds without any
/// Zstandard chunk are decoded successfully.
pub fn parse_file(input: &[u8]) -> (r: Result<BinaryFile, DecodeError>)
    ensures
        r matches Ok(f) ==> (spec_parse(input@) matches Ok(m) && file_matches(f, m)),
        spec_parse(input@) is Err ==> r is Err,
        (spec_parse(input@) matches Ok(m) && (forall|i: int|
            0 <= i < m.chunks.len() ==> (#[trigger] m.chunks[i]).compression
                != CompressionType::Zstd)) ==> r is Ok,
        r matches Err(a) ==> ((spec_parse(input@) matches Err(e) && a@ == e) || ((
        a@ matches ErrorModel::DecompressionError { kind: CompressionType::Zstd, .. })
            && header_ok(input@) && zstd_reached(input@))),
{
    if input.len() < 14 {
        return Err(DecodeError::UnexpectedEof);
    }
    let magic = magic_vec();
    let actual_magic = slice_subrange(input, 0, 14);
    if !bytes_eq(actual_magic, magic.as_slice()) {
        return Err(
            DecodeError::FormatMismatch { expected: magic, actual: slice_to_vec(actual_magic) },
        );
    }
    if input.len() < 16 {
        return Err(DecodeError::UnexpectedEof);
    }
    let v0 = *slice_index_get(input, 14);
    let v1 = *slice_index_get(input, 15);
    if v0 != 0 || v1 != 0 {
        let mut expected: Vec<u8> = Vec::new();
        expected.push(0);
        expected.push(0);
        let mut actual: Vec<u8> = Vec::new();
        actual.push(v0);
        actual.push(v1);
        proof {
            assert(expected@ =~= spec_version_bytes());
            assert(actual@ =~= input@.subrange(14, 16));
        }
        return Err(DecodeError::FormatMismatch { expected, actual });
    }
    proof {
        assert(input@.subrange(14, 16) =~= spec_version_bytes());
    }
    if input.len() < 32 {
        return Err(DecodeError::UnexpectedEof);
    }
    let class_count = read_le32(input, 16);
    let instance_count = read_le32(input, 20);
    let header_reserved = slice_subrange(input, 24, 32);
    let sentinel = sentinel_vec();

    let mut chunks: Vec<Chunk> = Vec::new();
    let ghost mut chunk_models: Seq<ChunkModel> = Seq::empty();
    let mut pos: usize = 32;
    loop
        invariant
            32 <= pos <= input@.len(),
            header_ok(input@),
            sentinel@ == spec_sentinel(),
            class_count as int == spec_le32(input@.subrange(16, 20)),
            instance_count as int == spec_le32(input@.subrange(20, 24)),
            header_reserved@ == input@.subrange(24, 32),
            chunks@.len() == chunk_models.len(),
            forall|i: int|
                0 <= i < chunk_models.len() ==> chunk_matches(
                    #[trigger] chunks@[i],
                    chunk_models[i],
                ),
            spec_parse_chunks(input@, spec_header_len()).0 == chunk_models + spec_parse_chunks(
                input@,
                pos as int,
            ).0,
            spec_parse_chunks(input@, spec_header_len()).1 == spec_parse_chunks(
                input@,
                pos as int,
            ).1,
        decreases input@.len() - pos,
    {
        if input.len() - pos < 16 {
            return Err(DecodeError::UnexpectedEof);
        }
        let tag = slice_subrange(input, pos, pos + 4);
        let clen = read_le32(input, pos + 4);
        let dlen = read_le32(input, pos + 8);
        let reserved = slice_subrange(input, pos + 12, pos + 16);
        let body_len: usize = if clen == 0 {
            dlen as usize
        } else {
            clen as usize
        };
        if input.len() - (pos + 16) < body_len {
            return Err(DecodeError::UnexpectedEof);
        }
        let body = slice_subrange(input, pos + 16, pos + 16 + body_len);
        let ghost rest = spec_parse_chunks(input@, pos as int);
        let ghost step = if clen == 0 {
            Ok::<_, ErrorModel>((CompressionType::Uncompressed, body@))
        } else {
            spec_decompress(body@, dlen as nat)
        };
        let (kind, payload): (CompressionType, Vec<u8>) = if clen == 0 {
            (CompressionType::Uncompressed, slice_to_vec(body))
        } else {
            match decompress_chunk(body, dlen as usize) {
                Ok(p) => p,
                Err(e) => {
                    proof {
                        if step is Err {
                            assert(rest.1 == Err::<int, ErrorModel>(step->Err_0));
                            assert(e@ == step->Err_0);
                        } else {
                            // the model decodes this chunk: a Zstandard
                            // transient failure, so the chunk is a
                            // Zstandard one and stands in the model
                            assert(sniffs_zstd(body@));
                            assert(e@ == spec_decompress_err(body@, dlen as nat));
                            let chunk = ChunkModel {
                                tag: tag@,
                                reserved: reserved@,
                                compression: step->Ok_0.0,
                                payload: step->Ok_0.1,
                            };
                            assert(rest.0[0] == chunk);
                            assert(step->Ok_0.0 == CompressionType::Zstd);
                            let full = spec_parse_chunks(input@, spec_header_len());
                            assert(full.0[chunk_models.len() as int] == chunk);
                            assert(zstd_reached(input@));
                        }
                    }
                    return Err(e);
                },
            }
        };
        let ghost chunk = ChunkModel {
            tag: tag@,
            reserved: reserved@,
            compression: kind,
            payload: payload@,
        };
        let is_end = bytes_eq(tag, sentinel.as_slice());
        chunks.push(
            Chunk {
                name: crate::render::slice_to_string(tag),
                reserved: crate::render::slice_to_hex_string(reserved),
                compression_type: kind,
                data: crate::render::slice_to_string(payload.as_slice()),
            },
        );
        proof {
            chunk_models = chunk_models + seq![chunk];
        }
        if is_end {
            proof {
                assert(rest.0 =~= seq![chunk]);
                assert(spec_parse_chunks(input@, spec_header_len()).0 =~= chunk_models);
            }
            return Ok(
                BinaryFile {
                    class_count,
                    instance_count,
                    reserved: crate::render::slice_to_hex_string(header_reserved),
                    chunks,
                },
            );
        }
        proof {
            let next = spec_parse_chunks(input@, pos as int + 16 + body_len as int);
            assert(rest.0 =~= seq![chunk] + next.0);
            assert(spec_parse_chunks(input@, spec_header_len()).0 =~= chunk_models + next.0);
        }
        pos = pos + 16 + body_len;
    }
}

} // verus!

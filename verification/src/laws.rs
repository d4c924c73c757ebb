//! The decoder's laws: what decoding yields on inputs built from known
//! parts, and what every successful decode guarantees.
//!
//! The laws are stated over [`spec_parse`] and proved once and for all; the
//! executable decoder is pinned to that model by its own contract.

use vstd::prelude::*;

use crate::codec::lz4_block_decode;
use crate::codec::sniffs_zstd;
use crate::codec::spec_decompress;
use crate::codec::zstd_frame_decode;
use crate::parse::header_ok;
use crate::parse::spec_header_len;
use crate::parse::spec_le16;
use crate::parse::spec_le32;
use crate::parse::spec_magic;
use crate::parse::spec_parse;
use crate::parse::spec_parse_chunks;
use crate::parse::spec_sentinel;
use crate::parse::spec_version_bytes;
use crate::parse::ChunkModel;
use crate::parse::FileModel;
use crate::CompressionType;
use crate::ErrorModel;

verus! {

/// The little-endian bytes of a 32-bit value.
pub open spec fn spec_le32_of(x: u32) -> Seq<u8> {
    seq![(x & 0xff) as u8, ((x >> 8) & 0xff) as u8, ((x >> 16) & 0xff) as u8, ((x >> 24)
        & 0xff) as u8]
}

/// Reading back the little-endian bytes of a value yields the value.
pub proof fn lemma_le32_of(x: u32)
    ensures
        spec_le32_of(x).len() == 4,
        spec_le32(spec_le32_of(x)) == x,
{
    assert(x & 0xff < 0x100) by (bit_vector);
    assert((x >> 8) & 0xff < 0x100) by (bit_vector);
    assert((x >> 16) & 0xff < 0x100) by (bit_vector);
    assert((x >> 24) & 0xff < 0x100) by (bit_vector);
    assert((x & 0xff) + 0x100 * ((x >> 8) & 0xff) + 0x10000 * ((x >> 16) & 0xff) + 0x1000000 * ((x
        >> 24) & 0xff) == x) by (bit_vector);
}

/// One chunk record as laid out on disk: its fields and its payload bytes
/// as stored, before any decompression.
pub ghost struct RawChunk {
    pub tag: Seq<u8>,
    pub compressed_len: u32,
    pub decompressed_len: u32,
    pub reserved: Seq<u8>,
    pub body: Seq<u8>,
}

/// The bytes of the fixed header.
pub open spec fn spec_encode_header(
    class_count: u32,
    instance_count: u32,
    reserved: Seq<u8>,
) -> Seq<u8> {
    spec_magic() + spec_version_bytes() + spec_le32_of(class_count) + spec_le32_of(instance_count)
        + reserved
}

/// The bytes of one chunk record.
pub open spec fn spec_encode_chunk(c: RawChunk) -> Seq<u8> {
    c.tag + spec_le32_of(c.compressed_len) + spec_le32_of(c.decompressed_len) + c.reserved + c.body
}

/// The bytes of a sequence of chunk records, in order.
pub open spec fn spec_encode_chunks(cs: Seq<RawChunk>) -> Seq<u8>
    decreases cs.len(),
{
    if cs.len() == 0 {
        Seq::empty()
    } else {
        spec_encode_chunk(cs[0]) + spec_encode_chunks(cs.drop_first())
    }
}

/// A chunk record the decoder accepts: fields of the right width, the body
/// as long as the record declares, and, where the body is compressed, one
/// that decompresses to exactly the declared length.
pub open spec fn raw_chunk_wf(c: RawChunk) -> bool {
    &&& c.tag.len() == 4
    &&& c.reserved.len() == 4
    &&& if c.compressed_len == 0 {
        c.body.len() == c.decompressed_len
    } else {
        c.body.len() == c.compressed_len && spec_decompress(
            c.body,
            c.decompressed_len as nat,
        ) is Ok
    }
}

/// The decoded form of a well-formed chunk record.
pub open spec fn raw_chunk_model(c: RawChunk) -> ChunkModel {
    if c.compressed_len == 0 {
        ChunkModel {
            tag: c.tag,
            reserved: c.reserved,
            compression: CompressionType::Uncompressed,
            payload: c.body,
        }
    } else {
        let kp = spec_decompress(c.body, c.decompressed_len as nat)->Ok_0;
        ChunkModel { tag: c.tag, reserved: c.reserved, compression: kp.0, payload: kp.1 }
    }
}

/// A chunk list the decoder accepts whole: every record well formed, only
/// the last one the sentinel.
pub open spec fn chunk_list_wf(cs: Seq<RawChunk>) -> bool {
    &&& cs.len() >= 1
    &&& forall|i: int| 0 <= i < cs.len() ==> raw_chunk_wf(#[trigger] cs[i])
    &&& forall|i: int| 0 <= i < cs.len() - 1 ==> (#[trigger] cs[i]).tag != spec_sentinel()
    &&& cs.last().tag == spec_sentinel()
}

proof fn lemma_parse_chunks_of_encoding(input: Seq<u8>, pos: int, cs: Seq<RawChunk>)
    requires
        chunk_list_wf(cs),
        0 <= pos <= input.len(),
        input.subrange(pos, input.len() as int) == spec_encode_chunks(cs),
    ensures
        spec_parse_chunks(input, pos).1 == Ok::<int, ErrorModel>(input.len() as int),
        spec_parse_chunks(input, pos).0.len() == cs.len(),
        forall|i: int|
            0 <= i < cs.len() ==> spec_parse_chunks(input, pos).0[i] == raw_chunk_model(
                #[trigger] cs[i],
            ),
    decreases cs.len(),
{
    let c = cs[0];
    let enc = spec_encode_chunk(c);
    lemma_le32_of(c.compressed_len);
    lemma_le32_of(c.decompressed_len);
    let body_len = c.body.len() as int;
    assert(enc.len() == 16 + body_len);
    if cs.len() == 1 {
        assert(spec_encode_chunks(cs.drop_first()) =~= Seq::<u8>::empty());
        assert(spec_encode_chunks(cs) =~= enc);
    }
    assert(input.len() - pos == spec_encode_chunks(cs).len());
    assert(spec_encode_chunks(cs).len() >= enc.len()) by {
        if cs.len() > 1 {
            assert(spec_encode_chunks(cs) == enc + spec_encode_chunks(cs.drop_first()));
        }
    }
    assert forall|k: int| 0 <= k < enc.len() implies input[pos + k] == #[trigger] enc[k] by {
        if cs.len() > 1 {
            assert(spec_encode_chunks(cs) == enc + spec_encode_chunks(cs.drop_first()));
        }
        assert(spec_encode_chunks(cs)[k] == enc[k]);
        assert(input.subrange(pos, input.len() as int)[k] == input[pos + k]);
    }
    assert forall|j: int| 0 <= j < 4 implies input.subrange(pos, pos + 4)[j] == c.tag[j] by {
        assert(input[pos + j] == enc[j]);
    }
    assert(input.subrange(pos, pos + 4) =~= c.tag);
    assert forall|j: int|
        0 <= j < 4 implies input.subrange(pos + 4, pos + 8)[j] == spec_le32_of(
        c.compressed_len,
    )[j] by {
        assert(input[pos + 4 + j] == enc[4 + j]);
    }
    assert(input.subrange(pos + 4, pos + 8) =~= spec_le32_of(c.compressed_len));
    assert forall|j: int|
        0 <= j < 4 implies input.subrange(pos + 8, pos + 12)[j] == spec_le32_of(
        c.decompressed_len,
    )[j] by {
        assert(input[pos + 8 + j] == enc[8 + j]);
    }
    assert(input.subrange(pos + 8, pos + 12) =~= spec_le32_of(c.decompressed_len));
    assert forall|j: int|
        0 <= j < 4 implies input.subrange(pos + 12, pos + 16)[j] == c.reserved[j] by {
        assert(input[pos + 12 + j] == enc[12 + j]);
    }
    assert(input.subrange(pos + 12, pos + 16) =~= c.reserved);
    assert forall|j: int|
        0 <= j < body_len implies input.subrange(pos + 16, pos + 16 + body_len)[j] == c.body[j] by {
        assert(input[pos + 16 + j] == enc[16 + j]);
    }
    assert(input.subrange(pos + 16, pos + 16 + body_len) =~= c.body);
    assert(raw_chunk_wf(c));
    if c.compressed_len == 0 {
        assert(c.body.len() == c.decompressed_len);
    }
    let pc = spec_parse_chunks(input, pos);
    if cs.len() == 1 {
        assert(c.tag == spec_sentinel());
        assert(pos + 16 + body_len == input.len());
        assert(pc.0 =~= seq![raw_chunk_model(c)]);
    } else {
        assert(cs[0].tag != spec_sentinel());
        let pos2 = pos + enc.len();
        assert(spec_encode_chunks(cs) == enc + spec_encode_chunks(cs.drop_first()));
        assert(input.subrange(pos2, input.len() as int) =~= spec_encode_chunks(cs.drop_first()))
            by {
            assert(forall|k: int|
                0 <= k < input.len() - pos2 ==> input[pos2 + k] == #[trigger] spec_encode_chunks(
                    cs.drop_first(),
                )[k]) by {
                assert(forall|k: int|
                    0 <= k < input.len() - pos2 ==> #[trigger] spec_encode_chunks(
                        cs.drop_first(),
                    )[k] == spec_encode_chunks(cs)[enc.len() + k]);
                assert(forall|k: int|
                    0 <= k < input.len() - pos ==> input[pos + k] == #[trigger] spec_encode_chunks(
                        cs,
                    )[k]) by {
                    assert(forall|k: int|
                        0 <= k < spec_encode_chunks(cs).len()
                            ==> #[trigger] spec_encode_chunks(cs)[k] == input.subrange(
                            pos,
                            input.len() as int,
                        )[k]);
                }
            }
        }
        assert(chunk_list_wf(cs.drop_first())) by {
            assert(forall|i: int|
                0 <= i < cs.drop_first().len() ==> #[trigger] cs.drop_first()[i] == cs[i + 1]);
            assert(cs.drop_first().last() == cs.last());
        }
        lemma_parse_chunks_of_encoding(input, pos2, cs.drop_first());
        let rest = spec_parse_chunks(input, pos2);
        assert(pc.0 =~= seq![raw_chunk_model(c)] + rest.0);
        assert(forall|i: int|
            0 <= i < cs.len() ==> pc.0[i] == raw_chunk_model(#[trigger] cs[i])) by {
            assert(forall|i: int|
                1 <= i < cs.len() ==> pc.0[i] == rest.0[i - 1] && #[trigger] cs[i]
                    == cs.drop_first()[i - 1]);
        }
    }
}

/// Law: decoding an input built from a correct magic signature, the
/// supported version, arbitrary counts and reserved bytes, and any
/// well-formed chunk records of which exactly the last is the sentinel,
/// succeeds; the decoded chunks are those records, decoded, in their order.
pub proof fn lemma_decode_well_formed_stream(
    class_count: u32,
    instance_count: u32,
    reserved: Seq<u8>,
    cs: Seq<RawChunk>,
)
    requires
        reserved.len() == 8,
        chunk_list_wf(cs),
    ensures
        ({
            let input = spec_encode_header(class_count, instance_count, reserved)
                + spec_encode_chunks(cs);
            &&& spec_parse(input) is Ok
            &&& spec_parse(input)->Ok_0.class_count == class_count
            &&& spec_parse(input)->Ok_0.instance_count == instance_count
            &&& spec_parse(input)->Ok_0.reserved == reserved
            &&& spec_parse(input)->Ok_0.chunks.len() == cs.len()
            &&& forall|i: int|
                0 <= i < cs.len() ==> spec_parse(input)->Ok_0.chunks[i] == raw_chunk_model(
                    #[trigger] cs[i],
                )
        }),
{
    let header = spec_encode_header(class_count, instance_count, reserved);
    let input = header + spec_encode_chunks(cs);
    lemma_le32_of(class_count);
    lemma_le32_of(instance_count);
    assert(header.len() == 32);
    assert(input.subrange(0, 14) =~= spec_magic());
    assert(input.subrange(14, 16) =~= spec_version_bytes());
    assert(input.subrange(16, 20) =~= spec_le32_of(class_count));
    assert(input.subrange(20, 24) =~= spec_le32_of(instance_count));
    assert(input.subrange(24, 32) =~= reserved);
    assert(input.subrange(32, input.len() as int) =~= spec_encode_chunks(cs));
    lemma_parse_chunks_of_encoding(input, spec_header_len(), cs);
}

/// Law: an input whose leading bytes differ from the magic signature fails
/// with a format mismatch carrying the expected and the actual bytes; no
/// chunk is decoded beside the error.
pub proof fn lemma_magic_mismatch(input: Seq<u8>)
    requires
        input.len() >= 14,
        input.subrange(0, 14) != spec_magic(),
    ensures
        spec_parse(input) == Err::<crate::parse::FileModel, ErrorModel>(
            ErrorModel::FormatMismatch { expected: spec_magic(), actual: input.subrange(0, 14) },
        ),
{
}

/// Law: an input with the correct magic signature but a version field other
/// than 0 fails with a format mismatch.
pub proof fn lemma_version_mismatch(input: Seq<u8>)
    requires
        input.len() >= 16,
        input.subrange(0, 14) == spec_magic(),
        spec_le16(input.subrange(14, 16)) != 0,
    ensures
        spec_parse(input) == Err::<crate::parse::FileModel, ErrorModel>(
            ErrorModel::FormatMismatch {
                expected: spec_version_bytes(),
                actual: input.subrange(14, 16),
            },
        ),
{
    assert(input.subrange(14, 16)[0] == input[14]);
    assert(input.subrange(14, 16)[1] == input[15]);
    assert(input[14] != 0 || input[15] != 0);
    assert(input.subrange(14, 16) != spec_version_bytes());
}

/// The sentinel chunk record with empty payload and zeroed reserved bytes.
pub open spec fn sentinel_raw_chunk() -> RawChunk {
    RawChunk {
        tag: spec_sentinel(),
        compressed_len: 0,
        decompressed_len: 0,
        reserved: seq![0u8, 0u8, 0u8, 0u8],
        body: Seq::empty(),
    }
}

/// Law: bytes holding a Zstandard stream, embedded as a chunk with their
/// length as the compressed length and their decompression's length as the
/// decompressed length, decode back to exactly that decompression, detected
/// as Zstandard.
pub proof fn lemma_zstd_round_trip(tag: Seq<u8>, compressed: Seq<u8>, payload: Seq<u8>)
    requires
        tag.len() == 4,
        tag != spec_sentinel(),
        sniffs_zstd(compressed),
        zstd_frame_decode(compressed) == Some(payload),
        compressed.len() < 0x100000000,
        payload.len() < 0x100000000,
    ensures
        ({
            let cs = seq![
                RawChunk {
                    tag,
                    compressed_len: compressed.len() as u32,
                    decompressed_len: payload.len() as u32,
                    reserved: seq![0u8, 0u8, 0u8, 0u8],
                    body: compressed,
                },
                sentinel_raw_chunk(),
            ];
            let input = spec_encode_header(0, 0, seq![0u8, 0u8, 0u8, 0u8, 0u8, 0u8, 0u8, 0u8])
                + spec_encode_chunks(cs);
            &&& spec_parse(input) is Ok
            &&& spec_parse(input)->Ok_0.chunks.len() == 2
            &&& spec_parse(input)->Ok_0.chunks[0].payload == payload
            &&& spec_parse(input)->Ok_0.chunks[0].compression == CompressionType::Zstd
        }),
{
    let c0 = RawChunk {
        tag,
        compressed_len: compressed.len() as u32,
        decompressed_len: payload.len() as u32,
        reserved: seq![0u8, 0u8, 0u8, 0u8],
        body: compressed,
    };
    let cs = seq![c0, sentinel_raw_chunk()];
    assert(raw_chunk_wf(c0));
    assert(raw_chunk_wf(sentinel_raw_chunk()));
    assert(chunk_list_wf(cs));
    lemma_decode_well_formed_stream(0, 0, seq![0u8, 0u8, 0u8, 0u8, 0u8, 0u8, 0u8, 0u8], cs);
}

/// Law: bytes holding a raw LZ4 block that does not open with the
/// Zstandard magic number, embedded as a chunk the same way, decode back to
/// exactly their decompression, detected as LZ4.
pub proof fn lemma_lz4_round_trip(tag: Seq<u8>, compressed: Seq<u8>, payload: Seq<u8>)
    requires
        tag.len() == 4,
        tag != spec_sentinel(),
        compressed.len() >= 4,
        !sniffs_zstd(compressed),
        lz4_block_decode(compressed) == Some(payload),
        compressed.len() < 0x100000000,
        payload.len() < 0x100000000,
    ensures
        ({
            let cs = seq![
                RawChunk {
                    tag,
                    compressed_len: compressed.len() as u32,
                    decompressed_len: payload.len() as u32,
                    reserved: seq![0u8, 0u8, 0u8, 0u8],
                    body: compressed,
                },
                sentinel_raw_chunk(),
            ];
            let input = spec_encode_header(0, 0, seq![0u8, 0u8, 0u8, 0u8, 0u8, 0u8, 0u8, 0u8])
                + spec_encode_chunks(cs);
            &&& spec_parse(input) is Ok
            &&& spec_parse(input)->Ok_0.chunks.len() == 2
            &&& spec_parse(input)->Ok_0.chunks[0].payload == payload
            &&& spec_parse(input)->Ok_0.chunks[0].compression == CompressionType::Lz4
        }),
{
    let c0 = RawChunk {
        tag,
        compressed_len: compressed.len() as u32,
        decompressed_len: payload.len() as u32,
        reserved: seq![0u8, 0u8, 0u8, 0u8],
        body: compressed,
    };
    let cs = seq![c0, sentinel_raw_chunk()];
    assert(raw_chunk_wf(c0));
    assert(raw_chunk_wf(sentinel_raw_chunk()));
    assert(chunk_list_wf(cs));
    lemma_decode_well_formed_stream(0, 0, seq![0u8, 0u8, 0u8, 0u8, 0u8, 0u8, 0u8, 0u8], cs);
}

/// Law: a chunk with compressed length 0 passes its payload through
/// byte-for-byte, detected as uncompressed, whatever the payload holds —
/// also where it opens with the Zstandard magic number.
pub proof fn lemma_stored_chunk_passthrough(tag: Seq<u8>, body: Seq<u8>)
    requires
        tag.len() == 4,
        tag != spec_sentinel(),
        body.len() < 0x100000000,
    ensures
        ({
            let cs = seq![
                RawChunk {
                    tag,
                    compressed_len: 0,
                    decompressed_len: body.len() as u32,
                    reserved: seq![0u8, 0u8, 0u8, 0u8],
                    body,
                },
                sentinel_raw_chunk(),
            ];
            let input = spec_encode_header(0, 0, seq![0u8, 0u8, 0u8, 0u8, 0u8, 0u8, 0u8, 0u8])
                + spec_encode_chunks(cs);
            &&& spec_parse(input) is Ok
            &&& spec_parse(input)->Ok_0.chunks.len() == 2
            &&& spec_parse(input)->Ok_0.chunks[0].payload == body
            &&& spec_parse(input)->Ok_0.chunks[0].compression == CompressionType::Uncompressed
        }),
{
    let c0 = RawChunk {
        tag,
        compressed_len: 0,
        decompressed_len: body.len() as u32,
        reserved: seq![0u8, 0u8, 0u8, 0u8],
        body,
    };
    let cs = seq![c0, sentinel_raw_chunk()];
    assert(raw_chunk_wf(c0));
    assert(raw_chunk_wf(sentinel_raw_chunk()));
    assert(chunk_list_wf(cs));
    lemma_decode_well_formed_stream(0, 0, seq![0u8, 0u8, 0u8, 0u8, 0u8, 0u8, 0u8, 0u8], cs);
}

proof fn lemma_parse_chunks_end_bounds(input: Seq<u8>, pos: int)
    requires
        0 <= pos,
    ensures
        spec_parse_chunks(input, pos).1 matches Ok(end) ==> pos + 16 <= end <= input.len(),
    decreases input.len() - pos,
{
    let pc = spec_parse_chunks(input, pos);
    if pc.1 is Ok {
        let clen = spec_le32(input.subrange(pos + 4, pos + 8));
        let dlen = spec_le32(input.subrange(pos + 8, pos + 12));
        let body_len = if clen == 0 {
            dlen
        } else {
            clen
        };
        let tag = input.subrange(pos, pos + 4);
        if tag != spec_sentinel() {
            lemma_parse_chunks_end_bounds(input, pos + 16 + body_len);
        }
    }
}

proof fn lemma_truncated_chunks_eof(input: Seq<u8>, pos: int, n: int)
    requires
        0 <= pos <= n <= input.len(),
        spec_parse_chunks(input, pos).1 matches Ok(end) && n < end,
    ensures
        spec_parse_chunks(input.subrange(0, n), pos).1 == Err::<int, ErrorModel>(
            ErrorModel::UnexpectedEof,
        ),
    decreases input.len() - pos,
{
    let t = input.subrange(0, n);
    let pc = spec_parse_chunks(input, pos);
    lemma_parse_chunks_end_bounds(input, pos);
    let tag = input.subrange(pos, pos + 4);
    let clen = spec_le32(input.subrange(pos + 4, pos + 8));
    let dlen = spec_le32(input.subrange(pos + 8, pos + 12));
    let body_len = if clen == 0 {
        dlen
    } else {
        clen
    };
    if pos + 16 <= n {
        assert(t.subrange(pos, pos + 4) =~= tag);
        assert(t.subrange(pos + 4, pos + 8) =~= input.subrange(pos + 4, pos + 8));
        assert(t.subrange(pos + 8, pos + 12) =~= input.subrange(pos + 8, pos + 12));
        assert(t.subrange(pos + 12, pos + 16) =~= input.subrange(pos + 12, pos + 16));
        if pos + 16 + body_len <= n {
            assert(t.subrange(pos + 16, pos + 16 + body_len) =~= input.subrange(
                pos + 16,
                pos + 16 + body_len,
            ));
            assert(tag != spec_sentinel());
            lemma_parse_chunks_end_bounds(input, pos + 16 + body_len);
            lemma_truncated_chunks_eof(input, pos + 16 + body_len, n);
        }
    }
}

/// Law: truncating an input that decodes successfully anywhere after the
/// fixed header and before the end of its chunk stream fails with an
/// unexpected end of input — never with a partial decode.
pub proof fn lemma_truncation_eof(input: Seq<u8>, n: int)
    requires
        spec_parse(input) is Ok,
        spec_header_len() <= n,
        n < spec_parse_chunks(input, spec_header_len()).1->Ok_0,
    ensures
        spec_parse(input.subrange(0, n)) == Err::<FileModel, ErrorModel>(
            ErrorModel::UnexpectedEof,
        ),
{
    lemma_parse_chunks_end_bounds(input, spec_header_len());
    let t = input.subrange(0, n);
    assert(t.subrange(0, 14) =~= input.subrange(0, 14));
    assert(t.subrange(14, 16) =~= input.subrange(14, 16));
    lemma_truncated_chunks_eof(input, spec_header_len(), n);
}

/// Law: an input whose header is valid but which ends before one complete
/// chunk record fails with an unexpected end of input; no empty chunk
/// sequence is ever returned.
pub proof fn lemma_no_complete_chunk_eof(input: Seq<u8>)
    requires
        header_ok(input),
        input.len() < spec_header_len() + 16,
    ensures
        spec_parse(input) == Err::<FileModel, ErrorModel>(ErrorModel::UnexpectedEof),
{
}

proof fn lemma_parse_chunks_shape(input: Seq<u8>, pos: int)
    requires
        0 <= pos,
    ensures
        ({
            let pc = spec_parse_chunks(input, pos);
            pc.1 is Ok ==> {
                &&& pc.0.len() >= 1
                &&& pc.0.last().tag == spec_sentinel()
                &&& forall|i: int|
                    0 <= i < pc.0.len() - 1 ==> (#[trigger] pc.0[i]).tag != spec_sentinel()
            }
        }),
    decreases input.len() - pos,
{
    let pc = spec_parse_chunks(input, pos);
    if pc.1 is Ok {
        let tag = input.subrange(pos, pos + 4);
        let clen = spec_le32(input.subrange(pos + 4, pos + 8));
        let dlen = spec_le32(input.subrange(pos + 8, pos + 12));
        let body_len = if clen == 0 {
            dlen
        } else {
            clen
        };
        if tag != spec_sentinel() {
            lemma_parse_chunks_shape(input, pos + 16 + body_len);
            let rest = spec_parse_chunks(input, pos + 16 + body_len);
            assert(pc.0.last() == rest.0.last());
        }
    }
}

/// Law: every successful decode yields at least one chunk; the last chunk
/// is the sentinel, and no chunk before it carries the sentinel tag.
pub proof fn lemma_decoded_chunks_shape(input: Seq<u8>)
    requires
        spec_parse(input) is Ok,
    ensures
        spec_parse(input)->Ok_0.chunks.len() >= 1,
        spec_parse(input)->Ok_0.chunks.last().tag == spec_sentinel(),
        forall|i: int|
            0 <= i < spec_parse(input)->Ok_0.chunks.len() - 1 ==> (#[trigger] spec_parse(
                input,
            )->Ok_0.chunks[i]).tag != spec_sentinel(),
{
    lemma_parse_chunks_shape(input, spec_header_len());
}

} // verus!


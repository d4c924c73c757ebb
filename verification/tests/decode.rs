use rbx_util::parse_file;
use rbx_util::CompressionType;
use rbx_util::DecodeError;

const MAGIC: &[u8] = b"<roblox!\x89\xff\x0d\x0a\x1a\x0a";

fn header(class_count: u32, instance_count: u32) -> Vec<u8> {
    let mut v = Vec::new();
    v.extend_from_slice(MAGIC);
    v.extend_from_slice(&0u16.to_le_bytes());
    v.extend_from_slice(&class_count.to_le_bytes());
    v.extend_from_slice(&instance_count.to_le_bytes());
    v.extend_from_slice(&[0u8; 8]);
    v
}

fn chunk(tag: &[u8; 4], compressed_len: u32, decompressed_len: u32, body: &[u8]) -> Vec<u8> {
    let mut v = Vec::new();
    v.extend_from_slice(tag);
    v.extend_from_slice(&compressed_len.to_le_bytes());
    v.extend_from_slice(&decompressed_len.to_le_bytes());
    v.extend_from_slice(&[0u8; 4]);
    v.extend_from_slice(body);
    v
}

fn end_chunk() -> Vec<u8> {
    chunk(b"END\0", 0, 0, &[])
}

#[test]
fn minimal_container_scenario() {
    let mut input = header(5, 3);
    input.extend_from_slice(&end_chunk());
    let file = parse_file(&input).unwrap();
    assert_eq!(file.class_count, 5);
    assert_eq!(file.instance_count, 3);
    assert_eq!(file.reserved, "00 00 00 00 00 00 00 00");
    assert_eq!(file.chunks.len(), 1);
    assert_eq!(file.chunks[0].name, "END\0");
    assert_eq!(file.chunks[0].data, "");
    assert_eq!(file.chunks[0].reserved, "00 00 00 00");
    assert!(matches!(file.chunks[0].compression_type, CompressionType::Uncompressed));
}

#[test]
fn magic_mismatch_is_format_error() {
    let mut input = header(0, 0);
    input.extend_from_slice(&end_chunk());
    input[0] = b'x';
    match parse_file(&input) {
        Err(DecodeError::FormatMismatch { expected, actual }) => {
            assert_eq!(expected, MAGIC);
            assert_eq!(actual[0], b'x');
            assert_eq!(&actual[1..], &MAGIC[1..]);
        }
        other => panic!("expected a format mismatch, got {:?}", other),
    }
}

#[test]
fn magic_mismatch_last_byte() {
    let mut input = header(1, 1);
    input.extend_from_slice(&end_chunk());
    input[13] ^= 0xff;
    assert!(matches!(parse_file(&input), Err(DecodeError::FormatMismatch { .. })));
}

#[test]
fn version_mismatch_is_format_error() {
    let mut input = header(0, 0);
    input.extend_from_slice(&end_chunk());
    input[14] = 1;
    match parse_file(&input) {
        Err(DecodeError::FormatMismatch { expected, actual }) => {
            assert_eq!(expected, vec![0u8, 0u8]);
            assert_eq!(actual, vec![1u8, 0u8]);
        }
        other => panic!("expected a format mismatch, got {:?}", other),
    }
}

#[test]
fn empty_input_is_eof() {
    assert!(matches!(parse_file(&[]), Err(DecodeError::UnexpectedEof)));
}

#[test]
fn short_magic_is_eof() {
    assert!(matches!(parse_file(b"<roblox!"), Err(DecodeError::UnexpectedEof)));
}

#[test]
fn header_without_chunks_is_eof() {
    let input = header(7, 7);
    assert!(matches!(parse_file(&input), Err(DecodeError::UnexpectedEof)));
}

#[test]
fn truncated_chunk_header_is_eof() {
    let mut input = header(0, 0);
    input.extend_from_slice(&end_chunk());
    input.truncate(40);
    assert!(matches!(parse_file(&input), Err(DecodeError::UnexpectedEof)));
}

#[test]
fn truncated_payload_is_eof() {
    let mut input = header(0, 0);
    input.extend_from_slice(&chunk(b"INST", 0, 10, &[7u8; 10]));
    input.extend_from_slice(&end_chunk());
    for cut in 32..input.len() - 16 {
        let prefix = &input[..cut];
        assert!(
            matches!(parse_file(prefix), Err(DecodeError::UnexpectedEof)),
            "cut at {cut}"
        );
    }
}

#[test]
fn missing_sentinel_is_eof() {
    let mut input = header(0, 0);
    input.extend_from_slice(&chunk(b"INST", 0, 3, b"abc"));
    input.extend_from_slice(&chunk(b"PROP", 0, 2, b"xy"));
    assert!(matches!(parse_file(&input), Err(DecodeError::UnexpectedEof)));
}

#[test]
fn stored_chunks_keep_order_and_content() {
    let mut input = header(2, 9);
    input.extend_from_slice(&chunk(b"INST", 0, 5, b"hello"));
    input.extend_from_slice(&chunk(b"PROP", 0, 5, b"world"));
    input.extend_from_slice(&end_chunk());
    let file = parse_file(&input).unwrap();
    assert_eq!(file.chunks.len(), 3);
    assert_eq!(file.chunks[0].name, "INST");
    assert_eq!(file.chunks[0].data, "hello");
    assert_eq!(file.chunks[1].name, "PROP");
    assert_eq!(file.chunks[1].data, "world");
    assert_eq!(file.chunks[2].name, "END\0");
    assert!(matches!(file.chunks[0].compression_type, CompressionType::Uncompressed));
}

#[test]
fn stored_chunk_with_zstd_magic_is_passed_through() {
    let body = [0x28u8, 0xb5, 0x2f, 0xfd, 0x01, 0x02];
    let mut input = header(0, 0);
    input.extend_from_slice(&chunk(b"BLOB", 0, 6, &body));
    input.extend_from_slice(&end_chunk());
    let file = parse_file(&input).unwrap();
    assert!(matches!(file.chunks[0].compression_type, CompressionType::Uncompressed));
    assert_eq!(file.chunks[0].data, "28 B5 2F FD 01 02");
}

#[test]
fn bytes_after_sentinel_are_ignored() {
    let mut input = header(0, 0);
    input.extend_from_slice(&end_chunk());
    input.extend_from_slice(b"trailing garbage");
    let file = parse_file(&input).unwrap();
    assert_eq!(file.chunks.len(), 1);
}

#[test]
fn zstd_chunk_round_trips() {
    let payload = b"a payload that zstd gets to shrink, shrink, shrink, and shrink";
    let compressed = zstd::bulk::compress(payload, 3).unwrap();
    let mut input = header(1, 1);
    input.extend_from_slice(&chunk(
        b"INST",
        compressed.len() as u32,
        payload.len() as u32,
        &compressed,
    ));
    input.extend_from_slice(&end_chunk());
    let file = parse_file(&input).unwrap();
    assert!(matches!(file.chunks[0].compression_type, CompressionType::Zstd));
    assert_eq!(file.chunks[0].data.as_bytes(), payload);
}

#[test]
fn lz4_chunk_round_trips() {
    let payload = b"a payload that lz4 gets to shrink, shrink, shrink, and shrink";
    let compressed = lz4_flex::compress(payload);
    assert!(compressed.len() >= 4);
    let mut input = header(1, 1);
    input.extend_from_slice(&chunk(
        b"INST",
        compressed.len() as u32,
        payload.len() as u32,
        &compressed,
    ));
    input.extend_from_slice(&end_chunk());
    let file = parse_file(&input).unwrap();
    assert!(matches!(file.chunks[0].compression_type, CompressionType::Lz4));
    assert_eq!(file.chunks[0].data.as_bytes(), payload);
}

#[test]
fn zstd_size_mismatch_is_decompression_error() {
    let payload = b"sixteen bytes!!!";
    let compressed = zstd::bulk::compress(payload, 3).unwrap();
    let mut input = header(0, 0);
    input.extend_from_slice(&chunk(
        b"INST",
        compressed.len() as u32,
        payload.len() as u32 + 1,
        &compressed,
    ));
    input.extend_from_slice(&end_chunk());
    match parse_file(&input) {
        Err(DecodeError::DecompressionError { kind, expected, actual }) => {
            assert!(matches!(kind, CompressionType::Zstd));
            assert_eq!(expected, payload.len() + 1);
            assert_eq!(actual, Some(payload.len()));
        }
        other => panic!("expected a decompression error, got {:?}", other),
    }
}

#[test]
fn lz4_size_mismatch_is_decompression_error() {
    let payload = b"sixteen bytes!!!";
    let compressed = lz4_flex::compress(payload);
    let mut input = header(0, 0);
    input.extend_from_slice(&chunk(
        b"INST",
        compressed.len() as u32,
        payload.len() as u32 - 1,
        &compressed,
    ));
    input.extend_from_slice(&end_chunk());
    match parse_file(&input) {
        Err(DecodeError::DecompressionError { kind, expected, actual: _ }) => {
            assert!(matches!(kind, CompressionType::Lz4));
            assert_eq!(expected, payload.len() - 1);
        }
        other => panic!("expected a decompression error, got {:?}", other),
    }
}

#[test]
fn garbage_lz4_chunk_is_decompression_error() {
    let mut input = header(0, 0);
    input.extend_from_slice(&chunk(b"INST", 5, 100, &[0xf0u8, 0x11, 0x22, 0x33, 0x44]));
    input.extend_from_slice(&end_chunk());
    assert!(matches!(
        parse_file(&input),
        Err(DecodeError::DecompressionError { kind: CompressionType::Lz4, .. })
    ));
}

#[test]
fn compressed_chunk_too_short_to_sniff_is_malformed() {
    for len in 1..4u32 {
        let body = vec![0x28u8; len as usize];
        let mut input = header(0, 0);
        input.extend_from_slice(&chunk(b"INST", len, 8, &body));
        input.extend_from_slice(&end_chunk());
        assert!(matches!(parse_file(&input), Err(DecodeError::MalformedChunk)));
    }
}

#[test]
fn sentinel_chunk_may_carry_payload() {
    let mut input = header(0, 0);
    input.extend_from_slice(&chunk(b"END\0", 0, 4, b"tail"));
    let file = parse_file(&input).unwrap();
    assert_eq!(file.chunks.len(), 1);
    assert_eq!(file.chunks[0].data, "tail");
}

#[test]
fn decompress_chunk_detects_each_codec() {
    let payload = b"the dispatcher must detect the codec from the leading bytes";
    let zstd_bytes = zstd::bulk::compress(payload, 3).unwrap();
    let (kind, out) = rbx_util::decompress_chunk(&zstd_bytes, payload.len()).unwrap();
    assert!(matches!(kind, CompressionType::Zstd));
    assert_eq!(out, payload);
    let lz4_bytes = lz4_flex::compress(payload);
    let (kind, out) = rbx_util::decompress_chunk(&lz4_bytes, payload.len()).unwrap();
    assert!(matches!(kind, CompressionType::Lz4));
    assert_eq!(out, payload);
}

#[test]
fn decompress_chunk_short_buffer_is_malformed() {
    assert!(matches!(
        rbx_util::decompress_chunk(&[], 0),
        Err(DecodeError::MalformedChunk)
    ));
    assert!(matches!(
        rbx_util::decompress_chunk(&[0x28, 0xb5, 0x2f], 9),
        Err(DecodeError::MalformedChunk)
    ));
}

#[test]
fn chunk_with_invalid_utf8_tag_renders_hex() {
    let mut input = header(0, 0);
    input.extend_from_slice(&chunk(&[0xff, 0x00, 0x10, 0x41], 0, 0, &[]));
    input.extend_from_slice(&end_chunk());
    let file = parse_file(&input).unwrap();
    assert_eq!(file.chunks[0].name, "FF 00 10 41");
}

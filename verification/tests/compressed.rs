use flate2::write::{GzEncoder, ZlibEncoder};
use flate2::Compression;
use nbt::nbt_parser::{parse_binary, parse_compressed, parse_gzip, parse_zlib};
use nbt::{NbtParseError, NbtTag};
use std::io::Write;

fn raw() -> Vec<u8> {
    vec![10, 0, 1, b'r', 8, 0, 1, b's', 0, 5, b'h', b'e', b'l', b'l', b'o', 3, 0, 1, b'n', 0, 0, 1, 0, 0]
}

fn tree() -> NbtTag {
    NbtTag::Compound(
        "r".to_string(),
        vec![NbtTag::String("s".to_string(), "hello".to_string()), NbtTag::Int("n".to_string(), 256)],
    )
}

fn gzip(data: &[u8]) -> Vec<u8> {
    let mut encoder = GzEncoder::new(Vec::new(), Compression::default());
    encoder.write_all(data).unwrap();
    encoder.finish().unwrap()
}

fn zlib(data: &[u8]) -> Vec<u8> {
    let mut encoder = ZlibEncoder::new(Vec::new(), Compression::default());
    encoder.write_all(data).unwrap();
    encoder.finish().unwrap()
}

#[test]
fn the_sample_decodes_uncompressed() {
    assert_eq!(parse_binary(raw()), Ok(tree()));
}

#[test]
fn gzip_input_is_decompressed_and_decoded() {
    let compressed = gzip(&raw());
    assert_ne!(compressed, raw());
    assert_eq!(parse_gzip(compressed.clone()), Ok(tree()));
    assert_eq!(parse_compressed(compressed), Ok(tree()));
}

#[test]
fn zlib_input_is_decompressed_and_decoded() {
    let compressed = zlib(&raw());
    assert_ne!(compressed, raw());
    assert_eq!(parse_zlib(compressed.clone()), Ok(tree()));
    assert_eq!(parse_compressed(compressed), Ok(tree()));
}

#[test]
fn input_that_is_neither_is_a_decompression_error() {
    assert_eq!(parse_compressed(raw()), Err(NbtParseError::DecompressionError));
    assert_eq!(parse_gzip(raw()), Err(NbtParseError::DecompressionError));
    assert_eq!(parse_zlib(raw()), Err(NbtParseError::DecompressionError));
    assert_eq!(parse_compressed(vec![1, 2, 3, 4, 5, 6, 7, 8, 9, 10, 11, 12]), Err(NbtParseError::DecompressionError));
}

#[test]
fn each_format_refuses_the_other() {
    assert_eq!(parse_gzip(zlib(&raw())), Err(NbtParseError::DecompressionError));
    assert_eq!(parse_zlib(gzip(&raw())), Err(NbtParseError::DecompressionError));
}

#[test]
fn a_damaged_gzip_stream_is_a_decompression_error() {
    let mut compressed = gzip(&raw());
    let last = compressed.len() - 5;
    compressed[last] ^= 0xff;
    assert_eq!(parse_gzip(compressed), Err(NbtParseError::DecompressionError));
    let whole = gzip(&raw());
    let cut = whole[..whole.len() - 3].to_vec();
    assert_eq!(parse_gzip(cut), Err(NbtParseError::DecompressionError));
}

#[test]
fn what_a_gzip_stream_holds_is_decoded_as_it_is() {
    // decompresses, but the content is no tag: the decoder's error comes back
    assert_eq!(parse_compressed(gzip(&[13, 0, 0])), Err(NbtParseError::UnknownNBT(13)));
    assert_eq!(parse_compressed(zlib(&[3, 0, 0, 1])), Err(NbtParseError::EndOfData));
    assert_eq!(parse_gzip(gzip(&[])), Err(NbtParseError::EndOfData));
}

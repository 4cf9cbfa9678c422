use pngme::chunk::Chunk;
use pngme::chunk_type::ChunkType;
use pngme::error::PngError;
use pngme::png::Png;
use std::str::FromStr;

const SIGNATURE: [u8; 8] = [137, 80, 78, 71, 13, 10, 26, 10];

fn chunk(t: &str, msg: &str) -> Chunk {
    Chunk::new(ChunkType::from_str(t).unwrap(), msg.as_bytes().to_vec())
}

fn sample_png() -> Png {
    Png::from_chunks(vec![
        chunk("FrSt", "I am the first chunk"),
        chunk("miDl", "I am another chunk"),
        chunk("LASt", "I am the last chunk"),
    ])
}

fn types(png: &Png) -> Vec<String> {
    png.chunks().iter().map(|c| c.chunk_type().to_string()).collect()
}

#[test]
fn header_is_signature() {
    assert_eq!(sample_png().header(), SIGNATURE);
}

#[test]
fn serialize_starts_with_signature_then_chunks() {
    let png = sample_png();
    let bytes = png.as_bytes();
    assert_eq!(&bytes[0..8], &SIGNATURE);
    let mut expected: Vec<u8> = SIGNATURE.to_vec();
    for c in png.chunks() {
        expected.extend_from_slice(&c.as_bytes());
    }
    assert_eq!(bytes, expected);
}

#[test]
fn parse_of_serialized_reproduces_bytes() {
    let bytes = sample_png().as_bytes();
    let png = Png::try_from(bytes.as_ref()).unwrap();
    assert_eq!(types(&png), vec!["FrSt", "miDl", "LASt"]);
    assert_eq!(png.as_bytes(), bytes);
}

#[test]
fn signature_alone_is_empty_stream() {
    let png = Png::try_from(SIGNATURE.as_ref()).unwrap();
    assert_eq!(png.chunks().len(), 0);
    assert_eq!(png.as_bytes(), SIGNATURE.to_vec());
}

#[test]
fn bad_signature_is_rejected() {
    let mut bytes = sample_png().as_bytes();
    bytes[0] = 13;
    assert_eq!(Png::try_from(bytes.as_ref()).err(), Some(PngError::InvalidSignature));
    let short: Vec<u8> = vec![137, 80, 78];
    assert_eq!(Png::try_from(short.as_ref()).err(), Some(PngError::InvalidSignature));
    let empty: Vec<u8> = Vec::new();
    assert_eq!(Png::try_from(empty.as_ref()).err(), Some(PngError::InvalidSignature));
}

#[test]
fn leftover_partial_chunk_fails() {
    let mut bytes = sample_png().as_bytes();
    bytes.extend_from_slice(&[0, 0, 0]);
    assert_eq!(Png::try_from(bytes.as_ref()).err(), Some(PngError::TruncatedBuffer));
}

#[test]
fn bad_chunk_fails_whole_parse() {
    let mut bytes = sample_png().as_bytes();
    let last = bytes.len() - 1;
    bytes[last] ^= 1;
    assert_eq!(Png::try_from(bytes.as_ref()).err(), Some(PngError::ChecksumMismatch));
}

#[test]
fn append_adds_at_end() {
    let mut png = sample_png();
    png.append_chunk(chunk("TeSt", "Message"));
    assert_eq!(types(&png), vec!["FrSt", "miDl", "LASt", "TeSt"]);
}

#[test]
fn append_then_remove_restores_sequence() {
    let mut png = sample_png();
    let before = png.as_bytes();
    png.append_chunk(chunk("TEST", "Message"));
    let removed = png.remove_first_chunk("TEST").unwrap();
    assert_eq!(removed.data(), b"Message");
    assert_eq!(types(&png), vec!["FrSt", "miDl", "LASt"]);
    assert_eq!(png.as_bytes(), before);
    assert_eq!(png.remove_first_chunk("TEST").err(), Some(PngError::ChunkNotFound));
}

#[test]
fn remove_takes_only_first_match() {
    let mut png = sample_png();
    png.append_chunk(chunk("miDl", "second"));
    let removed = png.remove_first_chunk("miDl").unwrap();
    assert_eq!(removed.data(), b"I am another chunk");
    assert_eq!(types(&png), vec!["FrSt", "LASt", "miDl"]);
}

#[test]
fn lookup_returns_first_match() {
    let mut png = sample_png();
    png.append_chunk(chunk("FrSt", "a later one"));
    let found = png.chunk_by_type("FrSt").unwrap();
    assert_eq!(found.data_as_string().unwrap(), "I am the first chunk");
}

#[test]
fn lookup_of_absent_type_is_none() {
    let png = sample_png();
    assert!(png.chunk_by_type("NoNe").is_none());
    assert!(png.chunk_by_type("Fr").is_none());
    assert!(png.chunk_by_type("FrStX").is_none());
}

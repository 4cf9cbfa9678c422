use pngme::chunk_type::ChunkType;
use std::convert::TryFrom;
use std::str::FromStr;

#[test]
pub fn test_chunk_type_is_equal() {
    let chunk1 = ChunkType::try_from([82, 117, 83, 116]).unwrap();
    let chunk2 = ChunkType::try_from([82, 117, 83, 116]).unwrap();

    assert_eq!(chunk1, chunk2);
}

#[test]
pub fn test_chunk_type_from_bytes() {
    let expected = [82, 117, 83, 116];
    let actual = ChunkType::try_from([82, 117, 83, 116]).unwrap();

    assert_eq!(expected, actual.bytes());
}

#[test]
pub fn test_chunk_type_from_str() {
    let expected = ChunkType::try_from([82, 117, 83, 116]).unwrap();
    let actual = ChunkType::from_str("RuSt").unwrap();
    assert_eq!(expected, actual);
}

#[test]
pub fn test_chunk_type_is_critical() {
    let chunk = ChunkType::from_str("RuSt").unwrap();
    assert!(chunk.is_critical());
}

#[test]
pub fn test_chunk_type_is_not_critical() {
    let chunk = ChunkType::from_str("ruSt").unwrap();
    assert!(!chunk.is_critical());
}

#[test]
pub fn test_chunk_type_is_public() {
    let chunk = ChunkType::from_str("RUSt").unwrap();
    assert!(chunk.is_public());
}

#[test]
pub fn test_chunk_type_is_not_public() {
    let chunk = ChunkType::from_str("RuSt").unwrap();
    assert!(!chunk.is_public());
}

#[test]
pub fn test_chunk_type_is_reserved_bit_valid() {
    let chunk = ChunkType::from_str("RuSt").unwrap();
    assert!(chunk.is_reserved_bit_valid());
}

#[test]
pub fn test_chunk_type_is_reserved_bit_invalid() {
    let chunk = ChunkType::from_str("Rust").unwrap();
    assert!(!chunk.is_reserved_bit_valid());
}

#[test]
pub fn test_chunk_type_is_safe_to_copy() {
    let chunk = ChunkType::from_str("RuSt").unwrap();
    assert!(chunk.is_safe_to_copy());
}

#[test]
pub fn test_chunk_type_is_unsafe_to_copy() {
    let chunk = ChunkType::from_str("RuST").unwrap();
    assert!(!chunk.is_safe_to_copy());
}

#[test]
pub fn test_valid_chunk_is_valid() {
    let chunk = ChunkType::from_str("RuSt").unwrap();
    assert!(chunk.is_valid());
}

#[test]
pub fn test_invalid_chunk_is_valid() {
    let chunk = ChunkType::from_str("Rust").unwrap();
    assert!(!chunk.is_valid());

    let chunk = ChunkType::from_str("Ru1t");
    assert!(chunk.is_err());
}

#[test]
pub fn test_chunk_type_string() {
    let chunk = ChunkType::from_str("RuSt").unwrap();
    assert_eq!(&chunk.to_string(), "RuSt");
}

#[test]
pub fn test_chunk_type_trait_impls() {
    let chunk_type_1: ChunkType = TryFrom::try_from([82, 117, 83, 116]).unwrap();
    let chunk_type_2: ChunkType = FromStr::from_str("RuSt").unwrap();
    let _chunk_string = chunk_type_1.to_string();
    let _are_chunks_equal = chunk_type_1 == chunk_type_2;
}

#[test]
fn from_str_rejects_wrong_lengths() {
    assert!(ChunkType::from_str("RuS").is_err());
    assert!(ChunkType::from_str("RuStX").is_err());
    assert!(ChunkType::from_str("").is_err());
}

#[test]
fn from_str_rejects_non_ascii_letters() {
    // Two characters, four bytes: not four letters.
    assert!(ChunkType::from_str("éé").is_err());
    assert!(ChunkType::from_str("Ru t").is_err());
}

#[test]
fn from_bytes_rejects_non_letters() {
    assert!(ChunkType::try_from([82, 117, 83, 64]).is_err());
    assert!(ChunkType::try_from([91, 117, 83, 116]).is_err());
    assert!(ChunkType::try_from([0, 0, 0, 0]).is_err());
}

#[test]
fn validity_needs_clear_reserved_bit() {
    assert!(ChunkType::from_str("IHDR").unwrap().is_valid());
    assert!(ChunkType::from_str("tEXt").unwrap().is_valid());
    assert!(!ChunkType::from_str("IHdR").unwrap().is_valid());
}

#[test]
fn property_bits_of_lower_and_upper_case() {
    let t = ChunkType::from_str("abcd").unwrap();
    assert!(!t.is_critical());
    assert!(!t.is_public());
    assert!(!t.is_reserved_bit_valid());
    assert!(t.is_safe_to_copy());
    let t = ChunkType::from_str("ABCD").unwrap();
    assert!(t.is_critical());
    assert!(t.is_public());
    assert!(t.is_reserved_bit_valid());
    assert!(!t.is_safe_to_copy());
}

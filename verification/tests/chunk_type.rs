use pngme::chunk_type::ChunkType;
use pngme::PngError;

#[test]
pub fn test_chunk_type_from_bytes() {
    let expected = [82, 117, 83, 116];
    let actual = ChunkType::try_from([82, 117, 83, 116]).unwrap();

    assert_eq!(expected, actual.bytes());
}

#[test]
pub fn test_chunk_type_from_str() {
    let expected = ChunkType::try_from([82, 117, 83, 116]).unwrap();
    let actual = ChunkType::from_str("RuSt").unwrap();
    assert_eq!(expected, actual);
}

#[test]
pub fn test_chunk_type_is_critical() {
    let chunk = ChunkType::from_str("RuSt").unwrap();
    assert!(chunk.is_critical());
}

#[test]
pub fn test_chunk_type_is_not_critical() {
    let chunk = ChunkType::from_str("ruSt").unwrap();
    assert!(!chunk.is_critical());
}

#[test]
pub fn test_chunk_type_is_public() {
    let chunk = ChunkType::from_str("RUSt").unwrap();
    assert!(chunk.is_public());
}

#[test]
pub fn test_chunk_type_is_not_public() {
    let chunk = ChunkType::from_str("RuSt").unwrap();
    assert!(!chunk.is_public());
}

#[test]
pub fn test_chunk_type_is_reserved_bit_valid() {
    let chunk = ChunkType::from_str("RuSt").unwrap();
    assert!(chunk.is_reserved_bit_valid());
}

#[test]
pub fn test_chunk_type_is_reserved_bit_invalid() {
    let chunk = ChunkType::from_str("Rust").unwrap();
    assert!(!chunk.is_reserved_bit_valid());
}

#[test]
pub fn test_chunk_type_is_safe_to_copy() {
    let chunk = ChunkType::from_str("RuSt").unwrap();
    assert!(chunk.is_safe_to_copy());
}

#[test]
pub fn test_chunk_type_is_unsafe_to_copy() {
    let chunk = ChunkType::from_str("RuST").unwrap();
    assert!(!chunk.is_safe_to_copy());
}

#[test]
pub fn test_valid_chunk_is_valid() {
    let chunk = ChunkType::from_str("RuSt").unwrap();
    assert!(chunk.is_valid());
}

#[test]
pub fn test_invalid_chunk_is_valid() {
    let chunk = ChunkType::from_str("Rust").unwrap();
    assert!(!chunk.is_valid());

    let chunk = ChunkType::from_str("Ru1t");
    assert!(chunk.is_err());
}

#[test]
pub fn test_chunk_type_string() {
    let chunk = ChunkType::from_str("RuSt").unwrap();
    assert_eq!(&chunk.to_string(), "RuSt");
}

#[test]
pub fn test_chunk_type_trait_impls() {
    let chunk_type_1: ChunkType = ChunkType::try_from([82, 117, 83, 116]).unwrap();
    let chunk_type_2: ChunkType = ChunkType::from_str("RuSt").unwrap();
    let _chunk_string = chunk_type_1.to_string();
    let _are_chunks_equal = chunk_type_1 == chunk_type_2;
}

#[test]
pub fn test_chunk_type_invalid_error_kind() {
    assert_eq!(
        ChunkType::try_from([82, 117, 49, 116]).unwrap_err(),
        PngError::InvalidTypeBytes
    );
    assert_eq!(
        ChunkType::from_str("Ru1t").unwrap_err(),
        PngError::InvalidTypeBytes
    );
}

#[test]
pub fn test_chunk_type_wrong_length_error() {
    assert_eq!(ChunkType::from_str("RuS").unwrap_err(), PngError::WrongLength);
    assert_eq!(ChunkType::from_str("RuSty").unwrap_err(), PngError::WrongLength);
    // 4 characters, but more than 4 bytes of UTF-8.
    assert_eq!(ChunkType::from_str("Ru\u{00e9}t").unwrap_err(), PngError::WrongLength);
}

#[test]
pub fn test_chunk_type_all_alphabetic_round_trip() {
    // Every ASCII-alphabetic tag is accepted and handed back unchanged.
    let alphabet: Vec<u8> = (b'A'..=b'Z').chain(b'a'..=b'z').collect();
    for &b in &alphabet {
        let tag = [b, b'A', b'z', b];
        let t = ChunkType::try_from(tag).unwrap();
        assert_eq!(t.bytes(), tag);
    }
}

#[test]
pub fn test_chunk_type_rejects_every_nonalphabetic_byte() {
    for b in 0..=255u8 {
        let ok = b.is_ascii_alphabetic();
        let r = ChunkType::try_from([b'R', b, b'S', b't']);
        assert_eq!(r.is_ok(), ok);
    }
}

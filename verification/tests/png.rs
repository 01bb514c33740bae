use pngme::chunk::Chunk;
use pngme::chunk_type::ChunkType;
use pngme::png::{signature, Png};
use pngme::PngError;

fn chunk_of(kind: &str, data: &str) -> Chunk {
    Chunk::new(
        ChunkType::from_str(kind).unwrap(),
        data.as_bytes().to_vec(),
    )
}

fn testing_png() -> Png {
    Png::from_chunks(vec![
        chunk_of("FrSt", "I am the first chunk"),
        chunk_of("miDl", "I am another chunk"),
        chunk_of("LASt", "I am the last chunk"),
    ])
}

#[test]
fn test_from_chunks_keeps_order() {
    let png = testing_png();
    let kinds: Vec<String> = png
        .chunks()
        .iter()
        .map(|c| c.chunk_type().to_string())
        .collect();
    assert_eq!(kinds, vec!["FrSt", "miDl", "LASt"]);
}

#[test]
fn test_png_round_trip() {
    let png = testing_png();
    let bytes = png.as_bytes();
    let parsed = Png::try_from(bytes.as_ref()).unwrap();
    assert_eq!(parsed.chunks().len(), 3);
    for (a, b) in png.chunks().iter().zip(parsed.chunks().iter()) {
        assert_eq!(a.length(), b.length());
        assert_eq!(a.chunk_type().bytes(), b.chunk_type().bytes());
        assert_eq!(a.data(), b.data());
        assert_eq!(a.crc(), b.crc());
    }
}

#[test]
fn test_png_starts_with_signature() {
    let png = testing_png();
    let bytes = png.as_bytes();
    assert_eq!(&bytes[0..8], &signature());
    assert_eq!(&bytes[0..8], &[137, 80, 78, 71, 13, 10, 26, 10]);
}

#[test]
fn test_png_bad_signature() {
    let mut bytes = testing_png().as_bytes();
    bytes[0] = 0;
    assert_eq!(Png::try_from(bytes.as_ref()).unwrap_err(), PngError::BadSignature);
    let short = [137u8, 80, 78];
    assert_eq!(Png::try_from(&short[..]).unwrap_err(), PngError::BadSignature);
    let empty: [u8; 0] = [];
    assert_eq!(Png::try_from(&empty[..]).unwrap_err(), PngError::BadSignature);
}

#[test]
fn test_png_signature_alone_is_empty_container() {
    let png = Png::try_from(&signature()[..]).unwrap();
    assert_eq!(png.chunks().len(), 0);
}

#[test]
fn test_png_truncated_chunk() {
    let mut bytes = testing_png().as_bytes();
    bytes.pop();
    assert_eq!(Png::try_from(bytes.as_ref()).unwrap_err(), PngError::TooShort);
}

#[test]
fn test_png_corrupt_chunk_surfaces_error() {
    let png = testing_png();
    let mut bytes = png.as_bytes();
    // Corrupt a data byte of the second chunk.
    let first_len = 12 + png.chunks()[0].length() as usize;
    bytes[8 + first_len + 9] ^= 0x40;
    assert_eq!(
        Png::try_from(bytes.as_ref()).unwrap_err(),
        PngError::ChecksumMismatch
    );
}

#[test]
fn test_chunk_by_type_finds_payload() {
    let png = testing_png();
    let found = png.chunk_by_type("miDl").unwrap();
    assert_eq!(found.data_as_string().unwrap(), "I am another chunk");
    assert!(png.chunk_by_type("noNe").is_none());
}

#[test]
fn test_chunk_by_type_prefers_first_of_equal_tags() {
    let png = Png::from_chunks(vec![
        chunk_of("FrSt", "I am the first chunk"),
        chunk_of("dUpe", "first of the pair"),
        chunk_of("dUpe", "second of the pair"),
    ]);
    let found = png.chunk_by_type("dUpe").unwrap();
    assert_eq!(found.data_as_string().unwrap(), "first of the pair");
}

#[test]
fn test_remove_chunk_missing_leaves_container_unchanged() {
    let mut png = testing_png();
    let before = png.as_bytes();
    assert_eq!(png.remove_chunk("noNe").unwrap_err(), PngError::ChunkNotFound);
    assert_eq!(png.as_bytes(), before);
    assert_eq!(png.chunks().len(), 3);
}

#[test]
fn test_remove_chunk_shrinks_by_its_record() {
    let mut png = testing_png();
    let before = png.as_bytes().len();
    let removed = png.remove_chunk("miDl").unwrap();
    assert_eq!(removed.chunk_type().to_string(), "miDl");
    let after = png.as_bytes().len();
    assert_eq!(after + 12 + removed.length() as usize, before);
    assert!(png.chunk_by_type("miDl").is_none());
    assert_eq!(png.chunks().len(), 2);
}

#[test]
fn test_remove_chunk_takes_only_first_of_equal_tags() {
    let mut png = Png::from_chunks(vec![
        chunk_of("dUpe", "first of the pair"),
        chunk_of("dUpe", "second of the pair"),
    ]);
    let removed = png.remove_chunk("dUpe").unwrap();
    assert_eq!(removed.data_as_string().unwrap(), "first of the pair");
    assert_eq!(png.chunks().len(), 1);
    let left = png.chunk_by_type("dUpe").unwrap();
    assert_eq!(left.data_as_string().unwrap(), "second of the pair");
}

#[test]
fn test_png_listing() {
    let png = testing_png();
    assert_eq!(png.to_string(), "FrSt\nmiDl\nLASt\n");
}

#[test]
fn test_encode_then_decode_message() {
    // The round trip behind hiding a message: build a container holding one
    // custom chunk, serialize, re-parse, and read the payload back.
    let secret = "This is where your secret message will be!";
    let png = Png::from_chunks(vec![chunk_of("RuSt", secret)]);
    let bytes = png.as_bytes();
    let parsed = Png::try_from(bytes.as_ref()).unwrap();
    let found = parsed.chunk_by_type("RuSt").unwrap();
    assert_eq!(found.data_as_string().unwrap(), secret);
    assert_eq!(found.crc(), 2882656334);
}

use std::str::FromStr;

use pngme::chunk::{Chunk, ChunkError};
use pngme::chunk_type::ChunkType;
use pngme::png::{Png, PngError};

fn chunk(t: &str, data: &[u8]) -> Chunk {
    Chunk::new(ChunkType::from_str(t).unwrap(), data.to_vec())
}

fn file_of(chunks: &[Chunk]) -> Vec<u8> {
    let mut bytes = Png::STANDARD_HEADER.to_vec();
    for c in chunks {
        bytes.extend_from_slice(&c.as_bytes());
    }
    bytes
}

#[test]
fn container_scenario_find_remove_reserialize() {
    let header = chunk("IHDR", &[0, 0, 0, 1, 0, 0, 0, 1, 8, 2, 0, 0, 0]);
    let text = chunk("teXt", b"hidden words");
    let bytes = file_of(&[header.clone(), text.clone()]);

    let mut png = Png::try_from(bytes.as_slice()).unwrap();
    assert_eq!(png.chunks().len(), 2);

    let found = png.chunk_by_type("teXt").unwrap();
    assert_eq!(found.data(), b"hidden words");
    assert_eq!(found.crc(), text.crc());

    let removed = png.remove_chunk("IHDR").unwrap();
    assert_eq!(removed.as_bytes(), header.as_bytes());
    assert_eq!(png.chunks().len(), 1);

    let again = png.as_bytes();
    assert_eq!(again, file_of(&[text.clone()]));
    let reparsed = Png::try_from(again.as_slice()).unwrap();
    assert_eq!(reparsed.chunks().len(), 1);
    assert_eq!(reparsed.chunks()[0].as_bytes(), text.as_bytes());
    assert_eq!(reparsed.as_bytes(), again);
}

#[test]
fn wrong_signature_is_rejected() {
    let good = file_of(&[chunk("teXt", b"x")]);
    for i in 0..8 {
        let mut bad = good.clone();
        bad[i] ^= 0x01;
        assert_eq!(Png::try_from(bad.as_slice()).err(), Some(PngError::SignatureMismatch));
    }
    assert_eq!(Png::try_from(&[][..]).err(), Some(PngError::SignatureMismatch));
    assert_eq!(Png::try_from(&Png::STANDARD_HEADER[..7]).err(), Some(PngError::SignatureMismatch));
}

#[test]
fn signature_alone_is_an_empty_file() {
    let png = Png::try_from(&Png::STANDARD_HEADER[..]).unwrap();
    assert_eq!(png.chunks().len(), 0);
    assert_eq!(png.as_bytes(), Png::STANDARD_HEADER.to_vec());
}

#[test]
fn header_is_the_signature() {
    let png = Png::from_chunks(Vec::new());
    assert_eq!(png.header(), [137, 80, 78, 71, 13, 10, 26, 10]);
}

#[test]
fn trailing_partial_chunk_is_an_error() {
    let mut bytes = file_of(&[chunk("teXt", b"x")]);
    bytes.extend_from_slice(&[0, 0, 0]);
    assert_eq!(
        Png::try_from(bytes.as_slice()).err(),
        Some(PngError::InvalidChunk(ChunkError::IncompleteSlice))
    );
}

#[test]
fn corrupt_chunk_aborts_the_parse() {
    let mut bytes = file_of(&[chunk("IHDR", b"abc"), chunk("teXt", b"hello")]);
    let last = bytes.len() - 6;
    bytes[last] ^= 0x10;
    assert_eq!(
        Png::try_from(bytes.as_slice()).err(),
        Some(PngError::InvalidChunk(ChunkError::IncorrectCrc))
    );
}

#[test]
fn parse_then_serialize_gives_the_input() {
    let bytes = file_of(&[chunk("IHDR", b"abc"), chunk("teXt", b""), chunk("IEND", b"")]);
    let png = Png::try_from(bytes.as_slice()).unwrap();
    assert_eq!(png.chunks().len(), 3);
    assert_eq!(png.as_bytes(), bytes);
}

#[test]
fn append_goes_to_the_end_and_keeps_order() {
    let mut png = Png::from_chunks(vec![chunk("IHDR", b"a"), chunk("teXt", b"b")]);
    png.append_chunk(chunk("teXt", b"c"));
    let types: Vec<String> = png.chunks().iter().map(|c| c.chunk_type().to_string()).collect();
    assert_eq!(types, vec!["IHDR", "teXt", "teXt"]);
    assert_eq!(png.chunks()[2].data(), b"c");
}

#[test]
fn remove_and_find_take_the_first_match() {
    let mut png = Png::from_chunks(vec![
        chunk("IHDR", b"a"),
        chunk("teXt", b"first"),
        chunk("teXt", b"second"),
    ]);
    assert_eq!(png.chunk_by_type("teXt").unwrap().data(), b"first");
    let removed = png.remove_chunk("teXt").unwrap();
    assert_eq!(removed.data(), b"first");
    assert_eq!(png.chunks().len(), 2);
    assert_eq!(png.chunk_by_type("teXt").unwrap().data(), b"second");
    assert_eq!(png.chunks()[0].data(), b"a");
}

#[test]
fn missing_type_is_not_present() {
    let mut png = Png::from_chunks(vec![chunk("IHDR", b"a")]);
    assert!(png.chunk_by_type("teXt").is_none());
    assert!(png.chunk_by_type("IHD").is_none());
    assert_eq!(png.remove_chunk("teXt").err(), Some(PngError::ChunkNotPresent));
    assert_eq!(png.remove_chunk("ihdr").err(), Some(PngError::ChunkNotPresent));
    assert_eq!(png.chunks().len(), 1);
}

#[test]
fn png_error_messages() {
    assert_eq!(PngError::ChunkNotPresent.to_string(), "chunk type does not exist in file");
    assert_eq!(
        PngError::SignatureMismatch.to_string(),
        "file does not start with the PNG signature"
    );
    assert_eq!(
        PngError::InvalidChunk(ChunkError::IncompleteSlice).to_string(),
        "not enough chunk bytes"
    );
}

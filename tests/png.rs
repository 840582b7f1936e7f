use pngme::chunk::Chunk;
use pngme::chunk_type::ChunkType;
use pngme::error::FormatError;
use pngme::png::Png;

const SIGNATURE: [u8; 8] = [137, 80, 78, 71, 13, 10, 26, 10];

fn chunk(code: &str, data: &[u8]) -> Chunk {
    Chunk::new(ChunkType::from_readable_string(code).unwrap(), data.to_vec())
}

fn file_of(chunks: &[Chunk]) -> Vec<u8> {
    let mut bytes = SIGNATURE.to_vec();
    for c in chunks {
        bytes.extend_from_slice(&c.as_bytes());
    }
    bytes
}

#[test]
fn header_is_the_png_signature() {
    assert_eq!(Png::header(), SIGNATURE);
}

#[test]
fn signature_alone_is_an_empty_container() {
    let png = Png::parse(&SIGNATURE).unwrap();
    assert_eq!(png.chunks().len(), 0);
    assert_eq!(png.as_bytes(), SIGNATURE.to_vec());
}

#[test]
fn wrong_or_missing_signature_is_bad_signature() {
    assert_eq!(Png::parse(&[]).unwrap_err(), FormatError::BadSignature);
    assert_eq!(Png::parse(&SIGNATURE[..7]).unwrap_err(), FormatError::BadSignature);
    let mut bytes = SIGNATURE.to_vec();
    bytes[3] = 0;
    assert_eq!(Png::parse(&bytes).unwrap_err(), FormatError::BadSignature);
}

#[test]
fn chunk_errors_propagate_from_container_parse() {
    let mut bytes = file_of(&[chunk("ruSt", b"hello")]);
    bytes.push(0);
    assert_eq!(Png::parse(&bytes).unwrap_err(), FormatError::TooShort);

    let mut bytes = file_of(&[chunk("ruSt", b"hello")]);
    let last = bytes.len() - 1;
    bytes[last] ^= 1;
    assert_eq!(Png::parse(&bytes).unwrap_err(), FormatError::CrcMismatch);

    let mut bytes = file_of(&[chunk("ruSt", b"hello")]);
    bytes.truncate(bytes.len() - 2);
    assert_eq!(Png::parse(&bytes).unwrap_err(), FormatError::Truncated);
}

#[test]
fn container_round_trips_in_order() {
    let bytes = file_of(&[chunk("IHDR", b"head"), chunk("ruSt", b"hello"), chunk("IEND", b"")]);
    let png = Png::parse(&bytes).unwrap();
    let names: Vec<String> =
        png.chunks().iter().map(|c| c.chunk_type().try_to_string().unwrap()).collect();
    assert_eq!(names, vec!["IHDR", "ruSt", "IEND"]);
    let out = png.as_bytes();
    assert_eq!(out, bytes);
    let again = Png::parse(&out).unwrap();
    assert_eq!(again.chunks().len(), 3);
    for (a, b) in again.chunks().iter().zip(png.chunks().iter()) {
        assert!(a == b);
    }
}

#[test]
fn end_to_end_find_remove_append() {
    let bytes = file_of(&[chunk("ruSt", b"hello")]);
    let mut png = Png::parse(&bytes).unwrap();

    let found = png.find_chunk_by_type("ruSt").unwrap();
    assert!(*found == chunk("ruSt", b"hello"));
    assert_eq!(found.data(), b"hello");

    let removed = png.remove_first_chunk_by_type("ruSt").unwrap();
    assert!(removed == chunk("ruSt", b"hello"));
    assert_eq!(png.chunks().len(), 0);
    assert_eq!(png.remove_first_chunk_by_type("ruSt").unwrap_err(), FormatError::ChunkNotFound);
    assert!(png.find_chunk_by_type("ruSt").is_none());

    let mut png = Png::parse(&bytes).unwrap();
    png.append_chunk(chunk("teXt", b"second"));
    let appended = png.as_bytes();
    let reparsed = Png::parse(&appended).unwrap();
    let direct = Png::from_chunks(vec![chunk("ruSt", b"hello"), chunk("teXt", b"second")]);
    assert_eq!(reparsed.as_bytes(), direct.as_bytes());
    assert_eq!(appended, direct.as_bytes());
}

#[test]
fn find_and_remove_take_the_first_match() {
    let mut png = Png::from_chunks(vec![
        chunk("IHDR", b"h"),
        chunk("ruSt", b"one"),
        chunk("teXt", b"t"),
        chunk("ruSt", b"two"),
    ]);
    assert_eq!(png.find_chunk_by_type("ruSt").unwrap().data(), b"one");
    let removed = png.remove_first_chunk_by_type("ruSt").unwrap();
    assert_eq!(removed.data(), b"one");
    let names: Vec<String> =
        png.chunks().iter().map(|c| c.chunk_type().try_to_string().unwrap()).collect();
    assert_eq!(names, vec!["IHDR", "teXt", "ruSt"]);
    assert_eq!(png.find_chunk_by_type("ruSt").unwrap().data(), b"two");
}

#[test]
fn lookup_is_case_sensitive_and_exact() {
    let png = Png::from_chunks(vec![chunk("ruSt", b"x")]);
    assert!(png.find_chunk_by_type("RuSt").is_none());
    assert!(png.find_chunk_by_type("ruS").is_none());
    assert!(png.find_chunk_by_type("ruSt ").is_none());
    assert!(png.find_chunk_by_type("ruSt").is_some());
}

#[test]
fn appended_duplicates_are_kept() {
    let mut png = Png::from_chunks(Vec::new());
    png.append_chunk(chunk("ruSt", b"a"));
    png.append_chunk(chunk("ruSt", b"a"));
    assert_eq!(png.chunks().len(), 2);
    assert_eq!(png.as_bytes().len(), 8 + 2 * (12 + 1));
}

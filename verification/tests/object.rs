use minigit::error::Error;
use minigit::object::{
    frame_blob, hash_blob, hash_framed, read_blob, strip_git_blob_header, to_hex, write_blob,
};

#[test]
fn test_hash_blob() {
    let content = b"Hello, world!";
    let hash = hash_blob(content);
    assert_eq!(hash, "5dd01c177f5d7d1be5346a5bc18a569a7410c2ef");
}

#[test]
fn test_write_blob() {
    let content = b"Hello, world!";
    let object = write_blob(content);
    assert_eq!(&object.digest, "5dd01c177f5d7d1be5346a5bc18a569a7410c2ef");
    assert_eq!(object.data, b"blob 13\0Hello, world!".to_vec());
}

#[test]
fn test_strip_git_blob_header() {
    let blob = b"blob 10\0hello world";
    let stripped = strip_git_blob_header(blob).unwrap();
    assert_eq!(stripped, b"hello world");
}

#[test]
fn hash_is_deterministic() {
    let a = vec![1u8, 2, 3, 0, 255];
    let b = vec![1u8, 2, 3, 0, 255];
    assert_eq!(hash_blob(&a), hash_blob(&b));
    assert_eq!(write_blob(&a), write_blob(&b));
}

#[test]
fn hash_tells_contents_of_equal_length_apart() {
    assert_ne!(hash_blob(b"abc"), hash_blob(b"abd"));
    assert_ne!(hash_blob(b"hi"), hash_blob(b"ih"));
}

#[test]
fn hash_of_empty_content() {
    assert_eq!(hash_blob(b""), "e69de29bb2d1d6434b8b29ae775ad8c2e48c5391");
    assert_eq!(hash_blob(b"hi"), "32f95c0d1244a78b2be1bab8de17906fabb2c4a8");
}

#[test]
fn hash_is_forty_hex_digits() {
    let hash = hash_blob(b"some content");
    assert_eq!(hash.len(), 40);
    assert!(hash.chars().all(|c| c.is_ascii_digit() || ('a'..='f').contains(&c)));
}

#[test]
fn hash_framed_hashes_the_bytes_as_given() {
    assert_eq!(hash_framed(b"blob 2\0hi"), "32f95c0d1244a78b2be1bab8de17906fabb2c4a8");
    assert_ne!(hash_framed(b"hi"), hash_blob(b"hi"));
}

#[test]
fn frame_declares_the_length() {
    assert_eq!(frame_blob(b""), b"blob 0\0".to_vec());
    assert_eq!(frame_blob(b"hello"), b"blob 5\0hello".to_vec());
    let long = vec![b'x'; 1234];
    let framed = frame_blob(&long);
    assert_eq!(&framed[..10], b"blob 1234\0");
    assert_eq!(&framed[10..], &long[..]);
}

#[test]
fn hex_is_lower_case_two_digits_per_byte() {
    assert_eq!(to_hex(&[]), "");
    assert_eq!(to_hex(&[0x00, 0x0f, 0xa0, 0xff, 0x5d]), "000fa0ff5d");
}

#[test]
fn round_trip_gives_the_content_back() {
    let contents: Vec<Vec<u8>> = vec![
        vec![],
        b"hi".to_vec(),
        vec![0u8, 0, 0],
        b"blob 3\0abc".to_vec(),
        (0..=255u8).collect(),
    ];
    for content in contents {
        let object = write_blob(&content);
        assert_eq!(read_blob(Some(&object.data)), Ok(content.clone()));
        assert_eq!(strip_git_blob_header(&object.data), Ok(&content[..]));
    }
}

#[test]
fn strip_stops_at_the_first_nul() {
    assert_eq!(strip_git_blob_header(b"a\0b\0c"), Ok(&b"b\0c"[..]));
    assert_eq!(strip_git_blob_header(b"\0"), Ok(&b""[..]));
}

#[test]
fn bytes_without_nul_are_corrupt() {
    assert_eq!(strip_git_blob_header(b"blob 3 abc"), Err(Error::CorruptObject));
    assert_eq!(strip_git_blob_header(b""), Err(Error::CorruptObject));
    assert_eq!(read_blob(Some(b"no separator")), Err(Error::CorruptObject));
}

#[test]
fn missing_object_is_not_found() {
    assert_eq!(read_blob(None), Err(Error::NotFound));
}

#[test]
fn error_messages() {
    assert_eq!(Error::CorruptObject.message(), "Invalid blob format: missing null separator");
    assert_ne!(Error::Io.message(), Error::Serialization.message());
    assert_ne!(Error::NotFound.message(), Error::Io.message());
}

use git_annex_remote_tape::error::Error;
use git_annex_remote_tape::format::{
    decode_archive_header, decode_media_header, decode_object_header, encode_archive_header,
    encode_media_header, encode_object_header, ArchiveHeader, MediaHeader, ObjectHeader,
    ARCHIVE_HEADER_VERSION, MEDIA_HEADER_MAGIC, MEDIA_HEADER_VERSION, OBJECT_HEADER_VERSION,
};

#[test]
fn media_header_exact_bytes() {
    let h = MediaHeader {
        version: MEDIA_HEADER_VERSION,
        magic: MEDIA_HEADER_MAGIC,
        creation_time: 0x0102030405060708,
        host: b"host".to_vec(),
    };
    let b = encode_media_header(&h);
    assert_eq!(b.len(), 1 + 8 + 8 + 8 + 4);
    assert_eq!(b[0], 1);
    // magic, little endian
    assert_eq!(&b[1..9], &[0x44, 0x48, 0x54, 0x41, 0x49, 0x44, 0x45, 0x4d]);
    // creation time, little endian
    assert_eq!(&b[9..17], &[0x08, 0x07, 0x06, 0x05, 0x04, 0x03, 0x02, 0x01]);
    // host length prefix, little endian
    assert_eq!(&b[17..25], &[4, 0, 0, 0, 0, 0, 0, 0]);
    assert_eq!(&b[25..], b"host");
}

#[test]
fn media_header_round_trip() {
    let h = MediaHeader {
        version: MEDIA_HEADER_VERSION,
        magic: MEDIA_HEADER_MAGIC,
        creation_time: 1234567,
        host: b"backup-host".to_vec(),
    };
    let b = encode_media_header(&h);
    let back = decode_media_header(b.as_slice()).unwrap();
    assert_eq!(back.version, h.version);
    assert_eq!(back.magic, h.magic);
    assert_eq!(back.creation_time, h.creation_time);
    assert_eq!(back.host, h.host);
}

#[test]
fn media_header_version_gate() {
    let h = MediaHeader {
        version: MEDIA_HEADER_VERSION + 1,
        magic: MEDIA_HEADER_MAGIC,
        creation_time: 0,
        host: Vec::new(),
    };
    let b = encode_media_header(&h);
    assert_eq!(decode_media_header(b.as_slice()), Err(Error::UnsupportedVersion));
}

#[test]
fn media_header_bad_magic_is_malformed() {
    let h = MediaHeader {
        version: MEDIA_HEADER_VERSION,
        magic: MEDIA_HEADER_MAGIC ^ 1,
        creation_time: 0,
        host: Vec::new(),
    };
    let b = encode_media_header(&h);
    assert_eq!(decode_media_header(b.as_slice()), Err(Error::MalformedHeader));
}

#[test]
fn media_header_truncated_is_malformed() {
    assert_eq!(decode_media_header(&[]), Err(Error::MalformedHeader));
    assert_eq!(decode_media_header(&[MEDIA_HEADER_VERSION, 0, 0]), Err(Error::MalformedHeader));
}

#[test]
fn archive_header_round_trip() {
    let h = ArchiveHeader {
        version: ARCHIVE_HEADER_VERSION,
        creation_time: 99,
        host: b"h".to_vec(),
    };
    let b = encode_archive_header(&h);
    assert_eq!(b.len(), 1 + 8 + 8 + 1);
    let back = decode_archive_header(b.as_slice()).unwrap();
    assert_eq!(back.creation_time, 99);
    assert_eq!(back.host, b"h".to_vec());
}

#[test]
fn archive_header_version_gate() {
    let h = ArchiveHeader { version: 7, creation_time: 0, host: Vec::new() };
    let b = encode_archive_header(&h);
    assert_eq!(decode_archive_header(b.as_slice()), Err(Error::UnsupportedVersion));
}

#[test]
fn object_header_round_trip() {
    let h = ObjectHeader {
        version: OBJECT_HEADER_VERSION,
        object_length: 5,
        key: b"SHA256--abc".to_vec(),
    };
    let b = encode_object_header(&h);
    let back = decode_object_header(b.as_slice()).unwrap();
    assert_eq!(back.object_length, 5);
    assert_eq!(back.key, b"SHA256--abc".to_vec());
}

#[test]
fn object_header_version_gate() {
    let h = ObjectHeader { version: 2, object_length: 5, key: b"k".to_vec() };
    let b = encode_object_header(&h);
    assert_eq!(decode_object_header(b.as_slice()), Err(Error::UnsupportedVersion));
}

#[test]
fn object_header_length_mismatch_is_malformed() {
    let h = ObjectHeader { version: OBJECT_HEADER_VERSION, object_length: 0, key: b"k".to_vec() };
    let mut b = encode_object_header(&h);
    b.push(0); // one byte too many after the key
    assert_eq!(decode_object_header(b.as_slice()), Err(Error::MalformedHeader));
}

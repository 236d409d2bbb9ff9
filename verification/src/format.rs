use vstd::prelude::*;

use vstd::bytes::{
    lemma_auto_spec_u64_to_from_le_bytes, spec_u64_from_le_bytes, spec_u64_to_le_bytes,
    u64_from_le_bytes, u64_to_le_bytes,
};

use crate::error::Error;

verus! {

/// Constant written into every media header; a scan recognizes a cartridge
/// of this format by it.
pub const MEDIA_HEADER_MAGIC: u64 = 0x4d45444941544844;

/// Highest media header version this reader understands.
pub const MEDIA_HEADER_VERSION: u8 = 1;

/// Highest archive header version this reader understands.
pub const ARCHIVE_HEADER_VERSION: u8 = 1;

/// Highest object header version this reader understands.
pub const OBJECT_HEADER_VERSION: u8 = 1;

/// First record of an initialized cartridge: format version, magic,
/// creation time (epoch seconds) and the writing host's name.
#[derive(Clone, Debug, PartialEq, Eq)]
pub struct MediaHeader {
    pub version: u8,
    pub magic: u64,
    pub creation_time: u64,
    pub host: Vec<u8>,
}

/// Mathematical image of a media header.
pub struct MediaHeaderV {
    pub version: u8,
    pub magic: u64,
    pub creation_time: u64,
    pub host: Seq<u8>,
}

impl View for MediaHeader {
    type V = MediaHeaderV;

    open spec fn view(&self) -> MediaHeaderV {
        MediaHeaderV {
            version: self.version,
            magic: self.magic,
            creation_time: self.creation_time,
            host: self.host@,
        }
    }
}

/// First record of an archive: format version, creation time and the
/// writing host's name.
#[derive(Clone, Debug, PartialEq, Eq)]
pub struct ArchiveHeader {
    pub version: u8,
    pub creation_time: u64,
    pub host: Vec<u8>,
}

/// Mathematical image of an archive header.
pub struct ArchiveHeaderV {
    pub version: u8,
    pub creation_time: u64,
    pub host: Seq<u8>,
}

impl View for ArchiveHeader {
    type V = ArchiveHeaderV;

    open spec fn view(&self) -> ArchiveHeaderV {
        ArchiveHeaderV {
            version: self.version,
            creation_time: self.creation_time,
            host: self.host@,
        }
    }
}

/// Record preceding an object's payload: format version, payload length
/// in bytes, and the caller-supplied key. The length field lets a scan
/// skip the payload without reading it.
#[derive(Clone, Debug, PartialEq, Eq)]
pub struct ObjectHeader {
    pub version: u8,
    pub object_length: u64,
    pub key: Vec<u8>,
}

/// Mathematical image of an object header.
pub struct ObjectHeaderV {
    pub version: u8,
    pub object_length: u64,
    pub key: Seq<u8>,
}

impl View for ObjectHeader {
    type V = ObjectHeaderV;

    open spec fn view(&self) -> ObjectHeaderV {
        ObjectHeaderV {
            version: self.version,
            object_length: self.object_length,
            key: self.key@,
        }
    }
}

/// A variable-length field on tape: eight length bytes (little endian),
/// then the bytes themselves.
pub open spec fn len_prefixed(b: Seq<u8>) -> Seq<u8> {
    spec_u64_to_le_bytes(b.len() as u64) + b
}

/// Byte encoding of a media header.
pub open spec fn media_header_bytes(h: MediaHeaderV) -> Seq<u8> {
    seq![h.version] + spec_u64_to_le_bytes(h.magic) + spec_u64_to_le_bytes(h.creation_time)
        + len_prefixed(h.host)
}

/// Byte encoding of an archive header.
pub open spec fn archive_header_bytes(h: ArchiveHeaderV) -> Seq<u8> {
    seq![h.version] + spec_u64_to_le_bytes(h.creation_time) + len_prefixed(h.host)
}

/// Byte encoding of an object header.
pub open spec fn object_header_bytes(h: ObjectHeaderV) -> Seq<u8> {
    seq![h.version] + spec_u64_to_le_bytes(h.object_length) + len_prefixed(h.key)
}

/// Structural parse of a media header: field extraction and length check,
/// with no judgment on version or magic.
pub open spec fn parse_media_header(b: Seq<u8>) -> Option<MediaHeaderV> {
    if b.len() < 25 {
        None
    } else if b.len() - 25 == spec_u64_from_le_bytes(b.subrange(17, 25)) {
        Some(
            MediaHeaderV {
                version: b[0],
                magic: spec_u64_from_le_bytes(b.subrange(1, 9)),
                creation_time: spec_u64_from_le_bytes(b.subrange(9, 17)),
                host: b.skip(25),
            },
        )
    } else {
        None
    }
}

/// Structural parse of an archive header.
pub open spec fn parse_archive_header(b: Seq<u8>) -> Option<ArchiveHeaderV> {
    if b.len() < 17 {
        None
    } else if b.len() - 17 == spec_u64_from_le_bytes(b.subrange(9, 17)) {
        Some(
            ArchiveHeaderV {
                version: b[0],
                creation_time: spec_u64_from_le_bytes(b.subrange(1, 9)),
                host: b.skip(17),
            },
        )
    } else {
        None
    }
}

/// Structural parse of an object header.
pub open spec fn parse_object_header(b: Seq<u8>) -> Option<ObjectHeaderV> {
    if b.len() < 17 {
        None
    } else if b.len() - 17 == spec_u64_from_le_bytes(b.subrange(9, 17)) {
        Some(
            ObjectHeaderV {
                version: b[0],
                object_length: spec_u64_from_le_bytes(b.subrange(1, 9)),
                key: b.skip(17),
            },
        )
    } else {
        None
    }
}

/// A media header a reader of this version accepts.
pub open spec fn media_header_ok(b: Seq<u8>) -> bool {
    match parse_media_header(b) {
        Some(h) => h.version == MEDIA_HEADER_VERSION && h.magic == MEDIA_HEADER_MAGIC,
        None => false,
    }
}

/// An archive header a reader of this version accepts.
pub open spec fn archive_header_ok(b: Seq<u8>) -> bool {
    match parse_archive_header(b) {
        Some(h) => h.version == ARCHIVE_HEADER_VERSION,
        None => false,
    }
}

/// An object header a reader of this version accepts.
pub open spec fn object_header_ok(b: Seq<u8>) -> bool {
    match parse_object_header(b) {
        Some(h) => h.version == OBJECT_HEADER_VERSION,
        None => false,
    }
}

/// Law: parsing inverts encoding. Every media header whose host name fits
/// the length field comes back unchanged from its own bytes.
pub proof fn lemma_media_header_round_trip(h: MediaHeaderV)
    requires
        h.host.len() <= u64::MAX,
    ensures
        parse_media_header(media_header_bytes(h)) == Some(h),
{
    lemma_auto_spec_u64_to_from_le_bytes();
    let b = media_header_bytes(h);
    assert(b.subrange(1, 9) =~= spec_u64_to_le_bytes(h.magic));
    assert(b.subrange(9, 17) =~= spec_u64_to_le_bytes(h.creation_time));
    assert(b.subrange(17, 25) =~= spec_u64_to_le_bytes(h.host.len() as u64));
    assert(b.skip(25) =~= h.host);
}

/// Law: encoding inverts parsing. Bytes that parse as a media header are
/// exactly that header's encoding.
pub proof fn lemma_media_header_parse_exact(b: Seq<u8>, h: MediaHeaderV)
    requires
        parse_media_header(b) == Some(h),
    ensures
        media_header_bytes(h) == b,
        h.host.len() <= u64::MAX,
{
    lemma_auto_spec_u64_to_from_le_bytes();
    assert(spec_u64_to_le_bytes(h.magic) == b.subrange(1, 9));
    assert(spec_u64_to_le_bytes(h.creation_time) == b.subrange(9, 17));
    assert(spec_u64_to_le_bytes(h.host.len() as u64) =~= b.subrange(17, 25));
    assert(media_header_bytes(h) =~= b);
}

/// Law: parsing inverts encoding, for archive headers.
pub proof fn lemma_archive_header_round_trip(h: ArchiveHeaderV)
    requires
        h.host.len() <= u64::MAX,
    ensures
        parse_archive_header(archive_header_bytes(h)) == Some(h),
{
    lemma_auto_spec_u64_to_from_le_bytes();
    let b = archive_header_bytes(h);
    assert(b.subrange(1, 9) =~= spec_u64_to_le_bytes(h.creation_time));
    assert(b.subrange(9, 17) =~= spec_u64_to_le_bytes(h.host.len() as u64));
    assert(b.skip(17) =~= h.host);
}

/// Law: encoding inverts parsing, for archive headers.
pub proof fn lemma_archive_header_parse_exact(b: Seq<u8>, h: ArchiveHeaderV)
    requires
        parse_archive_header(b) == Some(h),
    ensures
        archive_header_bytes(h) == b,
        h.host.len() <= u64::MAX,
{
    lemma_auto_spec_u64_to_from_le_bytes();
    assert(spec_u64_to_le_bytes(h.creation_time) == b.subrange(1, 9));
    assert(spec_u64_to_le_bytes(h.host.len() as u64) =~= b.subrange(9, 17));
    assert(archive_header_bytes(h) =~= b);
}

/// Law: parsing inverts encoding, for object headers.
pub proof fn lemma_object_header_round_trip(h: ObjectHeaderV)
    requires
        h.key.len() <= u64::MAX,
    ensures
        parse_object_header(object_header_bytes(h)) == Some(h),
{
    lemma_auto_spec_u64_to_from_le_bytes();
    let b = object_header_bytes(h);
    assert(b.subrange(1, 9) =~= spec_u64_to_le_bytes(h.object_length));
    assert(b.subrange(9, 17) =~= spec_u64_to_le_bytes(h.key.len() as u64));
    assert(b.skip(17) =~= h.key);
}

/// Law: encoding inverts parsing, for object headers.
pub proof fn lemma_object_header_parse_exact(b: Seq<u8>, h: ObjectHeaderV)
    requires
        parse_object_header(b) == Some(h),
    ensures
        object_header_bytes(h) == b,
        h.key.len() <= u64::MAX,
{
    lemma_auto_spec_u64_to_from_le_bytes();
    assert(spec_u64_to_le_bytes(h.object_length) == b.subrange(1, 9));
    assert(spec_u64_to_le_bytes(h.key.len() as u64) =~= b.subrange(9, 17));
    assert(object_header_bytes(h) =~= b);
}

/// Eight little-endian bytes of `b` starting at `off`, as an integer.
fn read_u64_at(b: &[u8], off: usize) -> (x: u64)
    requires
        off + 8 <= b@.len(),
    ensures
        x == spec_u64_from_le_bytes(b@.subrange(off as int, off as int + 8)),
{
    let n = b.len();
    proof {
        assert(off + 8 <= n);
    }
    let s = vstd::slice::slice_subrange(b, off, off + 8);
    u64_from_le_bytes(s)
}

/// Serialize a media header for its tape block.
pub fn encode_media_header(h: &MediaHeader) -> (r: Vec<u8>)
    ensures
        r@ == media_header_bytes(h@),
{
    let mut out: Vec<u8> = Vec::new();
    out.push(h.version);
    let mut part = u64_to_le_bytes(h.magic);
    out.append(&mut part);
    let mut part = u64_to_le_bytes(h.creation_time);
    out.append(&mut part);
    let mut part = u64_to_le_bytes(h.host.len() as u64);
    out.append(&mut part);
    out.extend_from_slice(h.host.as_slice());
    proof {
        assert(out@ =~= media_header_bytes(h@));
    }
    out
}

/// Serialize an archive header for its tape block.
pub fn encode_archive_header(h: &ArchiveHeader) -> (r: Vec<u8>)
    ensures
        r@ == archive_header_bytes(h@),
{
    let mut out: Vec<u8> = Vec::new();
    out.push(h.version);
    let mut part = u64_to_le_bytes(h.creation_time);
    out.append(&mut part);
    let mut part = u64_to_le_bytes(h.host.len() as u64);
    out.append(&mut part);
    out.extend_from_slice(h.host.as_slice());
    proof {
        assert(out@ =~= archive_header_bytes(h@));
    }
    out
}

/// Serialize an object header for its tape block.
pub fn encode_object_header(h: &ObjectHeader) -> (r: Vec<u8>)
    ensures
        r@ == object_header_bytes(h@),
{
    let mut out: Vec<u8> = Vec::new();
    out.push(h.version);
    let mut part = u64_to_le_bytes(h.object_length);
    out.append(&mut part);
    let mut part = u64_to_le_bytes(h.key.len() as u64);
    out.append(&mut part);
    out.extend_from_slice(h.key.as_slice());
    proof {
        assert(out@ =~= object_header_bytes(h@));
    }
    out
}

/// Read back a media header block. A version this reader does not
/// understand is rejected before anything after the version byte is
/// trusted; any other shape fault is a malformed header.
pub fn decode_media_header(b: &[u8]) -> (r: Result<MediaHeader, Error>)
    ensures
        r is Ok <==> media_header_ok(b@),
        r matches Ok(h) ==> parse_media_header(b@) == Some(h@),
        r matches Err(e) ==> {
            &&& (e == Error::UnsupportedVersion || e == Error::MalformedHeader)
            &&& (e == Error::UnsupportedVersion <==> b@.len() >= 1 && b@[0]
                != MEDIA_HEADER_VERSION)
        },
{
    if b.len() < 1 {
        return Err(Error::MalformedHeader);
    }
    let version = b[0];
    if version != MEDIA_HEADER_VERSION {
        return Err(Error::UnsupportedVersion);
    }
    if b.len() < 25 {
        return Err(Error::MalformedHeader);
    }
    let magic = read_u64_at(b, 1);
    let creation_time = read_u64_at(b, 9);
    let host_len = read_u64_at(b, 17);
    if magic != MEDIA_HEADER_MAGIC {
        return Err(Error::MalformedHeader);
    }
    if (b.len() - 25) as u64 != host_len {
        return Err(Error::MalformedHeader);
    }
    let host_slice = vstd::slice::slice_subrange(b, 25, b.len());
    let host = vstd::slice::slice_to_vec(host_slice);
    let h = MediaHeader { version, magic, creation_time, host };
    proof {
        assert(h@.host =~= b@.skip(25));
        assert(parse_media_header(b@) == Some(h@));
    }
    Ok(h)
}

/// Read back an archive header block, with the same version gate.
pub fn decode_archive_header(b: &[u8]) -> (r: Result<ArchiveHeader, Error>)
    ensures
        r is Ok <==> archive_header_ok(b@),
        r matches Ok(h) ==> parse_archive_header(b@) == Some(h@),
        r matches Err(e) ==> {
            &&& (e == Error::UnsupportedVersion || e == Error::MalformedHeader)
            &&& (e == Error::UnsupportedVersion <==> b@.len() >= 1 && b@[0]
                != ARCHIVE_HEADER_VERSION)
        },
{
    if b.len() < 1 {
        return Err(Error::MalformedHeader);
    }
    let version = b[0];
    if version != ARCHIVE_HEADER_VERSION {
        return Err(Error::UnsupportedVersion);
    }
    if b.len() < 17 {
        return Err(Error::MalformedHeader);
    }
    let creation_time = read_u64_at(b, 1);
    let host_len = read_u64_at(b, 9);
    if (b.len() - 17) as u64 != host_len {
        return Err(Error::MalformedHeader);
    }
    let host_slice = vstd::slice::slice_subrange(b, 17, b.len());
    let host = vstd::slice::slice_to_vec(host_slice);
    let h = ArchiveHeader { version, creation_time, host };
    proof {
        assert(h@.host =~= b@.skip(17));
        assert(parse_archive_header(b@) == Some(h@));
    }
    Ok(h)
}

/// Read back an object header block, with the same version gate. An
/// unknown version fails before the length field is trusted: nothing of
/// an understood layout lies past the version byte.
pub fn decode_object_header(b: &[u8]) -> (r: Result<ObjectHeader, Error>)
    ensures
        r is Ok <==> object_header_ok(b@),
        r matches Ok(h) ==> parse_object_header(b@) == Some(h@),
        r matches Err(e) ==> {
            &&& (e == Error::UnsupportedVersion || e == Error::MalformedHeader)
            &&& (e == Error::UnsupportedVersion <==> b@.len() >= 1 && b@[0]
                != OBJECT_HEADER_VERSION)
        },
{
    if b.len() < 1 {
        return Err(Error::MalformedHeader);
    }
    let version = b[0];
    if version != OBJECT_HEADER_VERSION {
        return Err(Error::UnsupportedVersion);
    }
    if b.len() < 17 {
        return Err(Error::MalformedHeader);
    }
    let object_length = read_u64_at(b, 1);
    let key_len = read_u64_at(b, 9);
    if (b.len() - 17) as u64 != key_len {
        return Err(Error::MalformedHeader);
    }
    let key_slice = vstd::slice::slice_subrange(b, 17, b.len());
    let key = vstd::slice::slice_to_vec(key_slice);
    let h = ObjectHeader { version, object_length, key };
    proof {
        assert(h@.key =~= b@.skip(17));
        assert(parse_object_header(b@) == Some(h@));
    }
    Ok(h)
}

} // verus!

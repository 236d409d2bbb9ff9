use vstd::prelude::*;

use crate::device::{BlockV, ReadOutcome, Status, TapeDevice, TapeV};
use crate::error::Error;
use crate::format::{
    archive_header_bytes, decode_archive_header, decode_media_header, decode_object_header,
    encode_archive_header, encode_media_header, encode_object_header, media_header_bytes,
    media_header_ok, parse_archive_header, parse_media_header, parse_object_header, ArchiveHeader,
    ArchiveHeaderV, MediaHeader, MediaHeaderV, ObjectHeader, ARCHIVE_HEADER_VERSION,
    MEDIA_HEADER_MAGIC, MEDIA_HEADER_VERSION, OBJECT_HEADER_VERSION,
};
use crate::layout::{
    all_data, block_data, chunk_count, concat_data, find_from, find_in_archives, find_in_objs,
    lemma_chunk_count_exec, lemma_chunks_split, lemma_concat_snoc, lemma_find_parsed,
    object_blocks, parse_archive_at, parse_archives, parse_media, parse_object_at,
    parse_objects, payload_chunks, ArchiveV, FindResult, ObjectV, BLOCK_SIZE,
};
use crate::util::bytes_eq;

verus! {

/// One stored object read back from tape: its key and payload.
#[derive(Clone, Debug, PartialEq, Eq)]
pub struct Object {
    pub key: Vec<u8>,
    pub payload: Vec<u8>,
}

impl View for Object {
    type V = ObjectV;

    open spec fn view(&self) -> ObjectV {
        ObjectV { key: self.key@, payload: self.payload@ }
    }
}

/// One tape drive: exclusive owner of its device. Every operation that
/// moves or writes the tape takes the drive exclusively (`&mut`), so two
/// logical operations can never interleave device operations.
pub struct Drive {
    dev: TapeDevice,
}

impl View for Drive {
    type V = TapeV;

    closed spec fn view(&self) -> TapeV {
        self.dev@
    }
}

impl Drive {
    /// The head never passes end-of-data.
    pub open spec fn wf(&self) -> bool {
        0 <= self@.pos <= self@.blocks.len()
    }

    /// Take exclusive ownership of a device.
    pub fn new(dev: TapeDevice) -> (d: Drive)
        requires
            dev.wf(),
        ensures
            d.wf(),
            d@ == dev@,
    {
        Drive { dev }
    }

    /// Query the device status: flags and head position.
    pub fn get_status(&self) -> (s: Status)
        requires
            self.wf(),
        ensures
            s.online,
            s.write_protect == self@.write_protect,
            s.bot == (self@.pos == 0),
            s.eod == (self@.pos == self@.blocks.len()),
            s.file_number == crate::device::count_marks(self@.blocks.take(self@.pos)),
            s.block_number == self@.pos,
    {
        self.dev.get_status()
    }

    /// Mount the cartridge: rewind to true beginning of medium, read and
    /// check the media header, and hand out the one scan anchor. This is
    /// the only way to obtain a `Media`, so every scan starts at the
    /// beginning.
    pub fn load_media(&mut self) -> (r: Result<Media, Error>)
        requires
            old(self).wf(),
        ensures
            final(self).wf(),
            final(self)@.blocks == old(self)@.blocks,
            final(self)@.write_protect == old(self)@.write_protect,
            match r {
                Ok(m) => {
                    &&& old(self)@.blocks.len() >= 1
                    &&& old(self)@.blocks[0] is Data
                    &&& parse_media_header(block_data(old(self)@.blocks[0])) == Some(m.header@)
                    &&& m.header@.version == MEDIA_HEADER_VERSION
                    &&& m.header@.magic == MEDIA_HEADER_MAGIC
                    &&& final(self)@.pos == 1
                },
                Err(e) => {
                    &&& !(old(self)@.blocks.len() >= 1 && old(self)@.blocks[0] is Data
                        && media_header_ok(block_data(old(self)@.blocks[0])))
                    &&& final(self)@.pos <= 1
                    &&& (e == Error::UnsupportedVersion || e == Error::MalformedHeader)
                },
            },
    {
        self.dev.rewind();
        match self.dev.read_block() {
            ReadOutcome::End => Err(Error::MalformedHeader),
            ReadOutcome::Mark => Err(Error::MalformedHeader),
            ReadOutcome::Data(bytes) => {
                match decode_media_header(bytes.as_slice()) {
                    Ok(h) => Ok(Media { header: h }),
                    Err(e) => Err(e),
                }
            },
        }
    }

    /// Write a fresh media header onto blank or erased media. Fails
    /// `AlreadyInitialized` if anything is recorded, so existing data is
    /// never destroyed.
    pub fn init_media(&mut self, creation_time: u64, host: &[u8]) -> (r: Result<(), Error>)
        requires
            old(self).wf(),
        ensures
            final(self).wf(),
            final(self)@.write_protect == old(self)@.write_protect,
            old(self)@.blocks.len() > 0 ==> r == Err::<(), Error>(Error::AlreadyInitialized)
                && final(self)@.blocks == old(self)@.blocks && final(self)@.pos == 0,
            old(self)@.blocks.len() == 0 && old(self)@.write_protect ==> r == Err::<(), Error>(
                Error::DeviceFault(crate::device::EROFS),
            ) && final(self)@.blocks == old(self)@.blocks && final(self)@.pos == 0,
            old(self)@.blocks.len() == 0 && !old(self)@.write_protect ==> r is Ok && final(self)@.blocks == seq![
                BlockV::Data(
                    media_header_bytes(
                        MediaHeaderV {
                            version: MEDIA_HEADER_VERSION,
                            magic: MEDIA_HEADER_MAGIC,
                            creation_time,
                            host: host@,
                        },
                    ),
                ),
            ] && final(self)@.pos == 1,
    {
        self.dev.rewind();
        let st = self.dev.get_status();
        if !st.eod {
            return Err(Error::AlreadyInitialized);
        }
        let h = MediaHeader {
            version: MEDIA_HEADER_VERSION,
            magic: MEDIA_HEADER_MAGIC,
            creation_time,
            host: vstd::slice::slice_to_vec(host),
        };
        let bytes = encode_media_header(&h);
        match self.dev.write_block(bytes.as_slice()) {
            Ok(u) => {
                proof {
                    assert(self@.blocks =~= seq![BlockV::Data(media_header_bytes(h@))]);
                    assert(h@ == (MediaHeaderV {
                        version: MEDIA_HEADER_VERSION,
                        magic: MEDIA_HEADER_MAGIC,
                        creation_time,
                        host: host@,
                    }));
                }
                Ok(u)
            },
            Err(e) => Err(e),
        }
    }

    /// Give the device back, with everything recorded on it.
    pub fn into_device(self) -> (d: TapeDevice)
        ensures
            d@ == self@,
    {
        self.dev
    }

    /// Erase the cartridge, fully or quickly. A secure erase cannot be
    /// aborted once started.
    pub fn erase_media(&mut self, secure: bool) -> (r: Result<(), Error>)
        requires
            old(self).wf(),
        ensures
            final(self).wf(),
            final(self)@.write_protect == old(self)@.write_protect,
            old(self)@.write_protect ==> r == Err::<(), Error>(
                Error::DeviceFault(crate::device::EROFS),
            ) && final(self)@ == old(self)@,
            !old(self)@.write_protect ==> r is Ok && final(self)@.blocks.len() == 0 && final(self)@.pos == 0,
    {
        self.dev.erase(secure)
    }
}

/// The logical view of the mounted cartridge: holds its media header and
/// anchors the forward-only scan over archives. The scan state is the
/// drive's head position itself, so it is independently inspectable.
pub struct Media {
    pub header: MediaHeader,
}

/// One write session or scan cursor over a run of objects, bounded by
/// the archive's header block and its terminating filemark.
pub struct Archive {
    pub header: ArchiveHeader,
    writable: bool,
}

impl Media {
    /// Step the forward-only archive sequence: read the block at the
    /// head. A filemark here (the second in a row) or end-of-data ends
    /// the sequence; it never returns to an earlier archive.
    pub fn next_archive(&self, drive: &mut Drive) -> (r: Result<Option<Archive>, Error>)
        requires
            old(drive).wf(),
        ensures
            final(drive).wf(),
            final(drive)@.blocks == old(drive)@.blocks,
            final(drive)@.write_protect == old(drive)@.write_protect,
            final(drive)@.pos >= old(drive)@.pos,
            match r {
                Ok(Some(a)) => {
                    &&& old(drive)@.pos < old(drive)@.blocks.len()
                    &&& old(drive)@.blocks[old(drive)@.pos] is Data
                    &&& parse_archive_header(block_data(old(drive)@.blocks[old(drive)@.pos]))
                        == Some(a.spec_header())
                    &&& a.spec_header().version == ARCHIVE_HEADER_VERSION
                    &&& !a.spec_writable()
                    &&& final(drive)@.pos == old(drive)@.pos + 1
                },
                Ok(None) => (old(drive)@.pos == old(drive)@.blocks.len() && final(drive)@.pos
                    == old(drive)@.pos) || (old(drive)@.pos < old(drive)@.blocks.len() && old(drive)@.blocks[old(drive)@.pos] is Mark && final(drive)@.pos == old(drive)@.pos + 1),
                Err(e) => {
                    &&& old(drive)@.pos < old(drive)@.blocks.len()
                    &&& old(drive)@.blocks[old(drive)@.pos] is Data
                    &&& !crate::format::archive_header_ok(
                        block_data(old(drive)@.blocks[old(drive)@.pos]),
                    )
                    &&& final(drive)@.pos == old(drive)@.pos + 1
                    &&& (e == Error::UnsupportedVersion || e == Error::MalformedHeader)
                    &&& (e == Error::UnsupportedVersion <==> block_data(
                        old(drive)@.blocks[old(drive)@.pos],
                    ).len() >= 1 && block_data(old(drive)@.blocks[old(drive)@.pos])[0]
                        != ARCHIVE_HEADER_VERSION)
                },
            },
    {
        match drive.dev.read_block() {
            ReadOutcome::End => Ok(None),
            ReadOutcome::Mark => Ok(None),
            ReadOutcome::Data(bytes) => {
                match decode_archive_header(bytes.as_slice()) {
                    Ok(h) => Ok(Some(Archive { header: h, writable: false })),
                    Err(e) => Err(e),
                }
            },
        }
    }

    /// Hop over the rest of the current archive to the start of the next
    /// one, by spacing forward past the next filemark. Works whatever the
    /// archive holds — object framing plays no part — so one rejected
    /// object never blocks locating the next archive.
    pub fn skip_archive(&self, drive: &mut Drive) -> (r: Result<(), Error>)
        requires
            old(drive).wf(),
        ensures
            final(drive).wf(),
            final(drive)@.blocks == old(drive)@.blocks,
            final(drive)@.write_protect == old(drive)@.write_protect,
            final(drive)@.pos >= old(drive)@.pos,
            match crate::device::mark_index_from(old(drive)@.blocks, old(drive)@.pos) {
                Some(m) => r is Ok && final(drive)@.pos == m + 1,
                None => r == Err::<(), Error>(Error::DeviceFault(crate::device::EIO)) && final(drive)@.pos == old(drive)@.blocks.len(),
            },
    {
        let r = drive.dev.fsf(1);
        proof {
            let b = old(drive)@.blocks;
            let p = old(drive)@.pos;
            crate::device::lemma_mark_index_from_bounds(b, p);
            match crate::device::mark_index_from(b, p) {
                Some(m) => {
                    assert(crate::device::fsf_target(b, m + 1, 0nat) == Some(m + 1));
                    assert(crate::device::fsf_target(b, p, 1nat) == Some(m + 1));
                },
                None => {
                    assert(crate::device::fsf_target(b, p, 1nat) is None);
                },
            }
        }
        r
    }

    /// Open a new archive at end-of-data. Anywhere else the call fails
    /// `NotAtEndOfData`: a tape write destroys everything after the head,
    /// and only the position after the last filemark holds nothing.
    pub fn append_archive(&self, drive: &mut Drive, creation_time: u64, host: &[u8]) -> (r: Result<
        Archive,
        Error,
    >)
        requires
            old(drive).wf(),
        ensures
            final(drive).wf(),
            final(drive)@.write_protect == old(drive)@.write_protect,
            old(drive)@.pos != old(drive)@.blocks.len() ==> r == Err::<Archive, Error>(
                Error::NotAtEndOfData,
            ) && final(drive)@ == old(drive)@,
            old(drive)@.pos == old(drive)@.blocks.len() && old(drive)@.write_protect ==> r
                == Err::<Archive, Error>(Error::DeviceFault(crate::device::EROFS)) && final(drive)@ == old(drive)@,
            old(drive)@.pos == old(drive)@.blocks.len() && !old(drive)@.write_protect ==> {
                &&& r matches Ok(a)
                &&& a.spec_header() == (ArchiveHeaderV {
                    version: ARCHIVE_HEADER_VERSION,
                    creation_time,
                    host: host@,
                })
                &&& a.spec_writable()
                &&& final(drive)@.blocks == old(drive)@.blocks + seq![
                    BlockV::Data(archive_header_bytes(a.spec_header())),
                ]
                &&& final(drive)@.pos == old(drive)@.blocks.len() + 1
            },
    {
        let st = drive.dev.get_status();
        if !st.eod {
            return Err(Error::NotAtEndOfData);
        }
        let h = ArchiveHeader {
            version: ARCHIVE_HEADER_VERSION,
            creation_time,
            host: vstd::slice::slice_to_vec(host),
        };
        let bytes = encode_archive_header(&h);
        match drive.dev.write_block(bytes.as_slice()) {
            Ok(_) => {
                proof {
                    assert(drive@.blocks =~= old(drive)@.blocks + seq![
                        BlockV::Data(archive_header_bytes(h@)),
                    ]);
                }
                Ok(Archive { header: h, writable: true })
            },
            Err(e) => Err(e),
        }
    }
}

/// Lay a payload down as data blocks at end-of-data, in chunks of at
/// most `BLOCK_SIZE` bytes.
fn write_payload(drive: &mut Drive, payload: &[u8]) -> (r: Result<(), Error>)
    requires
        old(drive).wf(),
        old(drive)@.pos == old(drive)@.blocks.len(),
    ensures
        final(drive).wf(),
        final(drive)@.write_protect == old(drive)@.write_protect,
        !old(drive)@.write_protect ==> r is Ok && final(drive)@.blocks == old(drive)@.blocks
            + payload_chunks(payload@) && final(drive)@.pos == final(drive)@.blocks.len(),
        old(drive)@.write_protect && payload@.len() == 0 ==> r is Ok && final(drive)@ == old(drive)@,
        old(drive)@.write_protect && payload@.len() > 0 ==> r == Err::<(), Error>(
            Error::DeviceFault(crate::device::EROFS),
        ) && final(drive)@ == old(drive)@,
{
    let n = payload.len();
    let mut off: usize = 0;
    proof {
        assert(payload@.take(0) =~= Seq::<u8>::empty());
        assert(old(drive)@.blocks + payload_chunks(payload@.take(0)) =~= old(drive)@.blocks);
    }
    #[verifier::loop_isolation(false)]
    while off < n
        invariant
            drive.wf(),
            off <= n,
            n == payload@.len(),
            off as int % (BLOCK_SIZE as int) == 0 || off == n,
            drive@.write_protect == old(drive)@.write_protect,
            drive@.pos == drive@.blocks.len(),
            drive@.blocks == old(drive)@.blocks + payload_chunks(payload@.take(off as int)),
            !old(drive)@.write_protect || off == 0,
        decreases n - off,
    {
        let end = if n - off > BLOCK_SIZE {
            off + BLOCK_SIZE
        } else {
            n
        };
        let chunk = vstd::slice::slice_subrange(payload, off, end);
        match drive.dev.write_block(chunk) {
            Ok(_) => {},
            Err(e) => {
                proof {
                    assert(off == 0);
                    assert(payload_chunks(payload@.take(0)) =~= Seq::<BlockV>::empty());
                    assert(drive@.blocks =~= old(drive)@.blocks);
                }
                return Err(e);
            },
        }
        proof {
            let bs = BLOCK_SIZE as int;
            let p = payload@;
            assert(off as int % bs == 0);
            lemma_chunks_split(p.take(end as int), off as int);
            assert(p.take(end as int).take(off as int) =~= p.take(off as int));
            assert(p.take(end as int).skip(off as int) =~= chunk@);
            assert(0 < chunk@.len() <= BLOCK_SIZE);
            assert(payload_chunks(chunk@) == seq![BlockV::Data(chunk@)]);
            assert(payload_chunks(p.take(end as int)) == payload_chunks(p.take(off as int))
                + seq![BlockV::Data(chunk@)]);
            assert(drive@.blocks =~= old(drive)@.blocks + payload_chunks(p.take(end as int)));
            if end < n {
                vstd::arithmetic::div_mod::lemma_fundamental_div_mod(off as int, bs);
                vstd::arithmetic::div_mod::lemma_fundamental_div_mod_converse_mod(
                    end as int,
                    bs,
                    off as int / bs + 1,
                    0,
                );
            }
        }
        off = end;
    }
    proof {
        assert(payload@.take(n as int) =~= payload@);
    }
    Ok(())
}

impl Archive {
    /// Whether this archive is still open for appending: its terminating
    /// filemark is not yet written.
    pub closed spec fn spec_writable(&self) -> bool {
        self.writable
    }

    /// The archive's header, as read or as written.
    pub closed spec fn spec_header(&self) -> ArchiveHeaderV {
        self.header@
    }

    /// Whether this archive is still open for appending.
    pub fn writable(&self) -> (r: bool)
        ensures
            r == self.spec_writable(),
    {
        self.writable
    }

    /// A read-side cursor over an archive whose header was already read.
    pub fn new(header: ArchiveHeader) -> (a: Archive)
        ensures
            a.spec_header() == header@,
            !a.spec_writable(),
    {
        Archive { header, writable: false }
    }

    /// Append one object — header block, then payload chunks — to this
    /// open archive at end-of-data.
    pub fn write_object(&self, drive: &mut Drive, key: &[u8], payload: &[u8]) -> (r: Result<
        (),
        Error,
    >)
        requires
            old(drive).wf(),
        ensures
            final(drive).wf(),
            final(drive)@.write_protect == old(drive)@.write_protect,
            !self.spec_writable() ==> r == Err::<(), Error>(Error::ArchiveClosed) && final(drive)@ == old(drive)@,
            self.spec_writable() && old(drive)@.pos != old(drive)@.blocks.len() ==> r == Err::<
                (),
                Error,
            >(Error::NotAtEndOfData) && final(drive)@ == old(drive)@,
            self.spec_writable() && old(drive)@.pos == old(drive)@.blocks.len() && old(drive)@.write_protect ==> r == Err::<(), Error>(Error::DeviceFault(crate::device::EROFS))
                && final(drive)@ == old(drive)@,
            self.spec_writable() && old(drive)@.pos == old(drive)@.blocks.len() && !old(drive)@.write_protect ==> {
                &&& r is Ok
                &&& final(drive)@.blocks == old(drive)@.blocks + object_blocks(key@, payload@)
                &&& final(drive)@.pos == final(drive)@.blocks.len()
            },
    {
        if !self.writable {
            return Err(Error::ArchiveClosed);
        }
        let st = drive.dev.get_status();
        if !st.eod {
            return Err(Error::NotAtEndOfData);
        }
        let h = ObjectHeader {
            version: OBJECT_HEADER_VERSION,
            object_length: payload.len() as u64,
            key: vstd::slice::slice_to_vec(key),
        };
        let bytes = encode_object_header(&h);
        match drive.dev.write_block(bytes.as_slice()) {
            Ok(_) => {},
            Err(e) => {
                return Err(e);
            },
        }
        let ghost after_header = drive@.blocks;
        proof {
            assert(after_header =~= old(drive)@.blocks + seq![
                BlockV::Data(crate::format::object_header_bytes(h@)),
            ]);
        }
        match write_payload(drive, payload) {
            Ok(_) => {
                proof {
                    assert(drive@.blocks =~= old(drive)@.blocks + object_blocks(key@, payload@));
                }
                Ok(())
            },
            Err(e) => Err(e),
        }
    }

    /// Write the terminating filemark: the archive becomes immutable and
    /// the head stands at end-of-data, the append point for the next
    /// archive.
    pub fn close(&mut self, drive: &mut Drive) -> (r: Result<(), Error>)
        requires
            old(drive).wf(),
        ensures
            final(drive).wf(),
            final(drive)@.write_protect == old(drive)@.write_protect,
            final(self).spec_header() == old(self).spec_header(),
            !old(self).spec_writable() ==> r == Err::<(), Error>(Error::ArchiveClosed) && final(drive)@ == old(drive)@ && *final(self) == *old(self),
            old(self).spec_writable() && old(drive)@.pos != old(drive)@.blocks.len() ==> r
                == Err::<(), Error>(Error::NotAtEndOfData) && final(drive)@ == old(drive)@
                && *final(self) == *old(self),
            old(self).spec_writable() && old(drive)@.pos == old(drive)@.blocks.len() && old(drive)@.write_protect ==> r == Err::<(), Error>(Error::DeviceFault(crate::device::EROFS))
                && final(drive)@ == old(drive)@ && *final(self) == *old(self),
            old(self).spec_writable() && old(drive)@.pos == old(drive)@.blocks.len() && !old(drive)@.write_protect ==> {
                &&& r is Ok
                &&& final(drive)@.blocks == old(drive)@.blocks + seq![BlockV::Mark]
                &&& final(drive)@.pos == final(drive)@.blocks.len()
                &&& !final(self).spec_writable()
            },
    {
        if !self.writable {
            return Err(Error::ArchiveClosed);
        }
        let st = drive.dev.get_status();
        if !st.eod {
            return Err(Error::NotAtEndOfData);
        }
        match drive.dev.weof(1) {
            Ok(_) => {
                self.writable = false;
                proof {
                    assert(Seq::new(1nat, |i: int| BlockV::Mark) =~= seq![BlockV::Mark]);
                    assert(drive@.blocks =~= old(drive)@.blocks + seq![BlockV::Mark]);
                }
                Ok(())
            },
            Err(e) => Err(e),
        }
    }
}

/// Read back a payload of `object_length` bytes: exactly its chunk count
/// of data blocks, concatenated and length-checked.
fn read_payload(drive: &mut Drive, object_length: u64) -> (r: Result<Vec<u8>, Error>)
    requires
        old(drive).wf(),
    ensures
        final(drive).wf(),
        final(drive)@.blocks == old(drive)@.blocks,
        final(drive)@.write_protect == old(drive)@.write_protect,
        final(drive)@.pos >= old(drive)@.pos,
        match r {
            Ok(out) => {
                &&& old(drive)@.pos + chunk_count(object_length as nat) <= old(
                    drive,
                )@.blocks.len()
                &&& all_data(
                    old(drive)@.blocks,
                    old(drive)@.pos,
                    old(drive)@.pos + chunk_count(object_length as nat),
                )
                &&& out@ == concat_data(
                    old(drive)@.blocks,
                    old(drive)@.pos,
                    old(drive)@.pos + chunk_count(object_length as nat),
                )
                &&& out@.len() == object_length
                &&& final(drive)@.pos == old(drive)@.pos + chunk_count(object_length as nat)
            },
            Err(e) => {
                &&& e == Error::MalformedHeader
                &&& !({
                    &&& old(drive)@.pos + chunk_count(object_length as nat) <= old(
                        drive,
                    )@.blocks.len()
                    &&& all_data(
                        old(drive)@.blocks,
                        old(drive)@.pos,
                        old(drive)@.pos + chunk_count(object_length as nat),
                    )
                    &&& concat_data(
                        old(drive)@.blocks,
                        old(drive)@.pos,
                        old(drive)@.pos + chunk_count(object_length as nat),
                    ).len() == object_length
                })
            },
        },
{
    let n: u64 = if object_length == 0 {
        0
    } else {
        (object_length - 1) / (BLOCK_SIZE as u64) + 1
    };
    proof {
        lemma_chunk_count_exec(object_length);
        assert(n as nat == chunk_count(object_length as nat));
    }
    let mut out: Vec<u8> = Vec::new();
    let mut i: u64 = 0;
    proof {
        assert(out@ =~= concat_data(drive@.blocks, old(drive)@.pos, old(drive)@.pos));
    }
    #[verifier::loop_isolation(false)]
    while i < n
        invariant
            drive.wf(),
            drive@.blocks == old(drive)@.blocks,
            drive@.write_protect == old(drive)@.write_protect,
            i <= n,
            n as nat == chunk_count(object_length as nat),
            drive@.pos == old(drive)@.pos + i,
            old(drive)@.pos + i <= drive@.blocks.len(),
            all_data(drive@.blocks, old(drive)@.pos, old(drive)@.pos + i),
            out@ == concat_data(drive@.blocks, old(drive)@.pos, old(drive)@.pos + i),
        decreases n - i,
    {
        let ghost p0 = old(drive)@.pos;
        match drive.dev.read_block() {
            ReadOutcome::Data(d) => {
                let mut d = d;
                proof {
                    lemma_concat_snoc(drive@.blocks, p0, p0 + i);
                    assert(block_data(drive@.blocks[p0 + i]) == d@);
                }
                out.append(&mut d);
                i = i + 1;
                proof {
                    assert(all_data(drive@.blocks, p0, p0 + i));
                }
            },
            ReadOutcome::Mark => {
                proof {
                    assert(!(drive@.blocks[p0 + i] is Data));
                    if p0 + n <= drive@.blocks.len() && all_data(drive@.blocks, p0, p0 + n) {
                        assert(drive@.blocks[p0 + i] is Data);
                    }
                }
                return Err(Error::MalformedHeader);
            },
            ReadOutcome::End => {
                proof {
                    assert(p0 + i == drive@.blocks.len());
                    assert(p0 + n > drive@.blocks.len());
                }
                return Err(Error::MalformedHeader);
            },
        }
    }
    if out.len() as u64 != object_length {
        return Err(Error::MalformedHeader);
    }
    Ok(out)
}

/// Skip a payload of `object_length` bytes without reading it: space
/// forward over exactly its chunk count of data records. The length
/// field makes this possible without touching the payload bytes.
fn skip_payload(drive: &mut Drive, object_length: u64) -> (r: Result<(), Error>)
    requires
        old(drive).wf(),
    ensures
        final(drive).wf(),
        final(drive)@.blocks == old(drive)@.blocks,
        final(drive)@.write_protect == old(drive)@.write_protect,
        final(drive)@.pos >= old(drive)@.pos,
        match r {
            Ok(_) => {
                &&& old(drive)@.pos + chunk_count(object_length as nat) <= old(
                    drive,
                )@.blocks.len()
                &&& all_data(
                    old(drive)@.blocks,
                    old(drive)@.pos,
                    old(drive)@.pos + chunk_count(object_length as nat),
                )
                &&& final(drive)@.pos == old(drive)@.pos + chunk_count(object_length as nat)
            },
            Err(e) => {
                &&& e == Error::MalformedHeader
                &&& !({
                    &&& old(drive)@.pos + chunk_count(object_length as nat) <= old(
                        drive,
                    )@.blocks.len()
                    &&& all_data(
                        old(drive)@.blocks,
                        old(drive)@.pos,
                        old(drive)@.pos + chunk_count(object_length as nat),
                    )
                })
            },
        },
{
    let n: u64 = if object_length == 0 {
        0
    } else {
        (object_length - 1) / (BLOCK_SIZE as u64) + 1
    };
    proof {
        lemma_chunk_count_exec(object_length);
        assert(n as nat == chunk_count(object_length as nat));
    }
    let mut i: u64 = 0;
    #[verifier::loop_isolation(false)]
    while i < n
        invariant
            drive.wf(),
            drive@.blocks == old(drive)@.blocks,
            drive@.write_protect == old(drive)@.write_protect,
            i <= n,
            n as nat == chunk_count(object_length as nat),
            drive@.pos == old(drive)@.pos + i,
            old(drive)@.pos + i <= drive@.blocks.len(),
            all_data(drive@.blocks, old(drive)@.pos, old(drive)@.pos + i),
        decreases n - i,
    {
        let ghost p0 = old(drive)@.pos;
        let ghost blocks = drive@.blocks;
        proof {
            if p0 + i < blocks.len() && blocks[p0 + i] is Data {
                assert(crate::device::fsr_result(blocks, p0 + i + 1, 0nat) == Ok::<int, int>(
                    p0 + i + 1,
                ));
                assert(crate::device::fsr_result(blocks, p0 + i, 1nat) == Ok::<int, int>(
                    p0 + i + 1,
                ));
            }
        }
        match drive.dev.fsr(1) {
            Ok(_) => {
                i = i + 1;
                proof {
                    assert(blocks[p0 + i - 1] is Data) by {
                        if !(blocks[p0 + i - 1] is Data) || p0 + i - 1 >= blocks.len() {
                            assert(crate::device::fsr_result(blocks, p0 + i - 1, 1nat) is Err);
                        }
                    }
                    assert(all_data(blocks, p0, p0 + i));
                }
            },
            Err(_) => {
                proof {
                    assert(p0 + i >= blocks.len() || !(blocks[p0 + i] is Data)) by {
                        if p0 + i < blocks.len() && blocks[p0 + i] is Data {
                            assert(crate::device::fsr_result(blocks, p0 + i, 1nat) == Ok::<
                                int,
                                int,
                            >(p0 + i + 1));
                        }
                    }
                    if p0 + n <= blocks.len() && all_data(blocks, p0, p0 + n) {
                        assert(blocks[p0 + i] is Data);
                    }
                }
                return Err(Error::MalformedHeader);
            },
        }
    }
    Ok(())
}

impl Archive {
    /// Step the forward-only object sequence, reading the payload. The
    /// archive's terminating filemark or end-of-data yields "no more";
    /// the cursor never returns to an earlier object.
    pub fn next_object(&self, drive: &mut Drive) -> (r: Result<Option<Object>, Error>)
        requires
            old(drive).wf(),
        ensures
            final(drive).wf(),
            final(drive)@.blocks == old(drive)@.blocks,
            final(drive)@.write_protect == old(drive)@.write_protect,
            final(drive)@.pos >= old(drive)@.pos,
            match r {
                Ok(Some(obj)) => {
                    &&& parse_object_at(old(drive)@.blocks, old(drive)@.pos) == Some(
                        (obj@, final(drive)@.pos as int),
                    )
                    &&& final(drive)@.pos > old(drive)@.pos
                },
                Ok(None) => (old(drive)@.pos == old(drive)@.blocks.len() && final(drive)@.pos
                    == old(drive)@.pos) || (old(drive)@.pos < old(drive)@.blocks.len() && old(
                    drive,
                )@.blocks[old(drive)@.pos] is Mark && final(drive)@.pos == old(drive)@.pos + 1),
                Err(e) => {
                    &&& old(drive)@.pos < old(drive)@.blocks.len()
                    &&& old(drive)@.blocks[old(drive)@.pos] is Data
                    &&& parse_object_at(old(drive)@.blocks, old(drive)@.pos) is None
                    &&& final(drive)@.pos > old(drive)@.pos
                    &&& (e == Error::UnsupportedVersion || e == Error::MalformedHeader)
                    &&& (e == Error::UnsupportedVersion <==> block_data(
                        old(drive)@.blocks[old(drive)@.pos],
                    ).len() >= 1 && block_data(old(drive)@.blocks[old(drive)@.pos])[0]
                        != OBJECT_HEADER_VERSION)
                },
            },
    {
        let ghost blocks = drive@.blocks;
        let ghost p = drive@.pos;
        match drive.dev.read_block() {
            ReadOutcome::End => Ok(None),
            ReadOutcome::Mark => Ok(None),
            ReadOutcome::Data(hb) => {
                match decode_object_header(hb.as_slice()) {
                    Err(e) => Err(e),
                    Ok(h) => {
                        match read_payload(drive, h.object_length) {
                            Ok(payload) => {
                                proof {
                                    assert(parse_object_header(block_data(blocks[p])) == Some(
                                        h@,
                                    ));
                                    assert(parse_object_at(blocks, p) == Some(
                                        (
                                            ObjectV { key: h@.key, payload: payload@ },
                                            p + 1 + chunk_count(h@.object_length as nat),
                                        ),
                                    ));
                                }
                                Ok(Some(Object { key: h.key, payload }))
                            },
                            Err(e) => {
                                proof {
                                    assert(parse_object_at(blocks, p) is None);
                                }
                                Err(e)
                            },
                        }
                    },
                }
            },
        }
    }

    /// Step the forward-only object sequence while declining the
    /// payload: read the header, then use its length field to skip the
    /// payload blocks without reading them. Lands exactly where a full
    /// read of the object would land.
    pub fn skip_object(&self, drive: &mut Drive) -> (r: Result<Option<ObjectHeader>, Error>)
        requires
            old(drive).wf(),
        ensures
            final(drive).wf(),
            final(drive)@.blocks == old(drive)@.blocks,
            final(drive)@.write_protect == old(drive)@.write_protect,
            final(drive)@.pos >= old(drive)@.pos,
            match r {
                Ok(Some(h)) => {
                    &&& old(drive)@.pos < old(drive)@.blocks.len()
                    &&& old(drive)@.blocks[old(drive)@.pos] is Data
                    &&& parse_object_header(block_data(old(drive)@.blocks[old(drive)@.pos]))
                        == Some(h@)
                    &&& h@.version == OBJECT_HEADER_VERSION
                    &&& final(drive)@.pos == old(drive)@.pos + 1 + chunk_count(
                        h@.object_length as nat,
                    )
                    &&& (parse_object_at(old(drive)@.blocks, old(drive)@.pos) matches Some(
                        (o, end),
                    ) ==> end == final(drive)@.pos)
                },
                Ok(None) => (old(drive)@.pos == old(drive)@.blocks.len() && final(drive)@.pos
                    == old(drive)@.pos) || (old(drive)@.pos < old(drive)@.blocks.len() && old(
                    drive,
                )@.blocks[old(drive)@.pos] is Mark && final(drive)@.pos == old(drive)@.pos + 1),
                Err(e) => {
                    &&& old(drive)@.pos < old(drive)@.blocks.len()
                    &&& old(drive)@.blocks[old(drive)@.pos] is Data
                    &&& parse_object_at(old(drive)@.blocks, old(drive)@.pos) is None
                    &&& final(drive)@.pos > old(drive)@.pos
                    &&& (e == Error::UnsupportedVersion || e == Error::MalformedHeader)
                    &&& (e == Error::UnsupportedVersion <==> block_data(
                        old(drive)@.blocks[old(drive)@.pos],
                    ).len() >= 1 && block_data(old(drive)@.blocks[old(drive)@.pos])[0]
                        != OBJECT_HEADER_VERSION)
                },
            },
    {
        let ghost blocks = drive@.blocks;
        let ghost p = drive@.pos;
        match drive.dev.read_block() {
            ReadOutcome::End => Ok(None),
            ReadOutcome::Mark => Ok(None),
            ReadOutcome::Data(hb) => {
                match decode_object_header(hb.as_slice()) {
                    Err(e) => Err(e),
                    Ok(h) => {
                        match skip_payload(drive, h.object_length) {
                            Ok(_) => {
                                proof {
                                    assert(parse_object_header(block_data(blocks[p])) == Some(
                                        h@,
                                    ));
                                }
                                Ok(Some(h))
                            },
                            Err(e) => {
                                proof {
                                    assert(parse_object_at(blocks, p) is None);
                                }
                                Err(e)
                            },
                        }
                    },
                }
            },
        }
    }

    /// Linear forward scan from the current position for the first
    /// object under `key`, skipping every other payload by its length
    /// field. No random-access index exists by design; the job manager
    /// exists to amortize this cost asynchronously.
    pub fn find_object(&self, drive: &mut Drive, key: &[u8]) -> (r: Result<Object, Error>)
        requires
            old(drive).wf(),
        ensures
            final(drive).wf(),
            final(drive)@.blocks == old(drive)@.blocks,
            final(drive)@.write_protect == old(drive)@.write_protect,
            final(drive)@.pos >= old(drive)@.pos,
            match find_from(old(drive)@.blocks, old(drive)@.pos, key@) {
                FindResult::Found(o, end) => r matches Ok(obj) && obj@ == o && final(drive)@.pos
                    == end,
                FindResult::Absent(end) => r == Err::<Object, Error>(Error::KeyNotFound)
                    && final(drive)@.pos == end,
                FindResult::Malformed => r matches Err(e) && (e == Error::UnsupportedVersion || e
                    == Error::MalformedHeader),
            },
            r matches Ok(obj) ==> obj@.key == key@,
    {
        let ghost blocks = old(drive)@.blocks;
        let ghost p0 = old(drive)@.pos;
        #[verifier::loop_isolation(false)]
        loop
            invariant
                drive.wf(),
                drive@.blocks == blocks,
                drive@.write_protect == old(drive)@.write_protect,
                drive@.pos >= p0,
                0 <= drive@.pos <= blocks.len(),
                find_from(blocks, p0, key@) == find_from(blocks, drive@.pos, key@),
            decreases blocks.len() - drive@.pos,
        {
            let ghost p = drive@.pos;
            match drive.dev.read_block() {
                ReadOutcome::End => {
                    proof {
                        assert(find_from(blocks, p, key@) == FindResult::Malformed);
                    }
                    return Err(Error::MalformedHeader);
                },
                ReadOutcome::Mark => {
                    proof {
                        assert(find_from(blocks, p, key@) == FindResult::Absent(p + 1));
                    }
                    return Err(Error::KeyNotFound);
                },
                ReadOutcome::Data(hb) => {
                    match decode_object_header(hb.as_slice()) {
                        Err(e) => {
                            proof {
                                assert(find_from(blocks, p, key@) == FindResult::Malformed);
                            }
                            return Err(e);
                        },
                        Ok(h) => {
                            if bytes_eq(h.key.as_slice(), key) {
                                match read_payload(drive, h.object_length) {
                                    Ok(payload) => {
                                        proof {
                                            assert(find_from(blocks, p, key@)
                                                == FindResult::Found(
                                                ObjectV { key: h@.key, payload: payload@ },
                                                p + 1 + chunk_count(h@.object_length as nat),
                                            ));
                                        }
                                        return Ok(Object { key: h.key, payload });
                                    },
                                    Err(e) => {
                                        proof {
                                            assert(find_from(blocks, p, key@)
                                                == FindResult::Malformed);
                                        }
                                        return Err(e);
                                    },
                                }
                            } else {
                                match skip_payload(drive, h.object_length) {
                                    Ok(_) => {
                                        proof {
                                            assert(find_from(blocks, p, key@) == find_from(
                                                blocks,
                                                p + 1 + chunk_count(h@.object_length as nat),
                                                key@,
                                            ));
                                        }
                                    },
                                    Err(e) => {
                                        proof {
                                            assert(find_from(blocks, p, key@)
                                                == FindResult::Malformed);
                                        }
                                        return Err(e);
                                    },
                                }
                            }
                        },
                    }
                },
            }
        }
    }
}

/// What a cartridge maintenance command produced: nothing to show, or
/// the status report.
pub enum TapeOutcome {
    Done,
    Report(Status),
}

/// Dispatch one cartridge maintenance command against the drive:
/// initialize blank media, erase, or report status. Initialization uses
/// the given creation time and host name for the media header.
pub fn run(
    command: &crate::cli::TapeCommand,
    drive: &mut Drive,
    creation_time: u64,
    host: &[u8],
) -> (r: Result<TapeOutcome, Error>)
    requires
        old(drive).wf(),
    ensures
        final(drive).wf(),
        final(drive)@.write_protect == old(drive)@.write_protect,
        command matches crate::cli::TapeCommand::Init {  } ==> {
            &&& old(drive)@.blocks.len() > 0 ==> r == Err::<TapeOutcome, Error>(
                Error::AlreadyInitialized,
            ) && final(drive)@.blocks == old(drive)@.blocks
            &&& old(drive)@.blocks.len() == 0 && !old(drive)@.write_protect ==> r is Ok && final(drive)@.blocks == seq![
                BlockV::Data(
                    media_header_bytes(
                        MediaHeaderV {
                            version: MEDIA_HEADER_VERSION,
                            magic: MEDIA_HEADER_MAGIC,
                            creation_time,
                            host: host@,
                        },
                    ),
                ),
            ]
        },
        command matches crate::cli::TapeCommand::Erase { secure } ==> {
            &&& old(drive)@.write_protect ==> r is Err && final(drive)@ == old(drive)@
            &&& !old(drive)@.write_protect ==> r is Ok && final(drive)@.blocks.len() == 0
        },
        command matches crate::cli::TapeCommand::Info {  } ==> final(drive)@ == old(drive)@ && (
        r matches Ok(o) && (o matches TapeOutcome::Report(s) && s.write_protect == old(drive)@.write_protect
            && s.bot == (old(drive)@.pos == 0)
            && s.eod == (old(drive)@.pos == old(drive)@.blocks.len()))),
{
    match command {
        crate::cli::TapeCommand::Init {  } => {
            match drive.init_media(creation_time, host) {
                Ok(_) => Ok(TapeOutcome::Done),
                Err(e) => Err(e),
            }
        },
        crate::cli::TapeCommand::Erase { secure } => {
            match drive.erase_media(*secure) {
                Ok(_) => Ok(TapeOutcome::Done),
                Err(e) => Err(e),
            }
        },
        crate::cli::TapeCommand::Info {  } => Ok(TapeOutcome::Report(drive.get_status())),
    }
}

/// Execute one retrieval against the mounted cartridge: mount (rewind,
/// check the media header), then scan archives in tape order and each
/// archive's objects in tape order. The first object under the key wins;
/// an absent key is the expected `KeyNotFound` outcome, not a fault.
pub fn retrieve(drive: &mut Drive, key: &[u8]) -> (r: Result<Object, Error>)
    requires
        old(drive).wf(),
    ensures
        final(drive).wf(),
        final(drive)@.blocks == old(drive)@.blocks,
        final(drive)@.write_protect == old(drive)@.write_protect,
        parse_media(old(drive)@.blocks) matches Some(m) ==> (match find_in_archives(
            m.archives,
            key@,
        ) {
            Some(o) => r matches Ok(obj) && obj@ == o,
            None => r == Err::<Object, Error>(Error::KeyNotFound),
        }),
        r matches Ok(obj) ==> obj@.key == key@,
{
    let ghost blocks = old(drive)@.blocks;
    let media = match drive.load_media() {
        Ok(m) => m,
        Err(e) => {
            proof {
                assert(parse_media(blocks) is None);
            }
            return Err(e);
        },
    };
    let ghost full: Seq<ArchiveV> = match parse_media(blocks) {
        Some(mm) => mm.archives,
        None => Seq::empty(),
    };
    let ghost mut rem: Seq<ArchiveV> = full;
    #[verifier::loop_isolation(false)]
    loop
        invariant
            drive.wf(),
            drive@.blocks == blocks,
            drive@.write_protect == old(drive)@.write_protect,
            0 <= drive@.pos <= blocks.len(),
            parse_media(blocks) is Some ==> {
                &&& parse_archives(blocks, drive@.pos) == Some(rem)
                &&& find_in_archives(full, key@) == find_in_archives(rem, key@)
            },
        decreases blocks.len() - drive@.pos,
    {
        let ghost p = drive@.pos;
        match media.next_archive(drive) {
            Ok(None) => {
                proof {
                    if parse_media(blocks) is Some {
                        assert(parse_archives(blocks, p) == Some(Seq::<ArchiveV>::empty()));
                        assert(rem =~= Seq::<ArchiveV>::empty());
                        assert(find_in_archives(rem, key@) is None);
                    }
                }
                return Err(Error::KeyNotFound);
            },
            Err(e) => {
                proof {
                    if parse_media(blocks) is Some {
                        assert(parse_archive_at(blocks, p) is None);
                        assert(parse_archives(blocks, p) is None);
                        assert(false);
                    }
                }
                return Err(e);
            },
            Ok(Some(archive)) => {
                let ghost a0 = ArchiveV {
                    header: arbitrary(),
                    objects: arbitrary(),
                };
                let ghost end0: int = 0;
                proof {
                    if parse_media(blocks) is Some {
                        match parse_archive_at(blocks, p) {
                            Some((a, e2)) => {
                                a0 = a;
                                end0 = e2;
                                assert(parse_archives(blocks, e2) is Some);
                                assert(rem == seq![a] + parse_archives(blocks, e2)->Some_0);
                                assert(rem[0] == a);
                                assert(rem.skip(1) =~= parse_archives(blocks, e2)->Some_0);
                            },
                            None => {
                                assert(parse_archives(blocks, p) is None);
                                assert(false);
                            },
                        }
                    }
                }
                match archive.find_object(drive, key) {
                    Ok(obj) => {
                        proof {
                            if parse_media(blocks) is Some {
                                assert(parse_objects(blocks, p + 1) == Some((a0.objects, end0)));
                                lemma_find_parsed(blocks, p + 1, key@, a0.objects, end0);
                                match find_in_objs(a0.objects, key@) {
                                    Some(o) => {
                                        assert(obj@ == o);
                                        assert(find_in_archives(rem, key@) == Some(o));
                                    },
                                    None => {
                                        assert(find_from(blocks, p + 1, key@)
                                            == FindResult::Absent(end0));
                                        assert(false);
                                    },
                                }
                            }
                        }
                        return Ok(obj);
                    },
                    Err(e) => {
                        if matches!(e, Error::KeyNotFound) {
                            proof {
                                if parse_media(blocks) is Some {
                                    assert(parse_objects(blocks, p + 1) == Some(
                                        (a0.objects, end0),
                                    ));
                                    lemma_find_parsed(blocks, p + 1, key@, a0.objects, end0);
                                    match find_in_objs(a0.objects, key@) {
                                        Some(o) => {
                                            assert(false);
                                        },
                                        None => {
                                            assert(find_from(blocks, p + 1, key@)
                                                == FindResult::Absent(end0));
                                            assert(drive@.pos == end0);
                                            assert(find_in_archives(rem, key@)
                                                == find_in_archives(rem.skip(1), key@));
                                        },
                                    }
                                }
                                rem = rem.skip(1);
                            }
                        } else {
                            proof {
                                if parse_media(blocks) is Some {
                                    assert(parse_objects(blocks, p + 1) == Some(
                                        (a0.objects, end0),
                                    ));
                                    lemma_find_parsed(blocks, p + 1, key@, a0.objects, end0);
                                    match find_in_objs(a0.objects, key@) {
                                        Some(o) => {},
                                        None => {},
                                    }
                                    assert(false);
                                }
                            }
                            return Err(e);
                        }
                    },
                }
            },
        }
    }
}

} // verus!

use vstd::prelude::*;

use crate::device::BlockV;
use crate::format::{
    archive_header_bytes, media_header_bytes, object_header_bytes, parse_archive_header,
    parse_media_header, parse_object_header, ArchiveHeaderV, MediaHeaderV, ObjectHeaderV,
    ARCHIVE_HEADER_VERSION, MEDIA_HEADER_MAGIC, MEDIA_HEADER_VERSION, OBJECT_HEADER_VERSION,
};

verus! {

/// Bytes of payload one data block carries at most. An object longer than
/// this spans several blocks; the object header's length field says how
/// many without reading them.
pub const BLOCK_SIZE: usize = 65536;

/// Mathematical image of one stored object: its key and payload.
pub struct ObjectV {
    pub key: Seq<u8>,
    pub payload: Seq<u8>,
}

/// Mathematical image of one archive: its header and its objects in tape
/// order.
pub struct ArchiveV {
    pub header: ArchiveHeaderV,
    pub objects: Seq<ObjectV>,
}

/// Mathematical image of a whole cartridge: its media header and its
/// archives in tape order.
pub struct MediaV {
    pub header: MediaHeaderV,
    pub archives: Seq<ArchiveV>,
}

/// The data carried by a block; empty for a filemark.
pub open spec fn block_data(b: BlockV) -> Seq<u8> {
    match b {
        BlockV::Data(d) => d,
        BlockV::Mark => Seq::empty(),
    }
}

/// Number of data blocks a payload of `len` bytes occupies.
pub open spec fn chunk_count(len: nat) -> nat {
    (((len + BLOCK_SIZE) - 1) / (BLOCK_SIZE as int)) as nat
}

/// A payload split into data blocks of at most `BLOCK_SIZE` bytes each,
/// all but the last exactly full.
pub open spec fn payload_chunks(p: Seq<u8>) -> Seq<BlockV>
    decreases p.len(),
{
    if p.len() == 0 {
        Seq::empty()
    } else if p.len() <= BLOCK_SIZE {
        seq![BlockV::Data(p)]
    } else {
        seq![BlockV::Data(p.take(BLOCK_SIZE as int))] + payload_chunks(p.skip(BLOCK_SIZE as int))
    }
}

/// Every block in `[from, to)` is a data block.
pub open spec fn all_data(blocks: Seq<BlockV>, from: int, to: int) -> bool {
    forall|i: int| from <= i < to ==> (#[trigger] blocks[i]) is Data
}

/// The bytes of the data blocks in `[from, to)`, in order.
pub open spec fn concat_data(blocks: Seq<BlockV>, from: int, to: int) -> Seq<u8>
    decreases to - from,
{
    if from >= to {
        Seq::empty()
    } else {
        block_data(blocks[from]) + concat_data(blocks, from + 1, to)
    }
}

/// The blocks an object occupies: its header block, then its payload
/// chunks.
pub open spec fn object_blocks(key: Seq<u8>, payload: Seq<u8>) -> Seq<BlockV> {
    seq![
        BlockV::Data(
            object_header_bytes(
                ObjectHeaderV {
                    version: OBJECT_HEADER_VERSION,
                    object_length: payload.len() as u64,
                    key: key,
                },
            ),
        ),
    ] + payload_chunks(payload)
}

/// The blocks a run of objects occupies.
pub open spec fn objects_blocks(objs: Seq<ObjectV>) -> Seq<BlockV>
    decreases objs.len(),
{
    if objs.len() == 0 {
        Seq::empty()
    } else {
        object_blocks(objs[0].key, objs[0].payload) + objects_blocks(objs.skip(1))
    }
}

/// The blocks an archive occupies: its header block, its objects, and
/// its terminating filemark.
pub open spec fn archive_blocks(a: ArchiveV) -> Seq<BlockV> {
    seq![BlockV::Data(archive_header_bytes(a.header))] + objects_blocks(a.objects) + seq![
        BlockV::Mark,
    ]
}

/// The blocks a run of archives occupies.
pub open spec fn archives_blocks(s: Seq<ArchiveV>) -> Seq<BlockV>
    decreases s.len(),
{
    if s.len() == 0 {
        Seq::empty()
    } else {
        archive_blocks(s[0]) + archives_blocks(s.skip(1))
    }
}

/// The blocks a whole cartridge occupies: its media header block, then
/// its archives. End-of-data after the last archive's filemark ends the
/// sequence.
pub open spec fn media_blocks(m: MediaV) -> Seq<BlockV> {
    seq![BlockV::Data(media_header_bytes(m.header))] + archives_blocks(m.archives)
}

/// Parse one object at `pos`: a header block this reader accepts,
/// followed by exactly the number of data blocks the length field calls
/// for, holding exactly that many bytes. Yields the object and the
/// position just past it.
pub open spec fn parse_object_at(blocks: Seq<BlockV>, pos: int) -> Option<(ObjectV, int)> {
    if 0 <= pos < blocks.len() && blocks[pos] is Data {
        match parse_object_header(block_data(blocks[pos])) {
            Some(h) => {
                if h.version == OBJECT_HEADER_VERSION {
                    let end = pos + 1 + chunk_count(h.object_length as nat);
                    if end <= blocks.len() && all_data(blocks, pos + 1, end) && concat_data(
                        blocks,
                        pos + 1,
                        end,
                    ).len() == h.object_length {
                        Some((ObjectV { key: h.key, payload: concat_data(blocks, pos + 1, end) }, end))
                    } else {
                        None
                    }
                } else {
                    None
                }
            },
            None => None,
        }
    } else {
        None
    }
}

/// Parse a run of objects from `pos` up to and including the filemark
/// that ends the archive. Yields the objects and the position just past
/// the filemark.
pub open spec fn parse_objects(blocks: Seq<BlockV>, pos: int) -> Option<(Seq<ObjectV>, int)>
    decreases blocks.len() - pos,
    when 0 <= pos <= blocks.len()
{
    if pos == blocks.len() {
        None
    } else if blocks[pos] is Mark {
        Some((Seq::empty(), pos + 1))
    } else {
        match parse_object_at(blocks, pos) {
            Some((obj, next)) => {
                if pos < next <= blocks.len() {
                    match parse_objects(blocks, next) {
                        Some((rest, end)) => Some((seq![obj] + rest, end)),
                        None => None,
                    }
                } else {
                    None
                }
            },
            None => None,
        }
    }
}

/// Parse one archive at `pos`: a header block this reader accepts, its
/// objects, and the terminating filemark. Yields the archive and the
/// position just past the filemark.
pub open spec fn parse_archive_at(blocks: Seq<BlockV>, pos: int) -> Option<(ArchiveV, int)> {
    if 0 <= pos < blocks.len() && blocks[pos] is Data {
        match parse_archive_header(block_data(blocks[pos])) {
            Some(h) => {
                if h.version == ARCHIVE_HEADER_VERSION {
                    match parse_objects(blocks, pos + 1) {
                        Some((objs, end)) => Some((ArchiveV { header: h, objects: objs }, end)),
                        None => None,
                    }
                } else {
                    None
                }
            },
            None => None,
        }
    } else {
        None
    }
}

/// Parse the run of archives from `pos` to the end of the recorded data.
/// End-of-data or a second filemark directly after an archive ends the
/// run.
pub open spec fn parse_archives(blocks: Seq<BlockV>, pos: int) -> Option<Seq<ArchiveV>>
    decreases blocks.len() - pos,
    when 0 <= pos <= blocks.len()
{
    if pos == blocks.len() {
        Some(Seq::empty())
    } else if blocks[pos] is Mark {
        Some(Seq::empty())
    } else {
        match parse_archive_at(blocks, pos) {
            Some((a, end)) => {
                if pos < end <= blocks.len() {
                    match parse_archives(blocks, end) {
                        Some(rest) => Some(seq![a] + rest),
                        None => None,
                    }
                } else {
                    None
                }
            },
            None => None,
        }
    }
}

/// Parse a whole cartridge: the media header block this reader accepts,
/// then its archives.
pub open spec fn parse_media(blocks: Seq<BlockV>) -> Option<MediaV> {
    if blocks.len() >= 1 && blocks[0] is Data {
        match parse_media_header(block_data(blocks[0])) {
            Some(h) => {
                if h.version == MEDIA_HEADER_VERSION && h.magic == MEDIA_HEADER_MAGIC {
                    match parse_archives(blocks, 1) {
                        Some(archives) => Some(MediaV { header: h, archives }),
                        None => None,
                    }
                } else {
                    None
                }
            },
            None => None,
        }
    } else {
        None
    }
}

/// An object this writer could have produced.
pub open spec fn object_valid(o: ObjectV) -> bool {
    &&& o.key.len() <= u64::MAX
    &&& o.payload.len() <= u64::MAX
}

/// An archive this writer could have produced.
pub open spec fn archive_valid(a: ArchiveV) -> bool {
    &&& a.header.version == ARCHIVE_HEADER_VERSION
    &&& a.header.host.len() <= u64::MAX
    &&& forall|i: int| 0 <= i < a.objects.len() ==> object_valid(#[trigger] a.objects[i])
}

/// A cartridge this writer could have produced.
pub open spec fn media_valid(m: MediaV) -> bool {
    &&& m.header.version == MEDIA_HEADER_VERSION
    &&& m.header.magic == MEDIA_HEADER_MAGIC
    &&& m.header.host.len() <= u64::MAX
    &&& forall|i: int| 0 <= i < m.archives.len() ==> archive_valid(#[trigger] m.archives[i])
}

/// What a forward scan for a key meets first, starting at an object
/// boundary: the object and the position just past it, a clean end (the
/// archive's filemark, with the position just past it), or data the
/// reader rejects.
pub enum FindResult {
    Found(ObjectV, int),
    Absent(int),
    Malformed,
}

/// Forward scan of one archive's objects for the first one keyed `key`.
/// An object under another key is skipped by its length field alone, so
/// only a read object's payload is held against its header's length.
pub open spec fn find_from(blocks: Seq<BlockV>, pos: int, key: Seq<u8>) -> FindResult
    decreases blocks.len() - pos,
    when 0 <= pos <= blocks.len()
{
    if pos == blocks.len() {
        FindResult::Malformed
    } else if blocks[pos] is Mark {
        FindResult::Absent(pos + 1)
    } else {
        match parse_object_header(block_data(blocks[pos])) {
            Some(h) => {
                if h.version == OBJECT_HEADER_VERSION {
                    let next = pos + 1 + chunk_count(h.object_length as nat);
                    if next <= blocks.len() && all_data(blocks, pos + 1, next) {
                        if h.key == key {
                            if concat_data(blocks, pos + 1, next).len() == h.object_length {
                                FindResult::Found(
                                    ObjectV {
                                        key: h.key,
                                        payload: concat_data(blocks, pos + 1, next),
                                    },
                                    next,
                                )
                            } else {
                                FindResult::Malformed
                            }
                        } else {
                            find_from(blocks, next, key)
                        }
                    } else {
                        FindResult::Malformed
                    }
                } else {
                    FindResult::Malformed
                }
            },
            None => FindResult::Malformed,
        }
    }
}

/// First object keyed `key` in a run of objects.
pub open spec fn find_in_objs(objs: Seq<ObjectV>, key: Seq<u8>) -> Option<ObjectV>
    decreases objs.len(),
{
    if objs.len() == 0 {
        None
    } else if objs[0].key == key {
        Some(objs[0])
    } else {
        find_in_objs(objs.skip(1), key)
    }
}

/// First object keyed `key` across a run of archives, archives in tape
/// order, objects in tape order: the earliest-written match wins.
pub open spec fn find_in_archives(archives: Seq<ArchiveV>, key: Seq<u8>) -> Option<ObjectV>
    decreases archives.len(),
{
    if archives.len() == 0 {
        None
    } else {
        match find_in_objs(archives[0].objects, key) {
            Some(o) => Some(o),
            None => find_in_archives(archives.skip(1), key),
        }
    }
}

/// A payload of one block or less is one chunk.
pub proof fn lemma_chunk_count_small(len: nat)
    requires
        1 <= len <= BLOCK_SIZE,
    ensures
        chunk_count(len) == 1,
{
    vstd::arithmetic::div_mod::lemma_fundamental_div_mod_converse(
        len + BLOCK_SIZE - 1,
        BLOCK_SIZE as int,
        1,
        len - 1,
    );
}

/// Peeling one full block off the front of a long payload drops the
/// chunk count by one.
pub proof fn lemma_chunk_count_step(len: nat)
    requires
        len > BLOCK_SIZE,
    ensures
        chunk_count(len) == 1 + chunk_count((len - BLOCK_SIZE) as nat),
{
    let bs = BLOCK_SIZE as int;
    let c = chunk_count((len - BLOCK_SIZE) as nat) as int;
    vstd::arithmetic::div_mod::lemma_fundamental_div_mod(len - 1, bs);
    vstd::arithmetic::div_mod::lemma_mod_bound(len - 1, bs);
    let q = (len - 1) / bs;
    let r = (len - 1) % bs;
    vstd::arithmetic::div_mod::lemma_fundamental_div_mod_converse(len + bs - 1, bs, q + 1, r);
    assert(c == q);
}

/// The chunks of a payload: as many data blocks as the chunk count says.
pub proof fn lemma_chunks_shape(p: Seq<u8>)
    ensures
        payload_chunks(p).len() == chunk_count(p.len()),
        forall|i: int|
            0 <= i < payload_chunks(p).len() ==> (#[trigger] payload_chunks(p)[i]) is Data,
    decreases p.len(),
{
    if p.len() == 0 {
    } else if p.len() <= BLOCK_SIZE {
        lemma_chunk_count_small(p.len());
    } else {
        lemma_chunks_shape(p.skip(BLOCK_SIZE as int));
        lemma_chunk_count_step(p.len());
    }
}

/// Chunking splits at any full-block boundary.
pub proof fn lemma_chunks_split(p: Seq<u8>, k: int)
    requires
        0 <= k <= p.len(),
        k % (BLOCK_SIZE as int) == 0,
    ensures
        payload_chunks(p) == payload_chunks(p.take(k)) + payload_chunks(p.skip(k)),
    decreases k,
{
    let bs = BLOCK_SIZE as int;
    if k == 0 {
        assert(p.take(0) =~= Seq::<u8>::empty());
        assert(p.skip(0) =~= p);
        assert(payload_chunks(p) =~= payload_chunks(p.take(0)) + payload_chunks(p.skip(0)));
    } else {
        vstd::arithmetic::div_mod::lemma_fundamental_div_mod(k, bs);
        vstd::arithmetic::div_mod::lemma_mod_bound(k, bs);
        assert(k >= bs) by {
            if k < bs {
                vstd::arithmetic::div_mod::lemma_fundamental_div_mod_converse(k, bs, 0, k);
            }
        }
        if p.len() <= BLOCK_SIZE {
            // then k == p.len() == BLOCK_SIZE exactly, or k == p.len()
            assert(k == p.len());
            assert(p.take(k) =~= p);
            assert(p.skip(k) =~= Seq::<u8>::empty());
            assert(payload_chunks(p) =~= payload_chunks(p.take(k)) + payload_chunks(p.skip(k)));
        } else {
            assert((k - bs) % bs == 0) by {
                vstd::arithmetic::div_mod::lemma_fundamental_div_mod_converse_mod(
                    k - bs,
                    bs,
                    k / bs - 1,
                    0,
                );
            }
            lemma_chunks_split(p.skip(bs), k - bs);
            assert(p.skip(bs).take(k - bs) =~= p.take(k).skip(bs));
            assert(p.skip(bs).skip(k - bs) =~= p.skip(k));
            if k == bs {
                assert(p.take(k).len() == bs);
                assert(payload_chunks(p.take(k)) == seq![BlockV::Data(p.take(k))]);
                assert(p.take(k) =~= p.take(bs));
                assert(p.skip(bs).take(0) =~= Seq::<u8>::empty());
                assert(payload_chunks(p) =~= payload_chunks(p.take(k)) + payload_chunks(
                    p.skip(k),
                ));
            } else {
                assert(p.take(k).len() == k > bs);
                assert(payload_chunks(p.take(k)) == seq![BlockV::Data(p.take(k).take(bs))]
                    + payload_chunks(p.take(k).skip(bs)));
                assert(p.take(k).take(bs) =~= p.take(bs));
                assert(payload_chunks(p) =~= payload_chunks(p.take(k)) + payload_chunks(
                    p.skip(k),
                ));
            }
        }
    }
}

/// Blocks that carry a payload's chunks are all data and concatenate
/// back to the payload.
pub proof fn lemma_chunks_parse(blocks: Seq<BlockV>, from: int, p: Seq<u8>)
    requires
        0 <= from,
        from + chunk_count(p.len()) <= blocks.len(),
        blocks.subrange(from, from + chunk_count(p.len()) as int) == payload_chunks(p),
    ensures
        all_data(blocks, from, from + chunk_count(p.len()) as int),
        concat_data(blocks, from, from + chunk_count(p.len()) as int) == p,
    decreases p.len(),
{
    let bs = BLOCK_SIZE as int;
    let cc = chunk_count(p.len()) as int;
    lemma_chunks_shape(p);
    if p.len() == 0 {
        assert(concat_data(blocks, from, from) =~= p);
    } else if p.len() <= BLOCK_SIZE {
        lemma_chunk_count_small(p.len());
        assert(blocks.subrange(from, from + 1)[0] == blocks[from]);
        assert(blocks[from] == BlockV::Data(p));
        assert(concat_data(blocks, from + 1, from + 1) =~= Seq::<u8>::empty());
        assert(concat_data(blocks, from, from + 1) =~= p);
    } else {
        lemma_chunk_count_step(p.len());
        let rest = p.skip(bs);
        assert(blocks.subrange(from, from + cc)[0] == blocks[from]);
        assert(blocks[from] == BlockV::Data(p.take(bs)));
        assert(blocks.subrange(from + 1, from + 1 + chunk_count(rest.len()) as int)
            =~= payload_chunks(rest)) by {
            assert forall|i: int| 0 <= i < chunk_count(rest.len()) as int implies blocks.subrange(
                from + 1,
                from + 1 + chunk_count(rest.len()) as int,
            )[i] == payload_chunks(rest)[i] by {
                assert(blocks.subrange(from, from + cc)[i + 1] == payload_chunks(p)[i + 1]);
            }
        }
        lemma_chunks_parse(blocks, from + 1, rest);
        assert(concat_data(blocks, from, from + cc) == p.take(bs) + rest);
        assert(p.take(bs) + rest =~= p);
    }
}

/// Appending one block extends the concatenation at its end.
pub proof fn lemma_concat_snoc(blocks: Seq<BlockV>, from: int, to: int)
    requires
        from <= to,
    ensures
        concat_data(blocks, from, to + 1) == concat_data(blocks, from, to) + block_data(
            blocks[to],
        ),
    decreases to - from,
{
    if from == to {
        assert(concat_data(blocks, to + 1, to + 1) =~= Seq::<u8>::empty());
        assert(concat_data(blocks, from, to) =~= Seq::<u8>::empty());
        assert(concat_data(blocks, from, to + 1) =~= concat_data(blocks, from, to) + block_data(
            blocks[to],
        ));
    } else {
        lemma_concat_snoc(blocks, from + 1, to);
        assert(concat_data(blocks, from, to + 1) =~= concat_data(blocks, from, to) + block_data(
            blocks[to],
        ));
    }
}

/// The chunk count as a machine computation: zero for an empty payload,
/// else one more than the full blocks before the last.
pub proof fn lemma_chunk_count_exec(len: u64)
    ensures
        len == 0 ==> chunk_count(len as nat) == 0,
        len > 0 ==> chunk_count(len as nat) == (len - 1) / (BLOCK_SIZE as int) + 1,
{
    let bs = BLOCK_SIZE as int;
    if len == 0 {
        vstd::arithmetic::div_mod::lemma_fundamental_div_mod_converse(bs - 1, bs, 0, bs - 1);
    } else {
        vstd::arithmetic::div_mod::lemma_fundamental_div_mod(len - 1, bs);
        vstd::arithmetic::div_mod::lemma_mod_bound(len - 1, bs);
        let q = (len - 1) as int / bs;
        let r = (len - 1) as int % bs;
        vstd::arithmetic::div_mod::lemma_fundamental_div_mod_converse(len + bs - 1, bs, q + 1, r);
    }
}

/// An object's end position is its header block plus its payload's chunk
/// count: a scan that skips by the length field lands exactly where a
/// full read lands.
pub proof fn lemma_skip_end(blocks: Seq<BlockV>, pos: int)
    ensures
        parse_object_at(blocks, pos) matches Some((o, end)) ==> end == pos + 1 + chunk_count(
            o.payload.len(),
        ),
{
}

/// Law (round trip, object level): the blocks a writer lays down for an
/// object parse back to exactly that key and payload.
pub proof fn lemma_object_roundtrip_at(blocks: Seq<BlockV>, pos: int, key: Seq<u8>, payload: Seq<u8>)
    requires
        key.len() <= u64::MAX,
        payload.len() <= u64::MAX,
        0 <= pos,
        pos + object_blocks(key, payload).len() <= blocks.len(),
        blocks.subrange(pos, pos + object_blocks(key, payload).len() as int) == object_blocks(
            key,
            payload,
        ),
    ensures
        parse_object_at(blocks, pos) == Some(
            (ObjectV { key, payload }, pos + object_blocks(key, payload).len()),
        ),
{
    let h = ObjectHeaderV {
        version: OBJECT_HEADER_VERSION,
        object_length: payload.len() as u64,
        key: key,
    };
    let ob = object_blocks(key, payload);
    let len = ob.len() as int;
    lemma_chunks_shape(payload);
    let cc = chunk_count(payload.len()) as int;
    assert(blocks.subrange(pos, pos + len)[0] == blocks[pos]);
    assert(blocks[pos] == BlockV::Data(object_header_bytes(h)));
    crate::format::lemma_object_header_round_trip(h);
    assert(h.object_length as nat == payload.len());
    assert(blocks.subrange(pos + 1, pos + 1 + cc) =~= payload_chunks(payload)) by {
        assert forall|i: int| 0 <= i < cc implies blocks.subrange(pos + 1, pos + 1 + cc)[i]
            == payload_chunks(payload)[i] by {
            assert(blocks.subrange(pos, pos + len)[i + 1] == ob[i + 1]);
        }
    }
    lemma_chunks_parse(blocks, pos + 1, payload);
}

/// Law (round trip, archive body): the blocks for a run of objects plus
/// the terminating filemark parse back to exactly those objects.
pub proof fn lemma_objects_roundtrip_at(blocks: Seq<BlockV>, pos: int, objs: Seq<ObjectV>)
    requires
        forall|i: int| 0 <= i < objs.len() ==> object_valid(#[trigger] objs[i]),
        0 <= pos,
        pos + objects_blocks(objs).len() + 1 <= blocks.len(),
        blocks.subrange(pos, pos + objects_blocks(objs).len() + 1) == objects_blocks(objs) + seq![
            BlockV::Mark,
        ],
    ensures
        parse_objects(blocks, pos) == Some((objs, pos + objects_blocks(objs).len() + 1)),
    decreases objs.len(),
{
    let total = objects_blocks(objs).len() as int;
    if objs.len() == 0 {
        assert(blocks.subrange(pos, pos + 1)[0] == blocks[pos]);
        assert(blocks[pos] is Mark);
        assert(parse_objects(blocks, pos) == Some((Seq::<ObjectV>::empty(), pos + 1)));
        assert(objs =~= Seq::<ObjectV>::empty());
    } else {
        let o0 = objs[0];
        let ob0 = object_blocks(o0.key, o0.payload);
        let len0 = ob0.len() as int;
        assert(objects_blocks(objs) == ob0 + objects_blocks(objs.skip(1)));
        assert(blocks.subrange(pos, pos + len0) =~= ob0) by {
            assert forall|i: int| 0 <= i < len0 implies blocks.subrange(pos, pos + len0)[i]
                == ob0[i] by {
                assert(blocks.subrange(pos, pos + total + 1)[i] == (objects_blocks(objs) + seq![
                    BlockV::Mark,
                ])[i]);
            }
        }
        assert(object_valid(o0));
        lemma_object_roundtrip_at(blocks, pos, o0.key, o0.payload);
        assert(ObjectV { key: o0.key, payload: o0.payload } == o0);
        let next = pos + len0;
        assert(blocks.subrange(next, next + objects_blocks(objs.skip(1)).len() + 1)
            =~= objects_blocks(objs.skip(1)) + seq![BlockV::Mark]) by {
            assert forall|i: int|
                0 <= i < objects_blocks(objs.skip(1)).len() + 1 implies blocks.subrange(
                next,
                next + objects_blocks(objs.skip(1)).len() + 1,
            )[i] == (objects_blocks(objs.skip(1)) + seq![BlockV::Mark])[i] by {
                assert(blocks.subrange(pos, pos + total + 1)[i + len0] == (objects_blocks(objs)
                    + seq![BlockV::Mark])[i + len0]);
            }
        }
        assert(forall|i: int|
            0 <= i < objs.skip(1).len() ==> object_valid(#[trigger] objs.skip(1)[i]));
        lemma_objects_roundtrip_at(blocks, next, objs.skip(1));
        assert(blocks[pos] == ob0[0]) by {
            assert(blocks.subrange(pos, pos + len0)[0] == ob0[0]);
        }
        assert(blocks[pos] is Data);
        assert(seq![o0] + objs.skip(1) =~= objs);
    }
}

/// Law (round trip, one archive): the blocks for an archive parse back
/// to exactly that archive.
pub proof fn lemma_archive_roundtrip_at(blocks: Seq<BlockV>, pos: int, a: ArchiveV)
    requires
        archive_valid(a),
        0 <= pos,
        pos + archive_blocks(a).len() <= blocks.len(),
        blocks.subrange(pos, pos + archive_blocks(a).len() as int) == archive_blocks(a),
    ensures
        parse_archive_at(blocks, pos) == Some((a, pos + archive_blocks(a).len())),
{
    let al = archive_blocks(a).len() as int;
    let ol = objects_blocks(a.objects).len() as int;
    assert(al == 1 + ol + 1);
    assert(blocks.subrange(pos, pos + al)[0] == archive_blocks(a)[0]);
    assert(blocks[pos] == BlockV::Data(archive_header_bytes(a.header)));
    crate::format::lemma_archive_header_round_trip(a.header);
    assert(blocks.subrange(pos + 1, pos + 1 + ol + 1) =~= objects_blocks(a.objects) + seq![
        BlockV::Mark,
    ]) by {
        assert forall|i: int| 0 <= i < ol + 1 implies blocks.subrange(pos + 1, pos + 1 + ol + 1)[i]
            == (objects_blocks(a.objects) + seq![BlockV::Mark])[i] by {
            assert(blocks.subrange(pos, pos + al)[i + 1] == archive_blocks(a)[i + 1]);
        }
    }
    lemma_objects_roundtrip_at(blocks, pos + 1, a.objects);
    assert(parse_objects(blocks, pos + 1) == Some((a.objects, pos + al)));
    assert(ArchiveV { header: a.header, objects: a.objects } == a);
}

/// Law (round trip, archive run): the blocks for a run of archives,
/// ending exactly at end-of-data, parse back to exactly those archives.
pub proof fn lemma_archives_roundtrip_at(blocks: Seq<BlockV>, pos: int, s: Seq<ArchiveV>)
    requires
        forall|i: int| 0 <= i < s.len() ==> archive_valid(#[trigger] s[i]),
        0 <= pos,
        pos + archives_blocks(s).len() == blocks.len(),
        blocks.subrange(pos, blocks.len() as int) == archives_blocks(s),
    ensures
        parse_archives(blocks, pos) == Some(s),
    decreases s.len(),
{
    if s.len() == 0 {
        assert(pos == blocks.len());
        assert(s =~= Seq::<ArchiveV>::empty());
    } else {
        let a0 = s[0];
        let al0 = archive_blocks(a0).len() as int;
        let total = archives_blocks(s).len() as int;
        assert(archives_blocks(s) == archive_blocks(a0) + archives_blocks(s.skip(1)));
        assert(blocks.subrange(pos, pos + al0) =~= archive_blocks(a0)) by {
            assert forall|i: int| 0 <= i < al0 implies blocks.subrange(pos, pos + al0)[i]
                == archive_blocks(a0)[i] by {
                assert(blocks.subrange(pos, pos + total)[i] == archives_blocks(s)[i]);
            }
        }
        assert(archive_valid(a0));
        lemma_archive_roundtrip_at(blocks, pos, a0);
        let next = pos + al0;
        assert(blocks.subrange(next, blocks.len() as int) =~= archives_blocks(s.skip(1))) by {
            assert forall|i: int|
                0 <= i < archives_blocks(s.skip(1)).len() implies blocks.subrange(
                next,
                blocks.len() as int,
            )[i] == archives_blocks(s.skip(1))[i] by {
                assert(blocks.subrange(pos, pos + total)[i + al0] == archives_blocks(s)[i + al0]);
            }
        }
        assert(forall|i: int| 0 <= i < s.skip(1).len() ==> archive_valid(#[trigger] s.skip(1)[i]));
        lemma_archives_roundtrip_at(blocks, next, s.skip(1));
        assert(blocks[pos] == archive_blocks(a0)[0]) by {
            assert(blocks.subrange(pos, pos + al0)[0] == archive_blocks(a0)[0]);
        }
        assert(blocks[pos] is Data);
        assert(seq![a0] + s.skip(1) =~= s);
    }
}

/// Law (round trip, whole cartridge): a cartridge this writer lays down
/// parses back to exactly what was written. With the scan contracts this
/// says a reopened scan sees every archive and every object, in order,
/// with identical keys and payloads.
pub proof fn lemma_media_round_trip(m: MediaV)
    requires
        media_valid(m),
    ensures
        parse_media(media_blocks(m)) == Some(m),
{
    let blocks = media_blocks(m);
    assert(blocks[0] == BlockV::Data(media_header_bytes(m.header)));
    crate::format::lemma_media_header_round_trip(m.header);
    assert(blocks.subrange(1, blocks.len() as int) =~= archives_blocks(m.archives));
    lemma_archives_roundtrip_at(blocks, 1, m.archives);
    assert(MediaV { header: m.header, archives: m.archives } == m);
}

/// Law (round trip, end to end): take any cartridge, append one archive
/// holding an object under a key stored nowhere before it, and close it.
/// The grown cartridge parses back to exactly what was written, and a
/// fresh scan for that key yields exactly the appended object — payload
/// and length identical.
pub proof fn lemma_append_then_find(m: MediaV, a: ArchiveV, j: int)
    requires
        media_valid(m),
        archive_valid(a),
        0 <= j < a.objects.len(),
        forall|i: int| 0 <= i < j ==> (#[trigger] a.objects[i]).key != a.objects[j].key,
        find_in_archives(m.archives, a.objects[j].key) is None,
    ensures
        ({
            let grown = MediaV { header: m.header, archives: m.archives + seq![a] };
            &&& media_valid(grown)
            &&& parse_media(media_blocks(grown)) == Some(grown)
            &&& find_in_archives(grown.archives, a.objects[j].key) == Some(a.objects[j])
        }),
{
    let grown = MediaV { header: m.header, archives: m.archives + seq![a] };
    assert forall|i: int| 0 <= i < grown.archives.len() implies archive_valid(
        #[trigger] grown.archives[i],
    ) by {
        if i < m.archives.len() {
            assert(grown.archives[i] == m.archives[i]);
        } else {
            assert(grown.archives[i] == a);
        }
    }
    lemma_media_round_trip(grown);
    lemma_find_in_archives_append(m.archives, a, a.objects[j].key);
    lemma_find_in_objs_first(a.objects, j);
}

/// Law: a scan that parses cleanly finds exactly what the parsed object
/// run holds: the first object under the key, or a clean "absent" end at
/// the position just past the filemark.
pub proof fn lemma_find_parsed(
    blocks: Seq<BlockV>,
    pos: int,
    key: Seq<u8>,
    objs: Seq<ObjectV>,
    end: int,
)
    requires
        0 <= pos <= blocks.len(),
        parse_objects(blocks, pos) == Some((objs, end)),
    ensures
        match find_in_objs(objs, key) {
            Some(o) => find_from(blocks, pos, key) matches FindResult::Found(obj, n) && obj == o,
            None => find_from(blocks, pos, key) == FindResult::Absent(end),
        },
    decreases blocks.len() - pos,
{
    if pos == blocks.len() {
    } else if blocks[pos] is Mark {
        assert(objs =~= Seq::<ObjectV>::empty());
    } else {
        match parse_object_header(block_data(blocks[pos])) {
            Some(h) => {
                match parse_object_at(blocks, pos) {
                    Some((obj, next)) => {
                        assert(h.version == OBJECT_HEADER_VERSION);
                        assert(next == pos + 1 + chunk_count(h.object_length as nat));
                        assert(obj.key == h.key);
                        match parse_objects(blocks, next) {
                            Some((rest, e2)) => {
                                assert(objs == seq![obj] + rest);
                                assert(objs[0] == obj);
                                assert(objs.skip(1) =~= rest);
                                if obj.key == key {
                                    assert(find_from(blocks, pos, key) == FindResult::Found(
                                        obj,
                                        next,
                                    ));
                                } else {
                                    lemma_find_parsed(blocks, next, key, rest, e2);
                                }
                            },
                            None => {
                                assert(false);
                            },
                        }
                    },
                    None => {
                        assert(false);
                    },
                }
            },
            None => {
                assert(false);
            },
        }
    }
}

/// Law: the first object under a key that no earlier object carries is
/// the one a scan of the run yields.
pub proof fn lemma_find_in_objs_first(objs: Seq<ObjectV>, j: int)
    requires
        0 <= j < objs.len(),
        forall|i: int| 0 <= i < j ==> (#[trigger] objs[i]).key != objs[j].key,
    ensures
        find_in_objs(objs, objs[j].key) == Some(objs[j]),
    decreases j,
{
    if j == 0 {
    } else {
        assert(objs[0].key != objs[j].key);
        lemma_find_in_objs_first(objs.skip(1), j - 1);
        assert(objs.skip(1)[j - 1] == objs[j]);
    }
}

/// Law: appending an archive to a cartridge that does not hold a key
/// makes a later scan for that key find it in the appended archive.
pub proof fn lemma_find_in_archives_append(s: Seq<ArchiveV>, a: ArchiveV, key: Seq<u8>)
    requires
        find_in_archives(s, key) is None,
    ensures
        find_in_archives(s + seq![a], key) == find_in_objs(a.objects, key),
    decreases s.len(),
{
    if s.len() == 0 {
        assert(s + seq![a] =~= seq![a]);
        assert((s + seq![a])[0] == a);
        assert((s + seq![a]).skip(1) =~= Seq::<ArchiveV>::empty());
        assert(find_in_archives(Seq::<ArchiveV>::empty(), key) is None);
    } else {
        assert((s + seq![a])[0] == s[0]);
        assert((s + seq![a]).skip(1) =~= s.skip(1) + seq![a]);
        assert(find_in_objs(s[0].objects, key) is None);
        assert(find_in_archives(s.skip(1), key) is None);
        lemma_find_in_archives_append(s.skip(1), a, key);
    }
}

} // verus!

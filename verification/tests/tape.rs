use git_annex_remote_tape::device::TapeDevice;
use git_annex_remote_tape::error::Error;
use git_annex_remote_tape::format::{
    encode_archive_header, encode_media_header, encode_object_header, ArchiveHeader, MediaHeader,
    ObjectHeader, ARCHIVE_HEADER_VERSION, MEDIA_HEADER_MAGIC, MEDIA_HEADER_VERSION,
};
use git_annex_remote_tape::cli::TapeCommand;
use git_annex_remote_tape::device::EROFS;
use git_annex_remote_tape::tape::{retrieve, run, Drive, TapeOutcome};

fn fresh_drive() -> Drive {
    Drive::new(TapeDevice::blank())
}

/// A cartridge holding one closed archive with `a` -> `hello` and
/// `b` -> `world`.
fn two_object_cartridge() -> Drive {
    let mut drive = fresh_drive();
    drive.init_media(1111, b"testhost").unwrap();
    let media = drive.load_media().unwrap();
    // the head is after the media header, which is end-of-data here
    let mut archive = media.append_archive(&mut drive, 2222, b"testhost").unwrap();
    archive.write_object(&mut drive, b"a", b"hello").unwrap();
    archive.write_object(&mut drive, b"b", b"world").unwrap();
    archive.close(&mut drive).unwrap();
    drive
}

#[test]
fn scenario_blank_cartridge_one_archive() {
    let mut drive = fresh_drive();
    drive.init_media(1111, b"testhost").unwrap();
    let media = drive.load_media().unwrap();
    let mut archive = media.append_archive(&mut drive, 2222, b"testhost").unwrap();
    assert!(archive.writable());
    archive.write_object(&mut drive, b"a", b"hello").unwrap();
    archive.write_object(&mut drive, b"b", b"world").unwrap();
    archive.close(&mut drive).unwrap();
    assert!(!archive.writable());

    // mount fresh media: the scan starts over at the beginning
    let media = drive.load_media().unwrap();
    assert_eq!(media.header.host, b"testhost".to_vec());
    let first = media.next_archive(&mut drive).unwrap().expect("one archive");
    assert_eq!(first.header.creation_time, 2222);
    let o1 = first.next_object(&mut drive).unwrap().expect("first object");
    assert_eq!(o1.key, b"a".to_vec());
    assert_eq!(o1.payload, b"hello".to_vec());
    let o2 = first.next_object(&mut drive).unwrap().expect("second object");
    assert_eq!(o2.key, b"b".to_vec());
    assert_eq!(o2.payload, b"world".to_vec());
    assert!(first.next_object(&mut drive).unwrap().is_none());
    // exactly one archive
    assert!(media.next_archive(&mut drive).unwrap().is_none());
}

#[test]
fn round_trip_find_object() {
    let mut drive = two_object_cartridge();
    let media = drive.load_media().unwrap();
    let archive = media.next_archive(&mut drive).unwrap().unwrap();
    let found = archive.find_object(&mut drive, b"b").unwrap();
    assert_eq!(found.key, b"b".to_vec());
    assert_eq!(found.payload, b"world".to_vec());
    assert_eq!(found.payload.len(), 5);
}

#[test]
fn round_trip_retrieve() {
    let mut drive = two_object_cartridge();
    let got = retrieve(&mut drive, b"a").unwrap();
    assert_eq!(got.payload, b"hello".to_vec());
    assert_eq!(retrieve(&mut drive, b"nope"), Err(Error::KeyNotFound));
}

#[test]
fn round_trip_large_payload() {
    // spans several blocks: exercises chunked write, skip and read
    let mut big = Vec::new();
    for i in 0..70000usize {
        big.push((i % 251) as u8);
    }
    let mut drive = fresh_drive();
    drive.init_media(1, b"h").unwrap();
    let media = drive.load_media().unwrap();
    let mut archive = media.append_archive(&mut drive, 2, b"h").unwrap();
    archive.write_object(&mut drive, b"big", big.as_slice()).unwrap();
    archive.write_object(&mut drive, b"after", b"tail").unwrap();
    archive.close(&mut drive).unwrap();

    // finding the later key skips the big payload by its length field
    let got = retrieve(&mut drive, b"after").unwrap();
    assert_eq!(got.payload, b"tail".to_vec());
    let got = retrieve(&mut drive, b"big").unwrap();
    assert_eq!(got.payload, big);
}

#[test]
fn round_trip_empty_payload() {
    let mut drive = fresh_drive();
    drive.init_media(1, b"h").unwrap();
    let media = drive.load_media().unwrap();
    let mut archive = media.append_archive(&mut drive, 2, b"h").unwrap();
    archive.write_object(&mut drive, b"empty", b"").unwrap();
    archive.close(&mut drive).unwrap();
    let got = retrieve(&mut drive, b"empty").unwrap();
    assert_eq!(got.payload.len(), 0);
}

#[test]
fn duplicate_key_earliest_archive_wins() {
    let mut drive = fresh_drive();
    drive.init_media(1, b"h").unwrap();
    let media = drive.load_media().unwrap();
    let mut archive = media.append_archive(&mut drive, 2, b"h").unwrap();
    archive.write_object(&mut drive, b"k", b"first").unwrap();
    archive.close(&mut drive).unwrap();
    let mut archive = media.append_archive(&mut drive, 3, b"h").unwrap();
    archive.write_object(&mut drive, b"k", b"second").unwrap();
    archive.close(&mut drive).unwrap();
    // first-match wins: the scan meets the earlier archive first
    let got = retrieve(&mut drive, b"k").unwrap();
    assert_eq!(got.payload, b"first".to_vec());
}

#[test]
fn forward_only_positions_increase() {
    let mut drive = two_object_cartridge();
    let media = drive.load_media().unwrap();
    let mut last = drive.get_status().block_number;
    let archive = media.next_archive(&mut drive).unwrap().unwrap();
    let mut positions = Vec::new();
    positions.push(drive.get_status().block_number);
    while archive.next_object(&mut drive).unwrap().is_some() {
        positions.push(drive.get_status().block_number);
    }
    positions.push(drive.get_status().block_number);
    for p in positions {
        assert!(p > last);
        last = p;
    }
    // exhaustion stays put: it never wraps to an earlier position
    assert!(archive.next_object(&mut drive).unwrap().is_none());
    assert_eq!(drive.get_status().block_number, last);
}

#[test]
fn skip_scan_lands_where_full_scan_lands() {
    let mut drive = two_object_cartridge();
    let media = drive.load_media().unwrap();
    let archive = media.next_archive(&mut drive).unwrap().unwrap();
    while archive.next_object(&mut drive).unwrap().is_some() {}
    let full_scan_end = drive.get_status().block_number;

    let media = drive.load_media().unwrap();
    let archive = media.next_archive(&mut drive).unwrap().unwrap();
    let h1 = archive.skip_object(&mut drive).unwrap().expect("first header");
    assert_eq!(h1.key, b"a".to_vec());
    assert_eq!(h1.object_length, 5);
    let h2 = archive.skip_object(&mut drive).unwrap().expect("second header");
    assert_eq!(h2.key, b"b".to_vec());
    // declining the last payload leaves the head at the terminating
    // filemark; one more step crosses it, exactly as a full scan does
    assert!(archive.skip_object(&mut drive).unwrap().is_none());
    assert_eq!(drive.get_status().block_number, full_scan_end);
}

#[test]
fn version_gate_blocks_one_object_not_the_next_archive() {
    // first archive laid down raw: one object whose header claims a
    // version from the future; then a regular second archive
    let mut dev = TapeDevice::blank();
    dev.write_block(make_media_header().as_slice()).unwrap();
    dev.write_block(make_archive_header(2).as_slice()).unwrap();
    let bad = ObjectHeader { version: 9, object_length: 3, key: b"x".to_vec() };
    dev.write_block(encode_object_header(&bad).as_slice()).unwrap();
    dev.write_block(b"abc").unwrap();
    dev.weof(1).unwrap();
    let mut drive = Drive::new(dev);
    let media = drive.load_media().unwrap();
    media.skip_archive(&mut drive).unwrap();
    let mut archive = media.append_archive(&mut drive, 3, b"h").unwrap();
    archive.write_object(&mut drive, b"good", b"data").unwrap();
    archive.close(&mut drive).unwrap();

    // rescan: the bad object fails only its own read
    let media = drive.load_media().unwrap();
    let first = media.next_archive(&mut drive).unwrap().unwrap();
    assert_eq!(first.next_object(&mut drive), Err(Error::UnsupportedVersion));
    // the next archive is still locatable: archive framing is filemarks,
    // independent of object versions
    media.skip_archive(&mut drive).unwrap();
    let second = media.next_archive(&mut drive).unwrap().unwrap();
    let good = second.next_object(&mut drive).unwrap().unwrap();
    assert_eq!(good.key, b"good".to_vec());
    assert_eq!(good.payload, b"data".to_vec());
}

#[test]
fn append_only_at_end_of_data() {
    let mut drive = two_object_cartridge();
    let media = drive.load_media().unwrap();
    // the head stands just after the media header, not at end-of-data
    assert_eq!(
        media.append_archive(&mut drive, 9, b"h").err(),
        Some(Error::NotAtEndOfData)
    );
}

#[test]
fn init_media_refuses_recorded_media() {
    let mut drive = fresh_drive();
    drive.init_media(1, b"h").unwrap();
    assert_eq!(drive.init_media(2, b"h"), Err(Error::AlreadyInitialized));
}

#[test]
fn closed_archive_refuses_appends() {
    let mut drive = fresh_drive();
    drive.init_media(1, b"h").unwrap();
    let media = drive.load_media().unwrap();
    let mut archive = media.append_archive(&mut drive, 2, b"h").unwrap();
    archive.write_object(&mut drive, b"k", b"v").unwrap();
    archive.close(&mut drive).unwrap();
    assert_eq!(archive.write_object(&mut drive, b"k2", b"v2"), Err(Error::ArchiveClosed));
    assert_eq!(archive.close(&mut drive), Err(Error::ArchiveClosed));
}

#[test]
fn mount_of_blank_media_fails() {
    let mut drive = fresh_drive();
    assert_eq!(drive.load_media().err(), Some(Error::MalformedHeader));
}

fn make_media_header() -> Vec<u8> {
    encode_media_header(&MediaHeader {
        version: MEDIA_HEADER_VERSION,
        magic: MEDIA_HEADER_MAGIC,
        creation_time: 1,
        host: b"h".to_vec(),
    })
}

fn make_archive_header(creation_time: u64) -> Vec<u8> {
    encode_archive_header(&ArchiveHeader {
        version: ARCHIVE_HEADER_VERSION,
        creation_time,
        host: b"h".to_vec(),
    })
}

#[test]
fn tape_command_dispatch() {
    let mut drive = fresh_drive();
    match run(&TapeCommand::Info {}, &mut drive, 0, b"h").unwrap() {
        TapeOutcome::Report(s) => assert!(s.bot && s.eod),
        _ => panic!("expected a status report"),
    }
    run(&TapeCommand::Init {}, &mut drive, 7, b"h").unwrap();
    assert_eq!(
        run(&TapeCommand::Init {}, &mut drive, 8, b"h").err(),
        Some(Error::AlreadyInitialized)
    );
    let media = drive.load_media().unwrap();
    assert_eq!(media.header.creation_time, 7);
    run(&TapeCommand::Erase { secure: false }, &mut drive, 0, b"h").unwrap();
    assert_eq!(drive.load_media().err(), Some(Error::MalformedHeader));
}

#[test]
fn write_protected_cartridge_faults_initialization() {
    let mut dev = TapeDevice::blank();
    dev.set_write_protect(true);
    let mut drive = Drive::new(dev);
    assert_eq!(drive.init_media(1, b"h"), Err(Error::DeviceFault(EROFS)));
}

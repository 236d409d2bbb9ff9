use git_annex_remote_tape::device::{ReadOutcome, TapeDevice, EIO, EROFS};
use git_annex_remote_tape::error::Error;

#[test]
fn blank_tape_reads_end_of_data() {
    let mut dev = TapeDevice::blank();
    assert!(matches!(dev.read_block(), ReadOutcome::End));
    let st = dev.get_status();
    assert!(st.bot && st.eod && st.online && !st.write_protect);
    assert_eq!(st.block_number, 0);
    assert_eq!(st.file_number, 0);
}

#[test]
fn write_then_read_back() {
    let mut dev = TapeDevice::blank();
    dev.write_block(b"hello").unwrap();
    dev.rewind();
    match dev.read_block() {
        ReadOutcome::Data(d) => assert_eq!(d, b"hello".to_vec()),
        _ => panic!("expected a data block"),
    }
    assert!(matches!(dev.read_block(), ReadOutcome::End));
}

#[test]
fn a_write_destroys_everything_after_the_head() {
    let mut dev = TapeDevice::blank();
    dev.write_block(b"one").unwrap();
    dev.write_block(b"two").unwrap();
    dev.rewind();
    dev.write_block(b"new").unwrap();
    // the second old block is gone: the head is at end-of-data
    assert!(matches!(dev.read_block(), ReadOutcome::End));
    let st = dev.get_status();
    assert_eq!(st.block_number, 1);
}

#[test]
fn filemarks_and_forward_spacing() {
    let mut dev = TapeDevice::blank();
    dev.write_block(b"a1").unwrap();
    dev.weof(1).unwrap();
    dev.write_block(b"b1").unwrap();
    dev.write_block(b"b2").unwrap();
    dev.weof(2).unwrap();
    dev.rewind();
    dev.fsf(1).unwrap();
    match dev.read_block() {
        ReadOutcome::Data(d) => assert_eq!(d, b"b1".to_vec()),
        _ => panic!("expected the block after the first filemark"),
    }
    // only two marks remain ahead; a third is not there
    assert_eq!(dev.fsf(3), Err(Error::DeviceFault(EIO)));
    let st = dev.get_status();
    assert!(st.eod);
}

#[test]
fn record_spacing_stops_at_filemarks() {
    let mut dev = TapeDevice::blank();
    dev.write_block(b"a1").unwrap();
    dev.write_block(b"a2").unwrap();
    dev.weof(1).unwrap();
    dev.rewind();
    dev.fsr(2).unwrap();
    assert_eq!(dev.tell(), 2);
    // the filemark stops further record spacing
    assert_eq!(dev.fsr(1), Err(Error::DeviceFault(EIO)));
    assert_eq!(dev.tell(), 2);
    dev.bsr(2).unwrap();
    assert_eq!(dev.tell(), 0);
}

#[test]
fn backward_filemark_spacing() {
    let mut dev = TapeDevice::blank();
    dev.write_block(b"a1").unwrap();
    dev.weof(1).unwrap();
    dev.write_block(b"b1").unwrap();
    dev.weof(1).unwrap();
    // head at end-of-data; one mark back lands right before that mark
    dev.bsf(1).unwrap();
    assert_eq!(dev.tell(), 3);
    assert!(matches!(dev.read_block(), ReadOutcome::Mark));
    dev.rewind();
    assert_eq!(dev.bsf(1), Err(Error::DeviceFault(EIO)));
}

#[test]
fn write_protect_faults_all_writes() {
    let mut dev = TapeDevice::blank();
    dev.set_write_protect(true);
    assert_eq!(dev.write_block(b"x"), Err(Error::DeviceFault(EROFS)));
    assert_eq!(dev.weof(1), Err(Error::DeviceFault(EROFS)));
    assert_eq!(dev.erase(false), Err(Error::DeviceFault(EROFS)));
    let st = dev.get_status();
    assert!(st.write_protect);
}

#[test]
fn seek_and_tell() {
    let mut dev = TapeDevice::blank();
    dev.write_block(b"a").unwrap();
    dev.write_block(b"b").unwrap();
    dev.seek(1).unwrap();
    assert_eq!(dev.tell(), 1);
    assert_eq!(dev.seek(5), Err(Error::DeviceFault(EIO)));
    dev.eom();
    assert_eq!(dev.tell(), 2);
}

#[test]
fn erase_leaves_nothing() {
    let mut dev = TapeDevice::blank();
    dev.write_block(b"a").unwrap();
    dev.weof(1).unwrap();
    dev.erase(true).unwrap();
    let st = dev.get_status();
    assert!(st.bot && st.eod);
    assert!(matches!(dev.read_block(), ReadOutcome::End));
}

#[test]
fn status_counts_filemarks_before_the_head() {
    let mut dev = TapeDevice::blank();
    dev.write_block(b"a").unwrap();
    dev.weof(1).unwrap();
    dev.write_block(b"b").unwrap();
    dev.weof(1).unwrap();
    dev.seek(3).unwrap();
    let st = dev.get_status();
    assert_eq!(st.file_number, 1);
    assert_eq!(st.block_number, 3);
}

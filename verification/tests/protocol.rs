use git_annex_remote_tape::command::Command;
use git_annex_remote_tape::error::Error;
use git_annex_remote_tape::extension::{Extension, ExtensionSet};
use git_annex_remote_tape::mt::{parse_hex_u32, tape_mode, tape_nr};
use git_annex_remote_tape::mtio::{MTCmd, MTType};

#[test]
fn command_tokens_round_trip() {
    let all = [
        Command::InitRemote,
        Command::Extensions,
        Command::Prepare,
        Command::Transfer,
        Command::CheckPresent,
        Command::Remove,
        Command::ListConfigs,
        Command::ExportSupported,
        Command::GetCost,
        Command::GetOrdered,
        Command::GetAvailability,
        Command::GetInfo,
    ];
    for c in all {
        let bytes = c.to_bytes();
        assert_eq!(Command::from_str(bytes.as_slice()), Ok(c));
    }
    assert_eq!(Command::from_str(b"INITREMOTE"), Ok(Command::InitRemote));
    assert_eq!(Command::from_str(b"GETCOST"), Ok(Command::GetCost));
}

#[test]
fn unknown_command_is_invalid() {
    assert_eq!(Command::from_str(b"NOPE"), Err(Error::InvalidCommand));
    assert_eq!(Command::from_str(b""), Err(Error::InvalidCommand));
    assert_eq!(Command::from_str(b"initremote"), Err(Error::InvalidCommand));
}

#[test]
fn extension_tokens_round_trip() {
    assert_eq!(Extension::from_str(b"INFO"), Ok(Extension::Info));
    assert_eq!(Extension::from_str(b"ASYNC"), Ok(Extension::Async));
    assert_eq!(Extension::from_str(b"GETGITREMOTENAME"), Ok(Extension::GetGitRemoteName));
    assert_eq!(Extension::from_str(b"UNAVAILABLERESPONSE"), Ok(Extension::UnavailableResponse));
    assert_eq!(Extension::from_str(b"OTHER"), Err(Error::InvalidArguments));
}

#[test]
fn extension_line_parses_into_a_set() {
    let set = Extension::from_strs(b"INFO ASYNC").unwrap();
    assert!(set.contains(Extension::Info));
    assert!(set.contains(Extension::Async));
    assert!(!set.contains(Extension::GetGitRemoteName));
    assert!(!set.contains(Extension::UnavailableResponse));
}

#[test]
fn extension_line_tolerates_extra_whitespace() {
    let set = Extension::from_strs(b"  INFO\t\tUNAVAILABLERESPONSE  ").unwrap();
    assert!(set.contains(Extension::Info));
    assert!(set.contains(Extension::UnavailableResponse));
    assert!(!set.contains(Extension::Async));
}

#[test]
fn extension_line_rejects_unknown_words() {
    assert_eq!(Extension::from_strs(b"INFO BOGUS"), Err(Error::InvalidArguments));
}

#[test]
fn empty_extension_line_is_the_empty_set() {
    let set = Extension::from_strs(b"").unwrap();
    assert_eq!(set, ExtensionSet::new());
}

#[test]
fn extension_set_insert_and_contains() {
    let mut set = ExtensionSet::new();
    set.insert(Extension::GetGitRemoteName);
    assert!(set.contains(Extension::GetGitRemoteName));
    assert!(!set.contains(Extension::Info));
}

#[test]
fn minor_number_decoding() {
    // unit 0, mode 0
    assert_eq!(tape_nr(0), 0);
    assert_eq!(tape_mode(0), 0);
    // mode bits sit at bit five
    assert_eq!(tape_mode(96), 3);
    assert_eq!(tape_mode(32), 1);
    // low five bits and the bits above the low byte join into the unit
    assert_eq!(tape_nr(31), 31);
    assert_eq!(tape_nr(256), 1);
    assert_eq!(tape_nr(256 + 5), 5);
    assert_eq!(tape_nr(512 + 1), 3);
}

#[test]
fn hex_options_parse() {
    assert_eq!(parse_hex_u32(b"0"), Some(0));
    assert_eq!(parse_hex_u32(b"10"), Some(16));
    assert_eq!(parse_hex_u32(b"deadBEEF"), Some(0xdeadbeef));
    assert_eq!(parse_hex_u32(b"ffffffff"), Some(u32::MAX));
    assert_eq!(parse_hex_u32(b"100000000"), None);
    assert_eq!(parse_hex_u32(b""), None);
    assert_eq!(parse_hex_u32(b"12g4"), None);
}

#[test]
fn device_command_codes() {
    assert_eq!(MTCmd::MTRESET.code(), 0);
    assert_eq!(MTCmd::MTFSF.code(), 1);
    assert_eq!(MTCmd::MTWEOF.code(), 5);
    assert_eq!(MTCmd::MTREW.code(), 6);
    assert_eq!(MTCmd::MTEOM.code(), 12);
    assert_eq!(MTCmd::MTSETBLK.code(), 20);
    assert_eq!(MTCmd::MTWEOFI.code(), 35);
}

#[test]
fn drive_type_codes_round_trip() {
    assert_eq!(MTType::from_code(0x71), Some(MTType::MT_ISSCSI1));
    assert_eq!(MTType::from_code(0x72), Some(MTType::MT_ISSCSI2));
    assert_eq!(MTType::MT_ISDDS1.code(), 0x51);
    assert_eq!(MTType::from_code(0x0B), None);
}

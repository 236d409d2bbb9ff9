use vstd::prelude::*;

use crate::error::Error;
use crate::util::bytes_eq;

verus! {

/// The requests of the line-oriented control protocol this remote
/// serves, named by their wire tokens.
#[derive(Clone, Copy, Debug, PartialEq, Eq, Structural)]
pub enum Command {
    InitRemote,
    Extensions,
    Prepare,
    Transfer,
    CheckPresent,
    Remove,
    ListConfigs,
    ExportSupported,
    GetCost,
    GetOrdered,
    GetAvailability,
    GetInfo,
}

/// The wire token of each command.
pub open spec fn command_token(c: Command) -> Seq<u8> {
    match c {
        Command::InitRemote => seq!['I' as u8, 'N' as u8, 'I' as u8, 'T' as u8, 'R' as u8, 'E' as u8, 'M' as u8, 'O' as u8, 'T' as u8, 'E' as u8],
        Command::Extensions => seq!['E' as u8, 'X' as u8, 'T' as u8, 'E' as u8, 'N' as u8, 'S' as u8, 'I' as u8, 'O' as u8, 'N' as u8, 'S' as u8],
        Command::Prepare => seq!['P' as u8, 'R' as u8, 'E' as u8, 'P' as u8, 'A' as u8, 'R' as u8, 'E' as u8],
        Command::Transfer => seq!['T' as u8, 'R' as u8, 'A' as u8, 'N' as u8, 'S' as u8, 'F' as u8, 'E' as u8, 'R' as u8],
        Command::CheckPresent => seq!['C' as u8, 'H' as u8, 'E' as u8, 'C' as u8, 'K' as u8, 'P' as u8, 'R' as u8, 'E' as u8, 'S' as u8, 'E' as u8, 'N' as u8, 'T' as u8],
        Command::Remove => seq!['R' as u8, 'E' as u8, 'M' as u8, 'O' as u8, 'V' as u8, 'E' as u8],
        Command::ListConfigs => seq!['L' as u8, 'I' as u8, 'S' as u8, 'T' as u8, 'C' as u8, 'O' as u8, 'N' as u8, 'F' as u8, 'I' as u8, 'G' as u8, 'S' as u8],
        Command::ExportSupported => seq!['E' as u8, 'X' as u8, 'P' as u8, 'O' as u8, 'R' as u8, 'T' as u8, 'S' as u8, 'U' as u8, 'P' as u8, 'P' as u8, 'O' as u8, 'R' as u8, 'T' as u8, 'E' as u8, 'D' as u8],
        Command::GetCost => seq!['G' as u8, 'E' as u8, 'T' as u8, 'C' as u8, 'O' as u8, 'S' as u8, 'T' as u8],
        Command::GetOrdered => seq!['G' as u8, 'E' as u8, 'T' as u8, 'O' as u8, 'R' as u8, 'D' as u8, 'E' as u8, 'R' as u8, 'E' as u8, 'D' as u8],
        Command::GetAvailability => seq!['G' as u8, 'E' as u8, 'T' as u8, 'A' as u8, 'V' as u8, 'A' as u8, 'I' as u8, 'L' as u8, 'A' as u8, 'B' as u8, 'I' as u8, 'L' as u8, 'I' as u8, 'T' as u8, 'Y' as u8],
        Command::GetInfo => seq!['G' as u8, 'E' as u8, 'T' as u8, 'I' as u8, 'N' as u8, 'F' as u8, 'O' as u8],
    }
}

impl Command {
    /// The command's wire token, as bytes.
    pub fn to_bytes(&self) -> (r: Vec<u8>)
        ensures
            r@ == command_token(*self),
    {
        let mut v: Vec<u8> = Vec::new();
        match self {
            Command::InitRemote => {
                v.push('I' as u8);
                v.push('N' as u8);
                v.push('I' as u8);
                v.push('T' as u8);
                v.push('R' as u8);
                v.push('E' as u8);
                v.push('M' as u8);
                v.push('O' as u8);
                v.push('T' as u8);
                v.push('E' as u8);
            },
            Command::Extensions => {
                v.push('E' as u8);
                v.push('X' as u8);
                v.push('T' as u8);
                v.push('E' as u8);
                v.push('N' as u8);
                v.push('S' as u8);
                v.push('I' as u8);
                v.push('O' as u8);
                v.push('N' as u8);
                v.push('S' as u8);
            },
            Command::Prepare => {
                v.push('P' as u8);
                v.push('R' as u8);
                v.push('E' as u8);
                v.push('P' as u8);
                v.push('A' as u8);
                v.push('R' as u8);
                v.push('E' as u8);
            },
            Command::Transfer => {
                v.push('T' as u8);
                v.push('R' as u8);
                v.push('A' as u8);
                v.push('N' as u8);
                v.push('S' as u8);
                v.push('F' as u8);
                v.push('E' as u8);
                v.push('R' as u8);
            },
            Command::CheckPresent => {
                v.push('C' as u8);
                v.push('H' as u8);
                v.push('E' as u8);
                v.push('C' as u8);
                v.push('K' as u8);
                v.push('P' as u8);
                v.push('R' as u8);
                v.push('E' as u8);
                v.push('S' as u8);
                v.push('E' as u8);
                v.push('N' as u8);
                v.push('T' as u8);
            },
            Command::Remove => {
                v.push('R' as u8);
                v.push('E' as u8);
                v.push('M' as u8);
                v.push('O' as u8);
                v.push('V' as u8);
                v.push('E' as u8);
            },
            Command::ListConfigs => {
                v.push('L' as u8);
                v.push('I' as u8);
                v.push('S' as u8);
                v.push('T' as u8);
                v.push('C' as u8);
                v.push('O' as u8);
                v.push('N' as u8);
                v.push('F' as u8);
                v.push('I' as u8);
                v.push('G' as u8);
                v.push('S' as u8);
            },
            Command::ExportSupported => {
                v.push('E' as u8);
                v.push('X' as u8);
                v.push('P' as u8);
                v.push('O' as u8);
                v.push('R' as u8);
                v.push('T' as u8);
                v.push('S' as u8);
                v.push('U' as u8);
                v.push('P' as u8);
                v.push('P' as u8);
                v.push('O' as u8);
                v.push('R' as u8);
                v.push('T' as u8);
                v.push('E' as u8);
                v.push('D' as u8);
            },
            Command::GetCost => {
                v.push('G' as u8);
                v.push('E' as u8);
                v.push('T' as u8);
                v.push('C' as u8);
                v.push('O' as u8);
                v.push('S' as u8);
                v.push('T' as u8);
            },
            Command::GetOrdered => {
                v.push('G' as u8);
                v.push('E' as u8);
                v.push('T' as u8);
                v.push('O' as u8);
                v.push('R' as u8);
                v.push('D' as u8);
                v.push('E' as u8);
                v.push('R' as u8);
                v.push('E' as u8);
                v.push('D' as u8);
            },
            Command::GetAvailability => {
                v.push('G' as u8);
                v.push('E' as u8);
                v.push('T' as u8);
                v.push('A' as u8);
                v.push('V' as u8);
                v.push('A' as u8);
                v.push('I' as u8);
                v.push('L' as u8);
                v.push('A' as u8);
                v.push('B' as u8);
                v.push('I' as u8);
                v.push('L' as u8);
                v.push('I' as u8);
                v.push('T' as u8);
                v.push('Y' as u8);
            },
            Command::GetInfo => {
                v.push('G' as u8);
                v.push('E' as u8);
                v.push('T' as u8);
                v.push('I' as u8);
                v.push('N' as u8);
                v.push('F' as u8);
                v.push('O' as u8);
            },
        }
        proof {
            assert(v@ =~= command_token(*self));
        }
        v
    }

    /// Parse one wire token. `InvalidCommand` exactly when the bytes are
    /// no command's token.
    pub fn from_str(s: &[u8]) -> (r: Result<Command, Error>)
        ensures
            match r {
                Ok(c) => s@ == command_token(c),
                Err(e) => e == Error::InvalidCommand && forall|c: Command| s@ != command_token(c),
            },
    {
    let t = Command::InitRemote.to_bytes();
    if bytes_eq(s, t.as_slice()) {
        return Ok(Command::InitRemote);
    }
    let t = Command::Extensions.to_bytes();
    if bytes_eq(s, t.as_slice()) {
        return Ok(Command::Extensions);
    }
    let t = Command::Prepare.to_bytes();
    if bytes_eq(s, t.as_slice()) {
        return Ok(Command::Prepare);
    }
    let t = Command::Transfer.to_bytes();
    if bytes_eq(s, t.as_slice()) {
        return Ok(Command::Transfer);
    }
    let t = Command::CheckPresent.to_bytes();
    if bytes_eq(s, t.as_slice()) {
        return Ok(Command::CheckPresent);
    }
    let t = Command::Remove.to_bytes();
    if bytes_eq(s, t.as_slice()) {
        return Ok(Command::Remove);
    }
    let t = Command::ListConfigs.to_bytes();
    if bytes_eq(s, t.as_slice()) {
        return Ok(Command::ListConfigs);
    }
    let t = Command::ExportSupported.to_bytes();
    if bytes_eq(s, t.as_slice()) {
        return Ok(Command::ExportSupported);
    }
    let t = Command::GetCost.to_bytes();
    if bytes_eq(s, t.as_slice()) {
        return Ok(Command::GetCost);
    }
    let t = Command::GetOrdered.to_bytes();
    if bytes_eq(s, t.as_slice()) {
        return Ok(Command::GetOrdered);
    }
    let t = Command::GetAvailability.to_bytes();
    if bytes_eq(s, t.as_slice()) {
        return Ok(Command::GetAvailability);
    }
    let t = Command::GetInfo.to_bytes();
    if bytes_eq(s, t.as_slice()) {
        return Ok(Command::GetInfo);
    }
    proof {
        assert forall|c: Command| s@ != command_token(c) by {
            match c {
            Command::InitRemote => {},
            Command::Extensions => {},
            Command::Prepare => {},
            Command::Transfer => {},
            Command::CheckPresent => {},
            Command::Remove => {},
            Command::ListConfigs => {},
            Command::ExportSupported => {},
            Command::GetCost => {},
            Command::GetOrdered => {},
            Command::GetAvailability => {},
            Command::GetInfo => {},
            }
        }
    }
    Err(Error::InvalidCommand)
    }
}

} // verus!

use vstd::prelude::*;

verus! {

/// The command-line surface: a debug verbosity flag and an optional
/// subcommand group. Without a subcommand the program runs as a protocol
/// remote on its standard streams.
#[derive(Clone, Debug)]
pub struct Cli {
    pub debug: u8,
    pub command: Option<Command>,
}

/// The two operator-facing subcommand groups.
#[derive(Clone, Debug)]
pub enum Command {
    Tape { command: Option<TapeCommand> },
    Jobs { command: Option<JobCommand> },
}

/// Cartridge maintenance: initialize a blank cartridge, erase one, or
/// report on it.
#[derive(Clone, Debug)]
pub enum TapeCommand {
    Init {},
    Erase { secure: bool },
    Info {},
}

/// Retrieval job operations, on one job by id or over all jobs.
#[derive(Clone, Debug)]
pub enum JobCommand {
    Info { job_id: u32 },
    List {},
    Start { job_id: Option<u32> },
    Drop { job_id: Option<u32> },
}

} // verus!

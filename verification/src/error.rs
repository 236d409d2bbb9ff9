use vstd::prelude::*;

verus! {

/// Failure taxonomy of the tape archive core.
///
/// Device errors propagate unmodified through the drive, media and archive
/// layers; only the job manager converts them into terminal job state.
#[derive(Clone, Copy, Debug, PartialEq, Eq, Structural)]
pub enum Error {
    /// A device operation failed; carries the OS error code.
    DeviceFault(i32),
    /// An append was attempted somewhere other than end-of-data.
    NotAtEndOfData,
    /// Media initialization found the cartridge already holds data.
    AlreadyInitialized,
    /// A header carries a version newer than this reader understands.
    UnsupportedVersion,
    /// A header's bytes do not form a well-formed record.
    MalformedHeader,
    /// An append was attempted on an archive whose filemark is already written.
    ArchiveClosed,
    /// A forward scan ended without meeting the requested key.
    KeyNotFound,
    /// No retrieval job carries the requested id.
    JobNotFound,
    /// A job was asked to make a transition its state does not allow.
    InvalidJobState,
    /// A job was still marked running when the queue was reloaded: the
    /// process stopped between starting the job and finishing it.
    Interrupted,
    /// A protocol line opened with a token that is no known command.
    InvalidCommand,
    /// A protocol line carried arguments of the wrong shape.
    InvalidArguments,
}

} // verus!

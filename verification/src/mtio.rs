use vstd::prelude::*;

verus! {

/// The operations of the magnetic tape driver's control interface. The
/// layer that issues the device control call maps each to its command
/// code through [`MTCmd::code`].
#[derive(Clone, Copy, Debug, PartialEq, Eq, Structural)]
pub enum MTCmd {
    /// Reset drive in case of problems.
    MTRESET,
    /// Forward space over a filemark, to the first record of the next file.
    MTFSF,
    /// Backward space over a filemark, to before the mark.
    MTBSF,
    /// Forward space one record.
    MTFSR,
    /// Backward space one record.
    MTBSR,
    /// Write an end-of-file record (filemark).
    MTWEOF,
    /// Rewind.
    MTREW,
    /// Rewind and put the drive offline.
    MTOFFL,
    /// No operation, sets status only.
    MTNOP,
    /// Retension the tape.
    MTRETEN,
    /// Backward space over a filemark, to the mark.
    MTBSFM,
    /// Forward space over a filemark, to the mark.
    MTFSFM,
    /// Go to the end of the recorded medium, for appending.
    MTEOM,
    /// Erase the tape.
    MTERASE,
    /// Run self test one, nondestructive.
    MTRAS1,
    /// Run self test two, destructive.
    MTRAS2,
    /// Reserved for self test three.
    MTRAS3,
    /// Set the block length.
    MTSETBLK,
    /// Set the tape density.
    MTSETDENSITY,
    /// Seek to a block.
    MTSEEK,
    /// Tell the current block.
    MTTELL,
    /// Set the drive buffering.
    MTSETDRVBUFFER,
    /// Space forward over setmarks.
    MTFSS,
    /// Space backward over setmarks.
    MTBSS,
    /// Write setmarks.
    MTWSM,
    /// Lock the drive door.
    MTLOCK,
    /// Unlock the drive door.
    MTUNLOCK,
    /// Execute the SCSI load command.
    MTLOAD,
    /// Execute the SCSI unload command.
    MTUNLOAD,
    /// Control compression.
    MTCOMPRESSION,
    /// Change the active tape partition.
    MTSETPART,
    /// Format the tape with one or two partitions.
    MTMKPART,
    /// Write an end-of-file record in immediate mode.
    MTWEOFI,
}

/// The command code of each operation, as the driver's header defines
/// them.
pub open spec fn mt_cmd_code(c: MTCmd) -> i16 {
    match c {
            MTCmd::MTRESET => 0,
            MTCmd::MTFSF => 1,
            MTCmd::MTBSF => 2,
            MTCmd::MTFSR => 3,
            MTCmd::MTBSR => 4,
            MTCmd::MTWEOF => 5,
            MTCmd::MTREW => 6,
            MTCmd::MTOFFL => 7,
            MTCmd::MTNOP => 8,
            MTCmd::MTRETEN => 9,
            MTCmd::MTBSFM => 10,
            MTCmd::MTFSFM => 11,
            MTCmd::MTEOM => 12,
            MTCmd::MTERASE => 13,
            MTCmd::MTRAS1 => 14,
            MTCmd::MTRAS2 => 15,
            MTCmd::MTRAS3 => 16,
            MTCmd::MTSETBLK => 20,
            MTCmd::MTSETDENSITY => 21,
            MTCmd::MTSEEK => 22,
            MTCmd::MTTELL => 23,
            MTCmd::MTSETDRVBUFFER => 24,
            MTCmd::MTFSS => 25,
            MTCmd::MTBSS => 26,
            MTCmd::MTWSM => 27,
            MTCmd::MTLOCK => 28,
            MTCmd::MTUNLOCK => 29,
            MTCmd::MTLOAD => 30,
            MTCmd::MTUNLOAD => 31,
            MTCmd::MTCOMPRESSION => 32,
            MTCmd::MTSETPART => 33,
            MTCmd::MTMKPART => 34,
            MTCmd::MTWEOFI => 35,
    }
}

impl MTCmd {
    /// The operation's command code for the control call.
    pub fn code(&self) -> (r: i16)
        ensures
            r == mt_cmd_code(*self),
    {
        match self {
            MTCmd::MTRESET => 0,
            MTCmd::MTFSF => 1,
            MTCmd::MTBSF => 2,
            MTCmd::MTFSR => 3,
            MTCmd::MTBSR => 4,
            MTCmd::MTWEOF => 5,
            MTCmd::MTREW => 6,
            MTCmd::MTOFFL => 7,
            MTCmd::MTNOP => 8,
            MTCmd::MTRETEN => 9,
            MTCmd::MTBSFM => 10,
            MTCmd::MTFSFM => 11,
            MTCmd::MTEOM => 12,
            MTCmd::MTERASE => 13,
            MTCmd::MTRAS1 => 14,
            MTCmd::MTRAS2 => 15,
            MTCmd::MTRAS3 => 16,
            MTCmd::MTSETBLK => 20,
            MTCmd::MTSETDENSITY => 21,
            MTCmd::MTSEEK => 22,
            MTCmd::MTTELL => 23,
            MTCmd::MTSETDRVBUFFER => 24,
            MTCmd::MTFSS => 25,
            MTCmd::MTBSS => 26,
            MTCmd::MTWSM => 27,
            MTCmd::MTLOCK => 28,
            MTCmd::MTUNLOCK => 29,
            MTCmd::MTLOAD => 30,
            MTCmd::MTUNLOAD => 31,
            MTCmd::MTCOMPRESSION => 32,
            MTCmd::MTSETPART => 33,
            MTCmd::MTMKPART => 34,
            MTCmd::MTWEOFI => 35,
        }
    }
}

/// The drive types a status query may report, named as the driver's
/// header names them.
#[allow(non_camel_case_types)]
#[derive(Clone, Copy, Debug, PartialEq, Eq, Structural)]
pub enum MTType {
    MT_ISUNKNOWN,
    MT_ISQIC02,
    MT_ISWT5150,
    MT_ISARCHIVE_5945L2,
    MT_ISCMSJ500,
    MT_ISTDC3610,
    MT_ISARCHIVE_VP60I,
    MT_ISARCHIVE_2150L,
    MT_ISARCHIVE_2060L,
    MT_ISARCHIVESC499,
    MT_ISQIC02_ALL_FEATURES,
    MT_ISWT5099EEN24,
    MT_ISTEAC_MT2ST,
    MT_ISEVEREX_FT40A,
    MT_ISDDS1,
    MT_ISDDS2,
    MT_ISONSTREAM_SC,
    MT_ISSCSI1,
    MT_ISSCSI2,
}

/// The type code of each drive type.
pub open spec fn mt_type_code(t: MTType) -> i64 {
    match t {
            MTType::MT_ISUNKNOWN => 0x1,
            MTType::MT_ISQIC02 => 0x2,
            MTType::MT_ISWT5150 => 0x3,
            MTType::MT_ISARCHIVE_5945L2 => 0x4,
            MTType::MT_ISCMSJ500 => 0x5,
            MTType::MT_ISTDC3610 => 0x6,
            MTType::MT_ISARCHIVE_VP60I => 0x7,
            MTType::MT_ISARCHIVE_2150L => 0x8,
            MTType::MT_ISARCHIVE_2060L => 0x9,
            MTType::MT_ISARCHIVESC499 => 0xa,
            MTType::MT_ISQIC02_ALL_FEATURES => 0xf,
            MTType::MT_ISWT5099EEN24 => 0x11,
            MTType::MT_ISTEAC_MT2ST => 0x12,
            MTType::MT_ISEVEREX_FT40A => 0x32,
            MTType::MT_ISDDS1 => 0x51,
            MTType::MT_ISDDS2 => 0x52,
            MTType::MT_ISONSTREAM_SC => 0x61,
            MTType::MT_ISSCSI1 => 0x71,
            MTType::MT_ISSCSI2 => 0x72,
    }
}

impl MTType {
    /// The drive type's code as a status query reports it.
    pub fn code(&self) -> (r: i64)
        ensures
            r == mt_type_code(*self),
    {
        match self {
            MTType::MT_ISUNKNOWN => 0x1,
            MTType::MT_ISQIC02 => 0x2,
            MTType::MT_ISWT5150 => 0x3,
            MTType::MT_ISARCHIVE_5945L2 => 0x4,
            MTType::MT_ISCMSJ500 => 0x5,
            MTType::MT_ISTDC3610 => 0x6,
            MTType::MT_ISARCHIVE_VP60I => 0x7,
            MTType::MT_ISARCHIVE_2150L => 0x8,
            MTType::MT_ISARCHIVE_2060L => 0x9,
            MTType::MT_ISARCHIVESC499 => 0xa,
            MTType::MT_ISQIC02_ALL_FEATURES => 0xf,
            MTType::MT_ISWT5099EEN24 => 0x11,
            MTType::MT_ISTEAC_MT2ST => 0x12,
            MTType::MT_ISEVEREX_FT40A => 0x32,
            MTType::MT_ISDDS1 => 0x51,
            MTType::MT_ISDDS2 => 0x52,
            MTType::MT_ISONSTREAM_SC => 0x61,
            MTType::MT_ISSCSI1 => 0x71,
            MTType::MT_ISSCSI2 => 0x72,
        }
    }

    /// The drive type a status code stands for, if any.
    pub fn from_code(code: i64) -> (r: Option<MTType>)
        ensures
            match r {
                Some(t) => mt_type_code(t) == code,
                None => forall|t: MTType| mt_type_code(t) != code,
            },
    {
        let r = match code {
            0x1 => Some(MTType::MT_ISUNKNOWN),
            0x2 => Some(MTType::MT_ISQIC02),
            0x3 => Some(MTType::MT_ISWT5150),
            0x4 => Some(MTType::MT_ISARCHIVE_5945L2),
            0x5 => Some(MTType::MT_ISCMSJ500),
            0x6 => Some(MTType::MT_ISTDC3610),
            0x7 => Some(MTType::MT_ISARCHIVE_VP60I),
            0x8 => Some(MTType::MT_ISARCHIVE_2150L),
            0x9 => Some(MTType::MT_ISARCHIVE_2060L),
            0xa => Some(MTType::MT_ISARCHIVESC499),
            0xf => Some(MTType::MT_ISQIC02_ALL_FEATURES),
            0x11 => Some(MTType::MT_ISWT5099EEN24),
            0x12 => Some(MTType::MT_ISTEAC_MT2ST),
            0x32 => Some(MTType::MT_ISEVEREX_FT40A),
            0x51 => Some(MTType::MT_ISDDS1),
            0x52 => Some(MTType::MT_ISDDS2),
            0x61 => Some(MTType::MT_ISONSTREAM_SC),
            0x71 => Some(MTType::MT_ISSCSI1),
            0x72 => Some(MTType::MT_ISSCSI2),
            _ => None,
        };
        proof {
            if r is None {
                assert forall|t: MTType| mt_type_code(t) != code by {
                    match t {
                MTType::MT_ISUNKNOWN => {},
                MTType::MT_ISQIC02 => {},
                MTType::MT_ISWT5150 => {},
                MTType::MT_ISARCHIVE_5945L2 => {},
                MTType::MT_ISCMSJ500 => {},
                MTType::MT_ISTDC3610 => {},
                MTType::MT_ISARCHIVE_VP60I => {},
                MTType::MT_ISARCHIVE_2150L => {},
                MTType::MT_ISARCHIVE_2060L => {},
                MTType::MT_ISARCHIVESC499 => {},
                MTType::MT_ISQIC02_ALL_FEATURES => {},
                MTType::MT_ISWT5099EEN24 => {},
                MTType::MT_ISTEAC_MT2ST => {},
                MTType::MT_ISEVEREX_FT40A => {},
                MTType::MT_ISDDS1 => {},
                MTType::MT_ISDDS2 => {},
                MTType::MT_ISONSTREAM_SC => {},
                MTType::MT_ISSCSI1 => {},
                MTType::MT_ISSCSI2 => {},
                    }
                }
            }
        }
        r
    }
}

} // verus!

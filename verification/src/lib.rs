//! An in-memory model of a floppy disk image.
//!
//! The library unifies two representational levels of a track — a low-level
//! bitstream of MFM-encoded cells and a higher-level bytestream of decoded
//! sector payloads — behind one sector- and track-oriented read/write/format
//! interface.

use vstd::prelude::*;

pub mod bits;
pub mod chs;
pub mod diskimage;
pub mod mfm;
pub mod system34;
pub mod trackdata;
pub mod util;

verus! {

/// The sector payload size assumed when a disk does not say otherwise.
pub const DEFAULT_SECTOR_SIZE: usize = 512;

/// The cell-level encoding of a track's data.
#[derive(Copy, Clone, Debug, PartialEq, Eq, Structural)]
pub enum DiskDataEncoding {
    Mfm,
    Fm,
    Gcr,
}

/// The nominal data rate of a track or disk.
#[derive(Copy, Clone, Debug, PartialEq, Eq, Structural)]
pub enum DiskDataRate {
    Rate125Kbps,
    Rate250Kbps,
    Rate300Kbps,
    Rate500Kbps,
}

/// The rotation rate of a disk.
#[derive(Copy, Clone, Debug, PartialEq, Eq, Structural)]
pub enum DiskRpm {
    Rpm300,
    Rpm360,
}

/// Whether a decoded stream is synchronised on even or odd cell offsets.
#[derive(Copy, Clone, Debug, PartialEq, Eq, Structural)]
pub enum EncodingPhase {
    Even,
    Odd,
}

/// The single error kind shared by every fallible operation of the library.
///
/// CRC mismatches are never reported through this type: they are flags on a
/// successful result, so that callers can still observe the data.
#[derive(Copy, Clone, Debug, PartialEq, Eq, Structural)]
pub enum DiskImageError {
    IoError,
    SeekError,
    ParameterError,
    DataError,
    UnsupportedFormat,
    FormatParseError,
    UnknownFormat,
}

} // verus!

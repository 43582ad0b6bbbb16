//! The error every DAT reader in this crate reports.

use vstd::prelude::*;
use crate::mzb::MzbError;

verus! {

/// Why a DAT read failed.
#[derive(Debug, Clone, PartialEq, Eq)]
pub enum DatError {
    /// A chunk body shorter than the fields the reader needs.
    TruncatedChunk { offset: usize, needed: usize, available: usize },
    /// No ROM table of the install claims the file id.
    FileNotPresent { file_id: u32 },
    /// `FFXiMain.dll` carries none of the marker words a required table starts with.
    DllMarkerNotFound { hint: u32 },
    /// The directory is not, or not yet, a usable install.
    NoInstall { reason: String },
    /// A file or directory the reader needed is not there.
    Io { path: String, reason: String },
    /// A zone block body that does not hold together.
    Mzb(MzbError),
    /// A zone-interaction chunk body that does not hold together.
    Rid(String),
}

} // verus!

//! The ways an import can be refused by the rules of this library.
use vstd::prelude::*;

verus! {

/// Why an import stops.
#[derive(Clone, Copy, Debug, PartialEq, Eq, Structural)]
pub enum ImportError {
    /// The archive holds more entries than `MAX_ARCHIVE_FILES`.
    TooManyFiles,
    /// The running total of extracted bytes no longer fits in a `u64`.
    ExtractedSizeOverflow,
    /// The extracted bytes would exceed `MAX_EXTRACTED_BYTES`.
    ExtractedSizeLimit,
    /// The archive holds no `.txt` file.
    NoChatFile,
    /// A message names an attachment whose path has no file name.
    InvalidMediaFilename,
}

} // verus!

//! The error kinds the archiver can report.

use vstd::prelude::*;

verus! {

/// Everything that can go wrong while building or reading an archive.
///
/// Failures of the surrounding process (opening files, walking
/// directories, writing output) are reported by the caller that performs
/// that work; the library itself fails only for the reasons below.
#[derive(Debug)]
pub enum GmaError {
    /// Create: a file outside the fixed allow-list, with warnings
    /// disabled. Carries the offending relative path.
    EntryNotWhitelisted { relative_path: String },
    /// Create: an entry size that does not fit the signed 64-bit size
    /// field of the container.
    EntryTooLarge { relative_path: String },
    /// Extract: the input does not begin with the four magic bytes.
    InvalidMagic,
    /// Extract: an index entry declares a negative size.
    NegativeEntrySize { size: i64 },
    /// Extract: the input ended before the bytes a read needed; carries
    /// what was being read.
    UnexpectedEof { context: String },
}

} // verus!

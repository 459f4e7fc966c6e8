//! The error taxonomy of the ingestion library.
use vstd::prelude::*;

verus! {

/// Every failure the ingestion core can report.
///
/// `IoError` covers file open/read and cache persistence failures,
/// `DecodeError` a malformed tabular file (one file's decode fails, not the
/// run), `StoreWriteError` a single rejected store submission, and
/// `FatalStartupError` a cache file that is present but not valid snapshot
/// text — the only error that aborts a run before the stages start.
#[derive(Clone, Copy, PartialEq, Eq, Structural, Debug)]
pub enum ImportError {
    IoError,
    DecodeError,
    StoreWriteError,
    FatalStartupError,
}

} // verus!

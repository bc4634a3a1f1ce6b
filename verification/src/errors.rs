//! The failure taxonomy of a backup run. Fatal errors abort the run; the
//! per-segment and per-file kinds are collected by the caller instead.

use vstd::prelude::*;

verus! {

/// Why a run, a segment, or a sweep step failed.
#[derive(Clone, Copy, Debug, PartialEq, Eq, Structural)]
pub enum BackupError {
    /// Bad or missing configuration; nothing was attempted.
    Config,
    /// The source path does not exist or is not a directory.
    Filesystem,
    /// The archive container could not be written; the run aborts and any
    /// partial segment files stay on disk for inspection.
    Archive,
    /// The credentials could not be resolved; no upload is attempted.
    Credential,
    /// One segment's transfer failed; other segments are still attempted.
    Upload,
    /// One staged file could not be deleted; the sweep of the rest goes on.
    Retention,
}

impl BackupError {
    /// A short stable name for reporting.
    pub fn describe(&self) -> &'static str {
        match self {
            BackupError::Config => "configuration error",
            BackupError::Filesystem => "source path invalid",
            BackupError::Archive => "archive container write failed",
            BackupError::Credential => "credentials could not be resolved",
            BackupError::Upload => "segment upload failed",
            BackupError::Retention => "staged file could not be deleted",
        }
    }
}

} // verus!

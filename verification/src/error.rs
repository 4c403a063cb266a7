//! The crate-wide error type.
use vstd::prelude::*;

verus! {

/// Every fallible operation of the library returns `Result<T, GurokuError>`.
///
/// Errors that come from the operating system or from outside libraries
/// carry their message text (`detail`).
#[derive(Debug)]
pub enum GurokuError {
    Io { path: String, detail: String },
    IoBare(String),
    ParseManifest { path: String, detail: String },
    Json(String),
    Http(String),
    Url(String),
    PackageNotFound { name: String },
    NoMatchingVersion { name: String, spec: String },
    InvalidVersionSpec { name: String, spec: String },
    IntegrityMismatch { name: String, version: String, detail: String },
    UnsupportedIntegrity(String),
    InvalidIntegrity(String),
    Tarball(String),
    NoCacheDir,
    ResolutionConflict { name: String, chosen: String, requested: String, requested_by: String },
    LockfileVersionMismatch { found: u32, expected: u32 },
    LockfileOutOfDate,
    ScriptFailed { script: String, status: i32 },
    ScriptSpawnFailed { script: String, detail: String },
    NoSuchScript { name: String },
    WorkspaceMisconfigured(String),
    BinNotFound { name: String },
    FileDepMissingManifest { path: String },
    GitCommandFailed { url: String, detail: String },
    AuditFailed(String),
    InvalidOverride { name: String, detail: String },
    Other(String),
}

pub type Result<T> = core::result::Result<T, GurokuError>;

} // verus!

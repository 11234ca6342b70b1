//! Mounting a vault as a virtual filesystem (FUSE on Linux and macOS, Dokan
//! on Windows). Neither backend is implemented: every call reports that the
//! operation is not supported.
pub mod dokan;
pub mod fuse;

pub use fuse as platform;

use vstd::prelude::*;

verus! {

#[verifier::external_type_specification]
#[verifier::external_body]
pub struct ExPathBuf(std::path::PathBuf);

/// Errors of mounting and unmounting.
#[derive(Debug)]
pub enum FsError {
    MountFailed(String),
    UnmountFailed(String),
    NotSupported,
}

/// Where and how to mount a vault.
pub struct MountOptions {
    pub mount_point: std::path::PathBuf,
    pub read_only: bool,
    pub allow_other: bool,
}

} // verus!

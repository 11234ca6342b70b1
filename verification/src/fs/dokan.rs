//! The Dokan backend (Windows). Not implemented yet.
use vstd::prelude::*;
use crate::fs::{FsError, MountOptions};

verus! {

/// Mounts a vault; always fails with `NotSupported`.
pub fn mount(_options: MountOptions) -> (r: Result<(), FsError>)
    ensures
        r matches Err(FsError::NotSupported),
{
    Err(FsError::NotSupported)
}

/// Unmounts a vault; always fails with `NotSupported`.
pub fn unmount(_mount_point: &std::path::PathBuf) -> (r: Result<(), FsError>)
    ensures
        r matches Err(FsError::NotSupported),
{
    Err(FsError::NotSupported)
}

} // verus!

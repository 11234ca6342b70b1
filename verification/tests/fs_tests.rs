use std::path::PathBuf;

use secure_vault::fs::{dokan, fuse, platform, FsError, MountOptions};

fn options() -> MountOptions {
    MountOptions { mount_point: PathBuf::from("/mnt/vault"), read_only: true, allow_other: false }
}

#[test]
fn mounting_is_not_supported() {
    assert!(matches!(fuse::mount(options()), Err(FsError::NotSupported)));
    assert!(matches!(dokan::mount(options()), Err(FsError::NotSupported)));
    assert!(matches!(platform::mount(options()), Err(FsError::NotSupported)));
}

#[test]
fn unmounting_is_not_supported() {
    let p = PathBuf::from("/mnt/vault");
    assert!(matches!(fuse::unmount(&p), Err(FsError::NotSupported)));
    assert!(matches!(dokan::unmount(&p), Err(FsError::NotSupported)));
    assert!(matches!(platform::unmount(&p), Err(FsError::NotSupported)));
}

//! Installer and boot-entry logic for bootable container images: kernel
//! command lines, Boot Loader Specification and GRUB entries, block devices
//! and loopback handling, image references, the files a deployment writes
//! (entries, origin, GRUB configuration), the target root checks, and the
//! deployment slots a status reports.
use vstd::prelude::*;

pub mod aleph;
pub mod blockdev;
pub mod bls;
pub mod bls_laws;
pub mod cmdline;
pub mod deploy;
pub mod digest;
pub mod fetch;
pub mod grub;
pub mod grub_laws;
pub mod host;
pub mod image;
pub mod iterators;
pub mod mount;
pub mod origin;
pub mod path;
pub mod rootfs;
pub mod text;
pub mod verity;

verus! {

} // verus!

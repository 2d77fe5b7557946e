//! Files: what the kernel asks of an open file, and the file system on a
//! block device.

pub mod bitmap;
pub mod block_dev;
pub mod efs;
pub mod layout;

pub use bitmap::Bitmap;
pub use block_dev::{BlockDevice, RamDisk, BLOCK_SZ};
pub use efs::EasyFileSystem;

use vstd::prelude::*;
use crate::task::process::FileDescriptor;

verus! {

/// An open file as the system calls see it: they ask whether it can be
/// read and written before they hand bytes over.
pub trait File {
    /// Whether the file can be read.
    spec fn can_read(&self) -> bool;

    /// Whether the file can be written.
    spec fn can_write(&self) -> bool;

    /// Whether the file can be read.
    fn readable(&self) -> (r: bool)
        ensures
            r == self.can_read(),
    ;

    /// Whether the file can be written.
    fn writable(&self) -> (r: bool)
        ensures
            r == self.can_write(),
    ;
}

impl File for FileDescriptor {
    open spec fn can_read(&self) -> bool {
        self.readable
    }

    open spec fn can_write(&self) -> bool {
        self.writable
    }

    fn readable(&self) -> (r: bool) {
        self.readable
    }

    fn writable(&self) -> (r: bool) {
        self.writable
    }
}

} // verus!

//! Interfaces that file systems and their files implement.
use vstd::prelude::*;
use crate::fs::types::{VfsError, VfsNode};

verus! {

/// Operations on the files of one file system or device.
pub trait FileOperations {
    /// Reads from `node` at `offset` into `buf`, returning the bytes read.
    fn read(&self, node: &VfsNode, offset: usize, buf: &mut [u8]) -> Result<usize, VfsError>;

    /// Writes `buf` to `node` at `offset`, returning the bytes written.
    fn write(&self, node: &VfsNode, offset: usize, buf: &[u8]) -> Result<usize, VfsError>;

    /// Lists the entries of directory `node` into `buf`, returning the bytes
    /// written.
    fn readdir(&self, node: &VfsNode, buf: &mut [u8]) -> Result<usize, VfsError>;
}

/// A mountable file system.
pub trait FileSystem {
    /// Mounts the file system.
    fn mount(&self) -> Result<(), VfsError>;

    /// Looks `path` up in the file system.
    fn open(&self, path: &str) -> Result<VfsNode, VfsError>;
}

} // verus!

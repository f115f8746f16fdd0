//! Interfaces that device drivers implement.
use vstd::prelude::*;

verus! {

/// A device that moves one byte at a time.
pub trait CharDevice {
    /// The next byte the device has, if any.
    fn read(&self) -> Option<u8>;

    /// Sends one byte to the device.
    fn write(&self, byte: u8);
}

/// A device that moves whole blocks.
pub trait BlockDevice {
    /// Reads block `block` into `buf`, returning the bytes read.
    fn read_block(&self, block: usize, buf: &mut [u8]) -> Result<usize, ()>;

    /// Writes `buf` to block `block`, returning the bytes written.
    fn write_block(&self, block: usize, buf: &[u8]) -> Result<usize, ()>;
}

} // verus!

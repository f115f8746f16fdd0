//! Presents a character device as a file.
use vstd::prelude::*;
use crate::drivers::traits::CharDevice;
use crate::fs::types::{VfsError, VfsNode};

verus! {

/// Stores what a device read gave into the front of `buf`: a byte read is put
/// at index 0 and counts as one byte; no byte leaves `buf` as it was and
/// answers `None`.
pub fn store_read(buf: &mut [u8], got: Option<u8>) -> (r: Option<usize>)
    requires
        old(buf)@.len() > 0,
    ensures
        got matches Some(b) ==> r == Some(1usize) && final(buf)@ == old(buf)@.update(0, b),
        got is None ==> r is None && final(buf)@ == old(buf)@,
{
    match got {
        Some(b) => {
            buf[0] = b;
            Some(1)
        },
        None => None,
    }
}

/// A character device seen as a file: reads take the bytes the device has,
/// writes send bytes to it.
pub struct CharDeviceAdapter<D> {
    pub device: D,
}

impl<D: CharDevice> CharDeviceAdapter<D> {
    /// One attempt at reading: takes the next byte the device has into the
    /// front of `buf`.  Returns how many bytes were read, or `None` when the
    /// device has no byte yet and the reader must wait and try again.  An
    /// empty buffer is read at once.
    pub fn poll_read(&self, buf: &mut [u8]) -> (r: Option<usize>)
        ensures
            old(buf)@.len() == 0 ==> r == Some(0usize) && final(buf)@ == old(buf)@,
            old(buf)@.len() > 0 ==> match r {
                Some(n) => n == 1 && final(buf)@ == old(buf)@.update(0, final(buf)@[0]),
                None => final(buf)@ == old(buf)@,
            },
    {
        if buf.len() == 0 {
            return Some(0);
        }
        store_read(buf, self.device.read())
    }

    /// Hands byte `b` to the device; the ghost result is the byte handed
    /// over.
    fn send(&self, b: u8) -> (sent: Ghost<u8>)
        ensures
            sent@ == b,
    {
        self.device.write(b);
        Ghost(b)
    }

    /// Hands every byte of `buf` to the device, one call per byte; the ghost
    /// result is the sequence of bytes handed over, in call order, and it is
    /// exactly `buf`: nothing left out, added or reordered.
    pub fn send_all(&self, buf: &[u8]) -> (sent: Ghost<Seq<u8>>)
        ensures
            sent@ == buf@,
    {
        let ghost mut trace: Seq<u8> = Seq::empty();
        let mut i: usize = 0;
        while i < buf.len()
            invariant
                i <= buf@.len(),
                trace == buf@.take(i as int),
            decreases buf@.len() - i,
        {
            let b = self.send(buf[i]);
            proof {
                trace = trace.push(b@);
                assert(trace =~= buf@.take(i + 1));
            }
            i = i + 1;
        }
        proof {
            assert(trace =~= buf@);
        }
        Ghost(trace)
    }

    /// Sends every byte of `buf` to the device, in order (see `send_all`),
    /// and answers the number of bytes sent.
    pub fn write(&self, node: &VfsNode, offset: usize, buf: &[u8]) -> (r: Result<usize, VfsError>)
        ensures
            r == Ok::<usize, VfsError>(buf@.len() as usize),
    {
        let sent = self.send_all(buf);
        proof {
            assert(sent@.len() == buf@.len());
        }
        Ok(buf.len())
    }

    /// A device is not a directory.
    pub fn readdir(&self, node: &VfsNode, buf: &mut [u8]) -> (r: Result<usize, VfsError>)
        ensures
            r == Err::<usize, VfsError>(VfsError::NotADirectory),
            final(buf)@ == old(buf)@,
    {
        Err(VfsError::NotADirectory)
    }
}

} // verus!

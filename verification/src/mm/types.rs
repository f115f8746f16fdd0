//! Data types of the memory manager.
use vstd::prelude::*;

verus! {

/// Bytes in the frame bitmap: one bit for each 4 KiB frame of a 4 GiB
/// physical address space.
pub const BITMAP_BYTES: usize = 131072;

/// Physical frame allocator: bit `f % 8` of byte `f / 8` is set when frame
/// `f` is in use.
pub struct MemoryFrameAllocator {
    pub bitmap: Vec<u8>,
}

impl MemoryFrameAllocator {
    /// The bitmap, byte by byte.
    pub open spec fn view(&self) -> Seq<u8> {
        self.bitmap@
    }

    /// The bitmap covers every frame.
    pub open spec fn wf(&self) -> bool {
        self.bitmap@.len() == BITMAP_BYTES
    }

    /// An allocator in which every frame is free.
    pub fn new() -> (a: Self)
        ensures
            a.wf(),
            forall|i: int| 0 <= i < BITMAP_BYTES ==> #[trigger] a@[i] == 0,
    {
        let mut bitmap: Vec<u8> = Vec::new();
        let mut i: usize = 0;
        while i < BITMAP_BYTES
            invariant
                i <= BITMAP_BYTES,
                bitmap@.len() == i,
                forall|j: int| 0 <= j < i ==> #[trigger] bitmap@[j] == 0,
            decreases BITMAP_BYTES - i,
        {
            bitmap.push(0);
            i = i + 1;
        }
        MemoryFrameAllocator { bitmap }
    }
}

} // verus!

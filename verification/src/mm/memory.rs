//! Physical frame allocation over the frame bitmap.
use vstd::prelude::*;
use crate::mm::types::{MemoryFrameAllocator, BITMAP_BYTES};

verus! {

/// Size of a physical frame in bytes.
pub const FRAME_SIZE: u32 = 4096;

/// Frames in a 4 GiB physical address space.
pub const TOTAL_FRAMES: usize = 1048576;

/// Frames below 8 MiB hold the kernel and its boot structures.
pub const RESERVED_FRAMES: usize = 2048;

/// Bit `k` of byte `b` is set.
pub open spec fn bit_set(b: u8, k: int) -> bool {
    (b >> (k as u8)) & 1u8 == 1u8
}

/// Frame `f` is marked in use in bitmap `bm`.
pub open spec fn frame_used(bm: Seq<u8>, f: int) -> bool {
    bit_set(bm[f / 8], f % 8)
}

/// The bitmap with frame `f` marked in use.
pub open spec fn mark_used(bm: Seq<u8>, f: int) -> Seq<u8> {
    bm.update(f / 8, bm[f / 8] | (1u8 << ((f % 8) as u8)))
}

/// The bitmap with frame `f` marked free.
pub open spec fn mark_free(bm: Seq<u8>, f: int) -> Seq<u8> {
    bm.update(f / 8, bm[f / 8] & !(1u8 << ((f % 8) as u8)))
}

/// First frame of the range `[start, end)` of physical addresses, rounded out
/// to whole frames.
pub open spec fn first_frame_of(start: u32) -> int {
    start as int / FRAME_SIZE as int
}

/// One past the last frame of the range `[start, end)`, rounded up.
pub open spec fn end_frame_of(end: u32) -> int {
    (end as int + FRAME_SIZE as int - 1) / FRAME_SIZE as int
}


/// `f` is the lowest free frame of `bm`.
pub open spec fn is_first_free(bm: Seq<u8>, f: int) -> bool {
    &&& 0 <= f < bm.len() * 8
    &&& !frame_used(bm, f)
    &&& forall|g: int| 0 <= g < f ==> #[trigger] frame_used(bm, g)
}

// ---------------------------------------------------------------------------
// Bit lemmas
// ---------------------------------------------------------------------------

proof fn lemma_set_bit(v: u8, b: u8, c: u8)
    requires
        b < 8,
        c < 8,
    ensures
        ((v | (1u8 << b)) >> c) & 1u8 == (if c == b { 1u8 } else { (v >> c) & 1u8 }),
{
    assert(((v | (1u8 << b)) >> c) & 1u8 == (if c == b { 1u8 } else { (v >> c) & 1u8 })) by (bit_vector)
        requires
            b < 8,
            c < 8,
    ;
}

proof fn lemma_clear_bit(v: u8, b: u8, c: u8)
    requires
        b < 8,
        c < 8,
    ensures
        ((v & !(1u8 << b)) >> c) & 1u8 == (if c == b { 0u8 } else { (v >> c) & 1u8 }),
{
    assert(((v & !(1u8 << b)) >> c) & 1u8 == (if c == b { 0u8 } else { (v >> c) & 1u8 })) by (bit_vector)
        requires
            b < 8,
            c < 8,
    ;
}

proof fn lemma_full_byte(v: u8)
    ensures
        v == 0xFFu8 <==> (forall|c: u8| c < 8 ==> #[trigger] ((v >> c) & 1u8) == 1u8),
{
    assert(v == 0xFFu8 ==> forall|c: u8| c < 8 ==> #[trigger] ((v >> c) & 1u8) == 1u8) by (bit_vector);
    if forall|c: u8| c < 8 ==> #[trigger] ((v >> c) & 1u8) == 1u8 {
        assert((v >> 0u8) & 1u8 == 1u8);
        assert((v >> 1u8) & 1u8 == 1u8);
        assert((v >> 2u8) & 1u8 == 1u8);
        assert((v >> 3u8) & 1u8 == 1u8);
        assert((v >> 4u8) & 1u8 == 1u8);
        assert((v >> 5u8) & 1u8 == 1u8);
        assert((v >> 6u8) & 1u8 == 1u8);
        assert((v >> 7u8) & 1u8 == 1u8);
        assert(v == 0xFFu8) by (bit_vector)
            requires
                (v >> 0u8) & 1u8 == 1u8,
                (v >> 1u8) & 1u8 == 1u8,
                (v >> 2u8) & 1u8 == 1u8,
                (v >> 3u8) & 1u8 == 1u8,
                (v >> 4u8) & 1u8 == 1u8,
                (v >> 5u8) & 1u8 == 1u8,
                (v >> 6u8) & 1u8 == 1u8,
                (v >> 7u8) & 1u8 == 1u8,
        ;
    }
}


proof fn lemma_test_bit(v: u8, b: u8)
    requires
        b < 8,
    ensures
        ((v & (1u8 << b)) == 0u8) == !bit_set(v, b as int),
{
    assert(((v & (1u8 << b)) == 0u8) == ((v >> b) & 1u8 != 1u8)) by (bit_vector)
        requires
            b < 8,
    ;
}

proof fn lemma_frame_split(f: int)
    requires
        f >= 0,
    ensures
        f == (f / 8) * 8 + f % 8,
        0 <= f % 8 < 8,
{
    vstd::arithmetic::div_mod::lemma_fundamental_div_mod(f, 8);
    vstd::arithmetic::div_mod::lemma_mod_bound(f, 8);
}

proof fn lemma_frame_of(i: int, b: int)
    requires
        i >= 0,
        0 <= b < 8,
    ensures
        (i * 8 + b) / 8 == i,
        (i * 8 + b) % 8 == b,
{
    vstd::arithmetic::div_mod::lemma_fundamental_div_mod_converse(i * 8 + b, 8, i, b);
}

/// Marking frame `f` used sets its bit and leaves every other frame as it was.
pub proof fn lemma_mark_used(bm: Seq<u8>, f: int)
    requires
        0 <= f < bm.len() * 8,
    ensures
        mark_used(bm, f).len() == bm.len(),
        forall|g: int| 0 <= g < bm.len() * 8 ==> #[trigger] frame_used(mark_used(bm, f), g) == (g == f || frame_used(bm, g)),
{
    lemma_frame_split(f);
    assert forall|g: int| 0 <= g < bm.len() * 8 implies #[trigger] frame_used(mark_used(bm, f), g) == (g == f || frame_used(bm, g)) by {
        lemma_frame_split(g);
        if g / 8 == f / 8 {
            lemma_set_bit(bm[f / 8], (f % 8) as u8, (g % 8) as u8);
        } else {
            assert(g != f);
        }
        assert(g / 8 < bm.len()) by (nonlinear_arith)
            requires 0 <= g < bm.len() * 8;
    }
}

/// Marking frame `f` free clears its bit and leaves every other frame as it was.
pub proof fn lemma_mark_free(bm: Seq<u8>, f: int)
    requires
        0 <= f < bm.len() * 8,
    ensures
        mark_free(bm, f).len() == bm.len(),
        forall|g: int| 0 <= g < bm.len() * 8 ==> #[trigger] frame_used(mark_free(bm, f), g) == (g != f && frame_used(bm, g)),
{
    lemma_frame_split(f);
    assert forall|g: int| 0 <= g < bm.len() * 8 implies #[trigger] frame_used(mark_free(bm, f), g) == (g != f && frame_used(bm, g)) by {
        lemma_frame_split(g);
        if g / 8 == f / 8 {
            lemma_clear_bit(bm[f / 8], (f % 8) as u8, (g % 8) as u8);
        } else {
            assert(g != f);
        }
        assert(g / 8 < bm.len()) by (nonlinear_arith)
            requires 0 <= g < bm.len() * 8;
    }
}

/// Freeing a frame right after it was marked used gives back the bitmap there
/// was before.
pub proof fn lemma_use_then_free_restores(bm: Seq<u8>, f: int)
    requires
        0 <= f < bm.len() * 8,
        !frame_used(bm, f),
    ensures
        mark_free(mark_used(bm, f), f) == bm,
{
    lemma_frame_split(f);
    let v = bm[f / 8];
    let b = (f % 8) as u8;
    assert(f / 8 < bm.len()) by (nonlinear_arith)
        requires 0 <= f < bm.len() * 8;
    assert(((v | (1u8 << b)) & !(1u8 << b)) == v) by (bit_vector)
        requires
            b < 8,
            (v >> b) & 1u8 != 1u8,
    ;
    assert(mark_free(mark_used(bm, f), f) =~= bm);
}


/// The frames marked free in `bm`.
pub open spec fn free_frames(bm: Seq<u8>) -> Set<int> {
    Set::new(|g: int| 0 <= g < TOTAL_FRAMES && !frame_used(bm, g))
}

/// There are finitely many free frames, at most one per frame.
pub proof fn lemma_free_frames_finite(bm: Seq<u8>)
    ensures
        free_frames(bm).finite(),
        free_frames(bm).len() <= TOTAL_FRAMES,
{
    vstd::set_lib::lemma_int_range(0, TOTAL_FRAMES as int);
    vstd::set_lib::lemma_len_subset(free_frames(bm), vstd::set_lib::set_int_range(0, TOTAL_FRAMES as int));
}

/// Marking a free frame used takes exactly it out of the free frames.
pub proof fn lemma_free_frames_mark_used(bm: Seq<u8>, f: int)
    requires
        bm.len() == crate::mm::types::BITMAP_BYTES,
        0 <= f < TOTAL_FRAMES,
        !frame_used(bm, f),
    ensures
        free_frames(mark_used(bm, f)) == free_frames(bm).remove(f),
        free_frames(mark_used(bm, f)).len() == free_frames(bm).len() - 1,
{
    lemma_mark_used(bm, f);
    lemma_free_frames_finite(bm);
    assert(free_frames(mark_used(bm, f)) =~= free_frames(bm).remove(f));
    vstd::set::axiom_set_remove_len(free_frames(bm), f);
}

/// When some frame is free there is a free frame.
pub proof fn lemma_some_free_frame(bm: Seq<u8>)
    requires
        free_frames(bm).len() > 0,
    ensures
        exists|f: int| 0 <= f < TOTAL_FRAMES && !frame_used(bm, f),
{
    lemma_free_frames_finite(bm);
    let f = free_frames(bm).choose();
    vstd::set::axiom_set_choose_len(free_frames(bm));
    assert(free_frames(bm).contains(f));
}


/// The frames below `n` marked free in `bm`.
pub open spec fn free_below(bm: Seq<u8>, n: int) -> Set<int> {
    Set::new(|g: int| 0 <= g < n && !frame_used(bm, g))
}

proof fn lemma_free_below_step(bm: Seq<u8>, n: int)
    requires
        0 <= n,
    ensures
        free_below(bm, n).finite(),
        free_below(bm, n + 1).finite(),
        free_below(bm, n + 1).len() == free_below(bm, n).len() + (if frame_used(bm, n) { 0int } else { 1int }),
        free_below(bm, n).len() <= n,
{
    vstd::set_lib::lemma_int_range(0, n);
    vstd::set_lib::lemma_len_subset(free_below(bm, n), vstd::set_lib::set_int_range(0, n));
    vstd::set_lib::lemma_int_range(0, n + 1);
    vstd::set_lib::lemma_len_subset(free_below(bm, n + 1), vstd::set_lib::set_int_range(0, n + 1));
    if frame_used(bm, n) {
        assert(free_below(bm, n + 1) =~= free_below(bm, n));
    } else {
        assert(free_below(bm, n + 1) =~= free_below(bm, n).insert(n));
        vstd::set::axiom_set_insert_len(free_below(bm, n), n);
    }
}

impl MemoryFrameAllocator {
    /// Whether the frame holding physical address `phys` is marked used.
    pub fn is_used(&self, phys: u32) -> (r: bool)
        requires
            self.wf(),
        ensures
            r == frame_used(self@, phys as int / FRAME_SIZE as int),
    {
        let f = phys / FRAME_SIZE;
        proof {
            lemma_frame_split(f as int);
        }
        (self.bitmap[(f / 8) as usize] >> ((f % 8) as u8)) & 1u8 == 1u8
    }

    /// How many frames are free.
    pub fn free_frame_count(&self) -> (n: usize)
        requires
            self.wf(),
        ensures
            n == free_frames(self@).len(),
    {
        let ghost bm = self@;
        let mut count: usize = 0;
        let mut g: usize = 0;
        proof {
            assert(free_below(bm, 0) =~= Set::<int>::empty());
        }
        while g < TOTAL_FRAMES
            invariant
                bm == self@,
                bm.len() == crate::mm::types::BITMAP_BYTES,
                g <= TOTAL_FRAMES,
                free_below(bm, g as int).finite(),
                count == free_below(bm, g as int).len(),
                count <= g,
            decreases TOTAL_FRAMES - g,
        {
            proof {
                lemma_free_below_step(bm, g as int);
                lemma_frame_split(g as int);
            }
            let byte = self.bitmap[g / 8];
            if (byte >> ((g % 8) as u8)) & 1u8 != 1u8 {
                count = count + 1;
            }
            g = g + 1;
        }
        proof {
            assert(free_below(bm, TOTAL_FRAMES as int) =~= free_frames(bm));
        }
        count
    }
}

/// A frame that was just handed out is not handed out again: the next lowest
/// free frame lies above it.
pub proof fn lemma_no_double_allocation(bm: Seq<u8>, f: int, g: int)
    requires
        is_first_free(bm, f),
        is_first_free(mark_used(bm, f), g),
    ensures
        g > f,
{
    lemma_mark_used(bm, f);
    if g <= f {
        assert(mark_used(bm, f).len() == bm.len());
        if g < f {
            assert(frame_used(bm, g));
        }
        assert(frame_used(mark_used(bm, f), g));
    }
}

/// Each frame taken between `before` and `after` (free in the one, used in
/// the other) lies below each frame still free in `after`: the frames taken
/// are the lowest that were free.
pub open spec fn took_lowest(before: Seq<u8>, after: Seq<u8>) -> bool {
    forall|g: int, h: int|
        #![trigger frame_used(after, g), frame_used(after, h)]
        0 <= g < TOTAL_FRAMES && 0 <= h < TOTAL_FRAMES && frame_used(after, g) && !frame_used(before, g)
            && !frame_used(after, h) ==> g < h
}

/// No frame is used in `before` but free in `after`.
pub open spec fn keeps_used(before: Seq<u8>, after: Seq<u8>) -> bool {
    forall|g: int| 0 <= g < TOTAL_FRAMES && frame_used(before, g) ==> #[trigger] frame_used(after, g)
}

/// Taking nothing takes the lowest frames.
pub proof fn lemma_took_lowest_none(bm: Seq<u8>)
    ensures
        took_lowest(bm, bm),
        keeps_used(bm, bm),
{
}

/// Taking the lowest free frame after the lowest ones still takes the lowest.
pub proof fn lemma_took_lowest_step(before: Seq<u8>, bm: Seq<u8>, f: int)
    requires
        bm.len() == crate::mm::types::BITMAP_BYTES,
        took_lowest(before, bm),
        keeps_used(before, bm),
        is_first_free(bm, f),
    ensures
        took_lowest(before, mark_used(bm, f)),
        keeps_used(before, mark_used(bm, f)),
{
    lemma_mark_used(bm, f);
    let after = mark_used(bm, f);
    assert forall|g: int, h: int|
        #![trigger frame_used(after, g), frame_used(after, h)]
        0 <= g < TOTAL_FRAMES && 0 <= h < TOTAL_FRAMES && frame_used(after, g) && !frame_used(before, g)
            && !frame_used(after, h) implies g < h by {
        assert(!frame_used(bm, h));
        if g != f {
            assert(frame_used(bm, g));
        } else if h < f {
            assert(frame_used(bm, h));
        }
    }
}

/// Two steps that each take the lowest free frames take the lowest together.
pub proof fn lemma_took_lowest_chain(b0: Seq<u8>, b1: Seq<u8>, b2: Seq<u8>)
    requires
        took_lowest(b0, b1),
        keeps_used(b0, b1),
        took_lowest(b1, b2),
        keeps_used(b1, b2),
    ensures
        took_lowest(b0, b2),
        keeps_used(b0, b2),
{
    assert forall|g: int, h: int|
        #![trigger frame_used(b2, g), frame_used(b2, h)]
        0 <= g < TOTAL_FRAMES && 0 <= h < TOTAL_FRAMES && frame_used(b2, g) && !frame_used(b0, g)
            && !frame_used(b2, h) implies g < h by {
        assert(!frame_used(b1, h));
        if frame_used(b1, g) {
            assert(frame_used(b1, g) && !frame_used(b1, h));
        }
    }
}

/// Frames `g` and `g + 1` are both free.
pub open spec fn pair_free(bm: Seq<u8>, g: int) -> bool {
    &&& 0 <= g && g + 1 < TOTAL_FRAMES
    &&& !frame_used(bm, g)
    &&& !frame_used(bm, g + 1)
}

/// `g` is the lower frame of the lowest two neighbouring free frames.
pub open spec fn is_first_free_pair(bm: Seq<u8>, g: int) -> bool {
    &&& pair_free(bm, g)
    &&& forall|h: int| 0 <= h < g ==> !#[trigger] pair_free(bm, h)
}

// ---------------------------------------------------------------------------
// Frame allocation
// ---------------------------------------------------------------------------

impl MemoryFrameAllocator {
    /// Marks the frames below 8 MiB, and those of the initial ramdisk
    /// `[start, end)` when there is one, as in use.  Returns the ramdisk's
    /// frame range `[first, end)` for the boot log.
    pub fn init(&mut self, initrd_info: Option<(u32, u32)>) -> (r: Option<(u32, u32)>)
        requires
            old(self).wf(),
            initrd_info matches Some((s, e)) ==> e + (FRAME_SIZE - 1) <= u32::MAX,
        ensures
            final(self).wf(),
            forall|g: int| 0 <= g < TOTAL_FRAMES ==> #[trigger] frame_used(final(self)@, g) == (
                g < RESERVED_FRAMES
                || (initrd_info matches Some((s, e)) && first_frame_of(s) <= g < end_frame_of(e))
                || frame_used(old(self)@, g)),
            r == (match initrd_info {
                Some((s, e)) => Some((first_frame_of(s) as u32, end_frame_of(e) as u32)),
                None => None,
            }),
    {
        let ghost bm0 = self.bitmap@;
        let bytes_to_reserve: usize = RESERVED_FRAMES / 8;
        let mut i: usize = 0;
        while i < bytes_to_reserve
            invariant
                self.wf(),
                bytes_to_reserve == 256,
                bm0.len() == BITMAP_BYTES,
                i <= bytes_to_reserve,
                forall|j: int| 0 <= j < i ==> #[trigger] self.bitmap@[j] == 0xFFu8,
                forall|j: int| i <= j < BITMAP_BYTES ==> #[trigger] self.bitmap@[j] == bm0[j],
            decreases bytes_to_reserve - i,
        {
            self.bitmap.set(i, 0xFFu8);
            i = i + 1;
        }
        proof {
            lemma_full_byte(0xFFu8);
            assert forall|g: int| 0 <= g < TOTAL_FRAMES implies #[trigger] frame_used(self.bitmap@, g) == (g < RESERVED_FRAMES || frame_used(bm0, g)) by {
                lemma_frame_split(g);
                if g < RESERVED_FRAMES {
                    assert(self.bitmap@[g / 8] == 0xFFu8);
                    assert(((0xFFu8 >> ((g % 8) as u8)) & 1u8) == 1u8);
                }
            }
        }
        let ghost bm1 = self.bitmap@;
        match initrd_info {
            None => None,
            Some((start, end)) => {
                let start_frame = start / FRAME_SIZE;
                let end_frame = (end + (FRAME_SIZE - 1)) / FRAME_SIZE;
                proof {
                    assert(end_frame <= TOTAL_FRAMES) by (nonlinear_arith)
                        requires
                            end_frame == (end + 4095) / 4096,
                            end + 4095 <= u32::MAX,
                    ;
                }
                let mut frame = start_frame;
                while frame < end_frame
                    invariant
                        self.wf(),
                        start_frame <= frame,
                        frame <= end_frame || frame == start_frame,
                        end_frame <= TOTAL_FRAMES,
                        forall|g: int| 0 <= g < TOTAL_FRAMES ==> #[trigger] frame_used(self.bitmap@, g) == (
                            (start_frame <= g < frame) || frame_used(bm1, g)),
                    decreases end_frame - frame,
                {
                    let byte_index = (frame / 8) as usize;
                    let bit_index = frame % 8;
                    let ghost before = self.bitmap@;
                    let val = self.bitmap[byte_index];
                    self.bitmap.set(byte_index, val | (1u8 << (bit_index as u8)));
                    proof {
                        assert(self.bitmap@ == mark_used(before, frame as int));
                        lemma_mark_used(before, frame as int);
                    }
                    frame = frame + 1;
                }
                Some((start_frame, end_frame))
            }
        }
    }

    /// Hands out the lowest free frame, marking it in use, and returns its
    /// physical address; `None` when every frame is in use.
    pub fn allocate_frame(&mut self) -> (r: Option<u32>)
        requires
            old(self).wf(),
        ensures
            final(self).wf(),
            r is None ==> final(self)@ == old(self)@
                && forall|g: int| 0 <= g < TOTAL_FRAMES ==> #[trigger] frame_used(old(self)@, g),
            r matches Some(addr) ==> {
                &&& addr % FRAME_SIZE == 0
                &&& is_first_free(old(self)@, addr as int / FRAME_SIZE as int)
                &&& final(self)@ == mark_used(old(self)@, addr as int / FRAME_SIZE as int)
            },
    {
        let ghost bm = self.bitmap@;
        let len = self.bitmap.len();
        let mut i: usize = 0;
        while i < len
            invariant
                self.bitmap@ == bm,
                old(self)@ == bm,
                len == BITMAP_BYTES,
                bm.len() == BITMAP_BYTES,
                i <= len,
                forall|g: int| 0 <= g < i * 8 ==> #[trigger] frame_used(bm, g),
            decreases len - i,
        {
            let val = self.bitmap[i];
            if val != 0xFFu8 {
                let mut bit: u8 = 0;
                while bit < 8
                    invariant
                        self.bitmap@ == bm,
                        old(self)@ == bm,
                        bm.len() == BITMAP_BYTES,
                        i < BITMAP_BYTES,
                        val == bm[i as int],
                        bit <= 8,
                        forall|g: int| 0 <= g < i * 8 ==> #[trigger] frame_used(bm, g),
                        forall|c: u8| c < bit ==> #[trigger] ((val >> c) & 1u8) == 1u8,
                    decreases 8 - bit,
                {
                    proof {
                        lemma_test_bit(val, bit);
                    }
                    if (val & (1u8 << bit)) == 0 {
                        let frame_index = (i * 8) + bit as usize;
                        proof {
                            lemma_frame_of(i as int, bit as int);
                            assert forall|g: int| 0 <= g < frame_index implies #[trigger] frame_used(bm, g) by {
                                if g >= i * 8 {
                                    lemma_frame_of(i as int, g - i * 8);
                                    assert(((val >> ((g - i * 8) as u8)) & 1u8) == 1u8);
                                }
                            }
                            lemma_frame_split(frame_index as int);
                        }
                        self.bitmap.set(i, val | (1u8 << bit));
                        let addr = frame_index as u32 * FRAME_SIZE;
                        proof {
                            assert(addr as int / FRAME_SIZE as int == frame_index) by (nonlinear_arith)
                                requires addr == frame_index * 4096;
                            assert(addr % FRAME_SIZE == 0) by (nonlinear_arith)
                                requires addr == frame_index * 4096;
                            assert(self.bitmap@ == mark_used(bm, frame_index as int));
                        }
                        return Some(addr);
                    }
                    bit = bit + 1;
                }
                proof {
                    lemma_full_byte(val);
                }
            }
            proof {
                lemma_full_byte(val);
                assert forall|g: int| 0 <= g < (i + 1) * 8 implies #[trigger] frame_used(bm, g) by {
                    if g >= i * 8 {
                        lemma_frame_of(i as int, g - i * 8);
                        assert(((val >> ((g - i * 8) as u8)) & 1u8) == 1u8);
                    }
                }
            }
            i = i + 1;
        }
        None
    }

    /// Marks frame `frame` in use.
    fn mark_frame(&mut self, frame: u32)
        requires
            old(self).wf(),
            frame < TOTAL_FRAMES,
        ensures
            final(self).wf(),
            final(self)@ == mark_used(old(self)@, frame as int),
    {
        let byte_index = (frame / 8) as usize;
        let bit_index = frame % 8;
        proof {
            lemma_frame_split(frame as int);
        }
        let val = self.bitmap[byte_index];
        self.bitmap.set(byte_index, val | (1u8 << (bit_index as u8)));
    }

    /// The address of the lower frame of the lowest two neighbouring free
    /// frames, if there are any.
    pub fn find_free_pair(&self) -> (r: Option<u32>)
        requires
            self.wf(),
        ensures
            r matches Some(addr) ==> addr % FRAME_SIZE == 0 && is_first_free_pair(self@, addr as int / FRAME_SIZE as int),
            r is None ==> forall|g: int| !#[trigger] pair_free(self@, g),
    {
        let ghost bm = self@;
        let mut g: u32 = 0;
        while g + 1 < TOTAL_FRAMES as u32
            invariant
                self.wf(),
                bm == self@,
                g + 1 <= TOTAL_FRAMES,
                forall|h: int| 0 <= h < g ==> !#[trigger] pair_free(bm, h),
            decreases TOTAL_FRAMES - g,
        {
            let a = g * FRAME_SIZE;
            let b = (g + 1) * FRAME_SIZE;
            proof {
                assert(a as int / FRAME_SIZE as int == g && b as int / FRAME_SIZE as int == g + 1) by (nonlinear_arith)
                    requires a == g * 4096, b == (g + 1) * 4096;
            }
            if !self.is_used(a) && !self.is_used(b) {
                proof {
                    assert(a % FRAME_SIZE == 0) by (nonlinear_arith) requires a == g * 4096;
                }
                return Some(a);
            }
            g = g + 1;
        }
        proof {
            assert forall|h: int| !#[trigger] pair_free(bm, h) by {
                if 0 <= h < g {
                }
            }
        }
        None
    }

    /// Hands out the lowest two neighbouring free frames, marking both in use,
    /// and returns the address of the lower one; `None` when no two
    /// neighbouring frames are free.
    pub fn allocate_pair(&mut self) -> (r: Option<u32>)
        requires
            old(self).wf(),
        ensures
            final(self).wf(),
            r is None ==> final(self)@ == old(self)@ && forall|g: int| !#[trigger] pair_free(old(self)@, g),
            r matches Some(addr) ==> {
                let g = addr as int / FRAME_SIZE as int;
                &&& addr % FRAME_SIZE == 0
                &&& is_first_free_pair(old(self)@, g)
                &&& final(self)@ == mark_used(mark_used(old(self)@, g), g + 1)
            },
    {
        match self.find_free_pair() {
            None => None,
            Some(addr) => {
                let g = addr / FRAME_SIZE;
                proof {
                    assert(g as int == addr as int / FRAME_SIZE as int);
                }
                self.mark_frame(g);
                self.mark_frame(g + 1);
                Some(addr)
            }
        }
    }

    /// Marks the frame holding physical address `phys_addr` as free.
    pub fn deallocate_frame(&mut self, phys_addr: u32)
        requires
            old(self).wf(),
        ensures
            final(self).wf(),
            final(self)@ == mark_free(old(self)@, phys_addr as int / FRAME_SIZE as int),
    {
        let frame_index = phys_addr / FRAME_SIZE;
        let byte_index = (frame_index / 8) as usize;
        let bit_index = frame_index % 8;
        let len = self.bitmap.len();
        if byte_index < len {
            let val = self.bitmap[byte_index];
            self.bitmap.set(byte_index, val & !(1u8 << (bit_index as u8)));
        }
    }
}

} // verus!

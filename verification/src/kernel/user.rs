//! The address space the user shell runs in: its code and data pages at
//! `USER_CODE_BASE` and its stack pages below `USER_STACK_TOP`, each backed
//! by a frame of its own.
use vstd::prelude::*;
use crate::arch::paging::{AddressSpace, tables_reserved, in_pages, entry_present, page_number, table_entry, lemma_frame_bound, lemma_frame_of};
use crate::mm::memory::{free_frames, frame_used, took_lowest, lemma_took_lowest_chain, FRAME_SIZE, TOTAL_FRAMES};
use crate::mm::types::MemoryFrameAllocator;
use crate::shell::USER_CODE_BASE;

verus! {

/// Pages mapped for the shell's code and data, from `USER_CODE_BASE`.
pub const USER_CODE_PAGES: u32 = 40;
/// Lowest page of the stack region: the pages up to and including the one at
/// `0xA000_0000`.
pub const USER_STACK_BASE: u32 = 0x9FFD_9000;
/// Pages in the stack region.
pub const USER_STACK_PAGES: u32 = 40;
/// The page just below `USER_STACK_TOP`, where the shell's stack starts.
pub const USER_STACK_TOP_PAGE: u32 = 0xA000_3000;
/// Flags of user pages: present, writable and open to ring 3.
pub const USER_PAGE_FLAGS: u32 = 7;

/// `v` lies in a page the shell runs with: its code and data, the stack
/// region, or the page under the stack top.
pub open spec fn in_user_space(v: u32) -> bool {
    ||| in_pages(v, USER_CODE_BASE, USER_CODE_PAGES as int)
    ||| in_pages(v, USER_STACK_BASE, USER_STACK_PAGES as int)
    ||| in_pages(v, USER_STACK_TOP_PAGE, 1)
}

/// 1 when directory `dir` has no page table at entry `i`.
pub open spec fn table_missing(dir: Seq<u32>, i: int) -> int {
    if entry_present(dir[i]) { 0 } else { 1 }
}

/// Frames taken by mapping the shell's pages: one per page, and one for each
/// page table (entries 256, 639 and 640) the directory lacks.
pub open spec fn user_frames_needed(dir: Seq<u32>) -> int {
    (USER_CODE_PAGES + USER_STACK_PAGES + 1) + table_missing(dir, 256) + table_missing(dir, 639) + table_missing(dir, 640)
}

/// Frames that `map_user_space` takes from `space`'s present state.
pub fn user_frames_required(space: &AddressSpace) -> (n: u64)
    requires
        space.wf(),
    ensures
        n == user_frames_needed(space.dir()),
{
    let mut n: u64 = (USER_CODE_PAGES + USER_STACK_PAGES + 1) as u64;
    assert(0x4000_0000u32 >> 22u32 == 256 && 0x9FFD_9000u32 >> 22u32 == 639 && 0xA000_0000u32 >> 22u32 == 640) by (bit_vector);
    if space.needs_table(USER_CODE_BASE) {
        n = n + 1;
    }
    if space.needs_table(USER_STACK_BASE) {
        n = n + 1;
    }
    if space.needs_table(0xA000_0000) {
        n = n + 1;
    }
    n
}

/// Maps every page the shell runs with to a fresh frame, present, writable
/// and open to user code: each such address reaches a frame that was free
/// before and is used now, at the same offset; no two pages share a frame;
/// every other address translates as before.  The code pages are taken in
/// ascending order, the stack pages from `0xA000_0000` downward; the frames
/// taken are the lowest that were free.
pub fn map_user_space(space: &mut AddressSpace, frames: &mut MemoryFrameAllocator)
    requires
        old(space).wf(),
        old(frames).wf(),
        tables_reserved(old(space).table_frames(), old(frames)@),
        free_frames(old(frames)@).len() >= user_frames_needed(old(space).dir()),
    ensures
        final(space).wf(),
        final(frames).wf(),
        tables_reserved(final(space).table_frames(), final(frames)@),
        forall|v: u32| #[trigger] in_user_space(v) ==> (final(space).spec_translate(v) matches Some(p)
            && frame_used(final(frames)@, p as int / FRAME_SIZE as int)
            && !frame_used(old(frames)@, p as int / FRAME_SIZE as int)
            && p & 0xFFFu32 == v & 0xFFFu32
            && final(space).spec_entry(v) == Some(table_entry(p, USER_PAGE_FLAGS))),
        forall|v: u32, w: u32| #[trigger] in_user_space(v) && #[trigger] in_user_space(w)
            && page_number(v) != page_number(w)
            ==> final(space).spec_translate(v).unwrap() & 0xFFFF_F000u32 != final(space).spec_translate(w).unwrap() & 0xFFFF_F000u32,
        forall|v: u32| !in_user_space(v) ==> #[trigger] final(space).spec_translate(v) == old(space).spec_translate(v),
        free_frames(final(frames)@).len() == free_frames(old(frames)@).len() - user_frames_needed(old(space).dir()),
        took_lowest(old(frames)@, final(frames)@),
{
    let ghost s0 = *space;
    let ghost b0 = frames@;
    assert(0x4000_0000u32 & 0xFFFu32 == 0 && ((0x4000_0000u32 >> 12u32) & 0x3FFu32) + 40 <= 1024
        && 0xA000_0000u32 & 0xFFFu32 == 0 && ((0xA000_0000u32 >> 12u32) & 0x3FFu32) + 1 <= 1024
        && 0x9FFD_9000u32 & 0xFFFu32 == 0 && ((0x9FFD_9000u32 >> 12u32) & 0x3FFu32) + 39 <= 1024
        && 0xA000_3000u32 & 0xFFFu32 == 0 && ((0xA000_3000u32 >> 12u32) & 0x3FFu32) + 1 <= 1024
        && 0x4000_0000u32 >> 22u32 == 256 && 0xA000_0000u32 >> 22u32 == 640
        && 0x9FFD_9000u32 >> 22u32 == 639 && 0xA000_3000u32 >> 22u32 == 640
        && 7u32 & 1u32 == 1u32) by (bit_vector);
    space.map_fresh_pages(frames, USER_CODE_BASE, USER_CODE_PAGES, USER_PAGE_FLAGS);
    let ghost s1 = *space;
    let ghost b1 = frames@;
    space.map_fresh_pages(frames, 0xA000_0000, 1, USER_PAGE_FLAGS);
    let ghost s2 = *space;
    let ghost b2 = frames@;
    space.map_fresh_pages_down(frames, USER_STACK_BASE, USER_STACK_PAGES - 1, USER_PAGE_FLAGS);
    let ghost s3 = *space;
    let ghost b3 = frames@;
    space.map_fresh_pages(frames, USER_STACK_TOP_PAGE, 1, USER_PAGE_FLAGS);
    proof {
        let s4 = *space;
        let b4 = frames@;
        lemma_took_lowest_chain(b0, b1, b2);
        lemma_took_lowest_chain(b0, b2, b3);
        lemma_took_lowest_chain(b0, b3, b4);
        assert forall|v: u32| #[trigger] in_user_space(v) implies (s4.spec_translate(v) matches Some(p)
            && frame_used(b4, p as int / FRAME_SIZE as int)
            && !frame_used(b0, p as int / FRAME_SIZE as int)
            && p & 0xFFFu32 == v & 0xFFFu32
            && s4.spec_entry(v) == Some(table_entry(p, USER_PAGE_FLAGS))) by {
            if in_pages(v, USER_CODE_BASE, 40) {
                assert(!in_pages(v, 0xA000_0000, 1) && !in_pages(v, USER_STACK_BASE, 39) && !in_pages(v, USER_STACK_TOP_PAGE, 1));
                let p = s1.spec_translate(v).unwrap();
                lemma_frame_bound(p);
                assert(s4.spec_translate(v) == s1.spec_translate(v));
                assert(s4.spec_entry(v) == s1.spec_entry(v));
            } else if in_pages(v, 0xA000_0000, 1) {
                assert(!in_pages(v, USER_STACK_BASE, 39) && !in_pages(v, USER_STACK_TOP_PAGE, 1));
                let p = s2.spec_translate(v).unwrap();
                lemma_frame_bound(p);
                assert(s4.spec_translate(v) == s2.spec_translate(v));
                assert(s4.spec_entry(v) == s2.spec_entry(v));
            } else if in_pages(v, USER_STACK_BASE, 39) {
                assert(!in_pages(v, USER_STACK_TOP_PAGE, 1));
                let p = s3.spec_translate(v).unwrap();
                lemma_frame_bound(p);
                assert(s4.spec_translate(v) == s3.spec_translate(v));
                assert(s4.spec_entry(v) == s3.spec_entry(v));
            } else {
                assert(in_pages(v, USER_STACK_TOP_PAGE, 1));
                let p = s4.spec_translate(v).unwrap();
                lemma_frame_bound(p);
            }
        }
        assert forall|v: u32, w: u32| #[trigger] in_user_space(v) && #[trigger] in_user_space(w)
            && page_number(v) != page_number(w)
            implies s4.spec_translate(v).unwrap() & 0xFFFF_F000u32 != s4.spec_translate(w).unwrap() & 0xFFFF_F000u32 by {
            let p = s4.spec_translate(v).unwrap();
            let q = s4.spec_translate(w).unwrap();
            lemma_frame_of(p);
            lemma_frame_of(q);
            lemma_frame_bound(p);
            lemma_frame_bound(q);
            let fv = p as int / 4096;
            let fw = q as int / 4096;
            // the stage that mapped each page, with its frame used from then on
            // and free before
            let kv: int = if in_pages(v, USER_CODE_BASE, 40) { 1 } else if in_pages(v, 0xA000_0000, 1) { 2 }
                else if in_pages(v, USER_STACK_BASE, 39) { 3 } else { 4 };
            let kw: int = if in_pages(w, USER_CODE_BASE, 40) { 1 } else if in_pages(w, 0xA000_0000, 1) { 2 }
                else if in_pages(w, USER_STACK_BASE, 39) { 3 } else { 4 };
            assert(kv == 1 ==> s4.spec_translate(v) == s1.spec_translate(v) && frame_used(b1, fv) && !frame_used(b0, fv));
            assert(kv == 2 ==> s4.spec_translate(v) == s2.spec_translate(v) && frame_used(b2, fv) && !frame_used(b1, fv));
            assert(kv == 3 ==> s4.spec_translate(v) == s3.spec_translate(v) && frame_used(b3, fv) && !frame_used(b2, fv));
            assert(kv == 4 ==> frame_used(b4, fv) && !frame_used(b3, fv));
            assert(kw == 1 ==> s4.spec_translate(w) == s1.spec_translate(w) && frame_used(b1, fw) && !frame_used(b0, fw));
            assert(kw == 2 ==> s4.spec_translate(w) == s2.spec_translate(w) && frame_used(b2, fw) && !frame_used(b1, fw));
            assert(kw == 3 ==> s4.spec_translate(w) == s3.spec_translate(w) && frame_used(b3, fw) && !frame_used(b2, fw));
            assert(kw == 4 ==> frame_used(b4, fw) && !frame_used(b3, fw));
            if kv == kw {
                if kv == 1 {
                    assert(in_pages(v, USER_CODE_BASE, 40) && in_pages(w, USER_CODE_BASE, 40));
                } else if kv == 2 {
                    assert(in_pages(v, 0xA000_0000, 1) && in_pages(w, 0xA000_0000, 1));
                } else if kv == 3 {
                    assert(in_pages(v, USER_STACK_BASE, 39) && in_pages(w, USER_STACK_BASE, 39));
                } else {
                    assert(in_pages(v, USER_STACK_TOP_PAGE, 1) && in_pages(w, USER_STACK_TOP_PAGE, 1));
                }
            } else {
                // a frame used at an earlier stage stays used at every later one
                assert(fv != fw);
            }
        }
        assert forall|v: u32| !in_user_space(v) implies #[trigger] s4.spec_translate(v) == s0.spec_translate(v) by {
            assert(!in_pages(v, USER_CODE_BASE, 40) && !in_pages(v, 0xA000_0000, 1)
                && !in_pages(v, USER_STACK_BASE, 39) && !in_pages(v, USER_STACK_TOP_PAGE, 1));
        }
    }
}

} // verus!

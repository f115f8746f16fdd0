//! Two-level 32-bit x86 paging.
//!
//! `AddressSpace` holds the page directory and the page tables that its
//! present entries point at, each table with the physical address of the frame
//! that holds it.  Its meaning is `translate`: the physical address a virtual
//! address maps to, if any.
use vstd::prelude::*;
use crate::arch::types::{PageDirectory, PageTable, PAGE_ENTRIES};
use crate::mm::memory::{free_frames, frame_used, mark_used, is_first_free, took_lowest, FRAME_SIZE, TOTAL_FRAMES};
use crate::mm::types::MemoryFrameAllocator;

verus! {

/// Size of a page in bytes.
pub const PAGE_SIZE: u32 = 4096;

/// Entry flag: the page or table is present.
pub const PRESENT: u32 = 1;

/// Entry flag: the page or table is writable.
pub const WRITABLE: u32 = 0x2;

/// Entry flag: the page or table may be used from ring 3.
pub const USER_ACCESSIBLE: u32 = 0x4;

/// Bytes identity-mapped for the kernel at boot: the first 8 MiB.
pub const KERNEL_MAPPED_BYTES: u32 = 0x80_0000;

/// Index of the directory entry that covers virtual address `v`.
pub open spec fn pd_index(v: u32) -> int {
    (v >> 22u32) as int
}

/// Index of the table entry that covers virtual address `v`.
pub open spec fn pt_index(v: u32) -> int {
    ((v >> 12u32) & 0x3FFu32) as int
}

/// Number of the 4 KiB page that holds virtual address `v`.
pub open spec fn page_number(v: u32) -> u32 {
    v >> 12u32
}

/// The frame address held in a directory or table entry.
pub open spec fn entry_frame(e: u32) -> u32 {
    e & 0xFFFF_F000u32
}

/// The entry's present bit is set.
pub open spec fn entry_present(e: u32) -> bool {
    e & PRESENT == PRESENT
}

/// The table entry that maps a page to frame `phys` with `flags`.
pub open spec fn table_entry(phys: u32, flags: u32) -> u32 {
    (phys & 0xFFFF_F000u32) | (flags & 0xFFFu32)
}

/// The directory entry for a fresh table at `frame`: present, writable, and
/// open to user code when `flags` ask for it.
pub open spec fn directory_entry(frame: u32, flags: u32) -> u32 {
    frame | PRESENT | WRITABLE | (flags & USER_ACCESSIBLE)
}

/// A page table together with the physical address of the frame holding it.
#[derive(Clone, Copy)]
pub struct TableFrame {
    pub phys: u32,
    pub table: PageTable,
}

/// A page directory and the page tables its present entries point at.
pub struct AddressSpace {
    pub directory: PageDirectory,
    pub tables: Vec<TableFrame>,
}

/// `j` is the table of `ts` held in frame `phys`.
pub open spec fn holds_table(ts: Seq<TableFrame>, phys: u32, j: int) -> bool {
    0 <= j < ts.len() && ts[j].phys == phys
}

/// Index of the table held in frame `phys`.
pub open spec fn table_at(ts: Seq<TableFrame>, phys: u32) -> int {
    choose|j: int| holds_table(ts, phys, j)
}

/// Directory and tables agree: every present directory entry points at a
/// table of the list, no two present entries share a table, tables sit in
/// distinct page-aligned frames.
pub open spec fn address_space_wf(dir: Seq<u32>, ts: Seq<TableFrame>) -> bool {
    &&& dir.len() == PAGE_ENTRIES
    &&& forall|i: int| 0 <= i < PAGE_ENTRIES && entry_present(#[trigger] dir[i])
        ==> exists|j: int| holds_table(ts, entry_frame(dir[i]), j)
    &&& forall|i: int, k: int| 0 <= i < PAGE_ENTRIES && 0 <= k < PAGE_ENTRIES && i != k
        && entry_present(#[trigger] dir[i]) && entry_present(#[trigger] dir[k])
        ==> entry_frame(dir[i]) != entry_frame(dir[k])
    &&& forall|a: int, b: int| 0 <= a < b < ts.len() ==> (#[trigger] ts[a]).phys != (#[trigger] ts[b]).phys
    &&& forall|a: int| 0 <= a < ts.len() ==> (#[trigger] ts[a]).phys & 0xFFFu32 == 0
}

/// The table entry covering `v`, if the directory entry covering it is present.
pub open spec fn table_entry_of(dir: Seq<u32>, ts: Seq<TableFrame>, v: u32) -> Option<u32> {
    let pde = dir[pd_index(v)];
    if entry_present(pde) {
        Some(ts[table_at(ts, entry_frame(pde))].table.entries@[pt_index(v)])
    } else {
        None
    }
}

/// The physical address `v` maps to, if its page is mapped.
pub open spec fn translate(dir: Seq<u32>, ts: Seq<TableFrame>, v: u32) -> Option<u32> {
    match table_entry_of(dir, ts, v) {
        Some(pte) => if entry_present(pte) {
            Some(entry_frame(pte) | (v & 0xFFFu32))
        } else {
            None
        },
        None => None,
    }
}

/// Every frame that holds a table is marked in use by the frame allocator.
pub open spec fn tables_reserved(ts: Seq<TableFrame>, bm: Seq<u8>) -> bool {
    forall|a: int| 0 <= a < ts.len() ==> frame_used(bm, (#[trigger] ts[a]).phys as int / FRAME_SIZE as int)
}

proof fn lemma_table_at(ts: Seq<TableFrame>, phys: u32, j: int)
    requires
        holds_table(ts, phys, j),
        forall|a: int, b: int| 0 <= a < b < ts.len() ==> (#[trigger] ts[a]).phys != (#[trigger] ts[b]).phys,
    ensures
        table_at(ts, phys) == j,
{
    let k = table_at(ts, phys);
    assert(holds_table(ts, phys, k));
    if k < j {
        assert(ts[k].phys != ts[j].phys);
    } else if k > j {
        assert(ts[j].phys != ts[k].phys);
    }
}

proof fn lemma_index_bounds(v: u32)
    ensures
        0 <= pd_index(v) < PAGE_ENTRIES,
        0 <= pt_index(v) < PAGE_ENTRIES,
        page_number(v) == (pd_index(v) * 1024 + pt_index(v)) as u32,
{
    assert((v >> 22u32) < 1024u32 && ((v >> 12u32) & 0x3FFu32) < 1024u32) by (bit_vector);
    assert(v >> 12u32 == (v >> 22u32) * 1024u32 + ((v >> 12u32) & 0x3FFu32)) by (bit_vector);
}

proof fn lemma_same_page(v: u32, w: u32)
    ensures
        (page_number(v) == page_number(w)) <==> (pd_index(v) == pd_index(w) && pt_index(v) == pt_index(w)),
{
    assert((v >> 12u32 == w >> 12u32) <==> (v >> 22u32 == w >> 22u32 && (v >> 12u32) & 0x3FFu32 == (w >> 12u32) & 0x3FFu32)) by (bit_vector);
}

proof fn lemma_directory_entry(frame: u32, flags: u32)
    requires
        frame & 0xFFFu32 == 0,
    ensures
        entry_present(directory_entry(frame, flags)),
        entry_frame(directory_entry(frame, flags)) == frame,
{
    assert(((frame | 1u32 | 2u32 | (flags & 4u32)) & 1u32 == 1u32)
        && ((frame | 1u32 | 2u32 | (flags & 4u32)) & 0xFFFF_F000u32 == frame)) by (bit_vector)
        requires
            frame & 0xFFFu32 == 0,
    ;
}

proof fn lemma_table_entry(phys: u32, flags: u32)
    ensures
        entry_present(table_entry(phys, flags)) == (flags & PRESENT == PRESENT),
        entry_frame(table_entry(phys, flags)) == phys & 0xFFFF_F000u32,
{
    assert(((((phys & 0xFFFF_F000u32) | (flags & 0xFFFu32)) & 1u32 == 1u32) == (flags & 1u32 == 1u32))
        && (((phys & 0xFFFF_F000u32) | (flags & 0xFFFu32)) & 0xFFFF_F000u32 == phys & 0xFFFF_F000u32)) by (bit_vector);
}

/// `after` is `before` with one more table at the end: held in frame
/// `phys`, zero everywhere but entry `k`, which is `e`.
pub open spec fn fresh_table_added(before: Seq<TableFrame>, after: Seq<TableFrame>, phys: u32, k: int, e: u32) -> bool {
    &&& after.len() == before.len() + 1
    &&& forall|a: int| 0 <= a < before.len() ==> #[trigger] after[a] == before[a]
    &&& after.last().phys == phys
    &&& forall|j: int| 0 <= j < PAGE_ENTRIES ==> #[trigger] after.last().table.entries@[j] == (if j == k { e } else { 0u32 })
}

impl AddressSpace {
    /// The directory entries.
    pub open spec fn dir(&self) -> Seq<u32> {
        self.directory.entries@
    }

    /// The tables with their frames.
    pub open spec fn table_frames(&self) -> Seq<TableFrame> {
        self.tables@
    }

    /// Directory and tables agree.
    pub open spec fn wf(&self) -> bool {
        address_space_wf(self.dir(), self.table_frames())
    }

    /// Where `v` maps to.
    pub open spec fn spec_translate(&self, v: u32) -> Option<u32> {
        translate(self.dir(), self.table_frames(), v)
    }

    /// The table entry covering `v`, when its table is present.
    pub open spec fn spec_entry(&self, v: u32) -> Option<u32> {
        table_entry_of(self.dir(), self.table_frames(), v)
    }

    /// Whether every frame holding one of the page tables is marked used in
    /// `frames`.
    pub fn tables_held_by(&self, frames: &MemoryFrameAllocator) -> (r: bool)
        requires
            frames.wf(),
        ensures
            r == tables_reserved(self.table_frames(), frames@),
    {
        let mut i: usize = 0;
        while i < self.tables.len()
            invariant
                frames.wf(),
                i <= self.tables@.len(),
                forall|a: int| 0 <= a < i ==> frame_used(frames@, (#[trigger] self.tables@[a]).phys as int / FRAME_SIZE as int),
            decreases self.tables@.len() - i,
        {
            if !frames.is_used(self.tables[i].phys) {
                return false;
            }
            i = i + 1;
        }
        true
    }

    /// Whether mapping a page at `virt` needs a new page table, that is,
    /// whether no table covers `virt` yet.
    pub fn needs_table(&self, virt: u32) -> (r: bool)
        requires
            self.wf(),
        ensures
            r == !entry_present(self.dir()[pd_index(virt)]),
    {
        proof {
            lemma_index_bounds(virt);
        }
        let pde = self.directory.entries[(virt >> 22u32) as usize];
        pde & PRESENT != PRESENT
    }

    /// Maps the page holding `virt` to the frame holding `phys` with the low
    /// twelve bits of `flags`.  When no page table covers `virt` yet, a frame
    /// is taken from `frames` for a zeroed table, entered in the directory as
    /// present and writable, and user-accessible when `flags` ask for it.
    pub fn map_page(&mut self, frames: &mut MemoryFrameAllocator, virt: u32, phys: u32, flags: u32)
        requires
            old(self).wf(),
            old(frames).wf(),
            tables_reserved(old(self).table_frames(), old(frames)@),
            !entry_present(old(self).dir()[pd_index(virt)]) ==> exists|f: int|
                0 <= f < TOTAL_FRAMES && !frame_used(old(frames)@, f),
        ensures
            final(self).wf(),
            final(frames).wf(),
            tables_reserved(final(self).table_frames(), final(frames)@),
            final(self).spec_entry(virt) == Some(table_entry(phys, flags)),
            forall|w: u32| page_number(w) == page_number(virt) ==> #[trigger] final(self).spec_translate(w) == (
                if flags & PRESENT == PRESENT { Some((phys & 0xFFFF_F000u32) | (w & 0xFFFu32)) } else { None }),
            forall|w: u32| page_number(w) != page_number(virt) ==> #[trigger] final(self).spec_translate(w) == old(self).spec_translate(w),
            forall|w: u32| page_number(w) != page_number(virt) && old(self).spec_entry(w) is Some
                ==> #[trigger] final(self).spec_entry(w) == old(self).spec_entry(w),
            entry_present(old(self).dir()[pd_index(virt)]) ==> final(self).dir() == old(self).dir() && final(frames)@ == old(frames)@,
            !entry_present(old(self).dir()[pd_index(virt)]) ==> exists|f: int| {
                &&& is_first_free(old(frames)@, f)
                &&& final(frames)@ == mark_used(old(frames)@, f)
                &&& final(self).dir() == old(self).dir().update(pd_index(virt), directory_entry((f * FRAME_SIZE) as u32, flags))
                &&& fresh_table_added(old(self).table_frames(), final(self).table_frames(), (f * FRAME_SIZE) as u32,
                        pt_index(virt), table_entry(phys, flags))
            },
            entry_present(old(self).dir()[pd_index(virt)]) ==> final(self).table_frames().len() == old(self).table_frames().len(),
    {
        let ghost dir0 = self.dir();
        let ghost ts0 = self.table_frames();
        let ghost bm0 = frames@;
        proof {
            lemma_index_bounds(virt);
            lemma_table_entry(phys, flags);
        }
        let pd = (virt >> 22u32) as usize;
        let pt = ((virt >> 12u32) & 0x3FFu32) as usize;
        let pde = self.directory.entries[pd];
        let pte = (phys & 0xFFFF_F000u32) | (flags & 0xFFFu32);
        if pde & PRESENT != PRESENT {
            // no table yet: take a zeroed frame for one
            let r = frames.allocate_frame();
            let new_frame = match r {
                Some(addr) => addr,
                None => {
                    proof {
                        let f = choose|f: int| 0 <= f < TOTAL_FRAMES && !frame_used(bm0, f);
                        assert(frame_used(bm0, f));
                    }
                    return;
                }
            };
            let ghost f = new_frame as int / FRAME_SIZE as int;
            proof {
                assert(new_frame & 0xFFFu32 == 0) by (bit_vector)
                    requires new_frame % 4096 == 0;
                assert((f * FRAME_SIZE) as u32 == new_frame);
                // the fresh frame holds no table yet
                crate::mm::memory::lemma_mark_used(bm0, f);
                assert forall|a: int| 0 <= a < ts0.len() implies (#[trigger] ts0[a]).phys != new_frame by {
                    assert(frame_used(bm0, ts0[a].phys as int / FRAME_SIZE as int));
                }
            }
            let mut table = PageTable::new();
            table.entries[pt] = pte;
            self.tables.push(TableFrame { phys: new_frame, table });
            self.directory.entries[pd] = new_frame | PRESENT | WRITABLE | (flags & USER_ACCESSIBLE);
            proof {
                let dir1 = self.dir();
                let ts1 = self.table_frames();
                lemma_directory_entry(new_frame, flags);
                assert(dir1 == dir0.update(pd as int, directory_entry(new_frame, flags)));
                assert(ts1 == ts0.push(TableFrame { phys: new_frame, table }));
                lemma_table_at(ts1, new_frame, ts0.len() as int);
                // the old tables keep their places
                assert forall|a: int| 0 <= a < ts0.len() implies #[trigger] ts1[a] == ts0[a] by {}
                assert forall|i: int| 0 <= i < PAGE_ENTRIES && entry_present(#[trigger] dir1[i])
                    implies exists|j: int| holds_table(ts1, entry_frame(dir1[i]), j) by {
                    if i == pd {
                        assert(holds_table(ts1, entry_frame(dir1[i]), ts0.len() as int));
                    } else {
                        assert(entry_present(dir0[i]));
                        let j = choose|j: int| holds_table(ts0, entry_frame(dir0[i]), j);
                        assert(holds_table(ts1, entry_frame(dir1[i]), j));
                    }
                }
                assert forall|i: int, k: int| 0 <= i < PAGE_ENTRIES && 0 <= k < PAGE_ENTRIES && i != k
                    && entry_present(#[trigger] dir1[i]) && entry_present(#[trigger] dir1[k])
                    implies entry_frame(dir1[i]) != entry_frame(dir1[k]) by {
                    if i == pd {
                        assert(entry_present(dir0[k]));
                        let j = choose|j: int| holds_table(ts0, entry_frame(dir0[k]), j);
                        assert(ts0[j].phys != new_frame);
                    } else if k == pd {
                        assert(entry_present(dir0[i]));
                        let j = choose|j: int| holds_table(ts0, entry_frame(dir0[i]), j);
                        assert(ts0[j].phys != new_frame);
                    } else {
                        assert(entry_present(dir0[i]) && entry_present(dir0[k]));
                    }
                }
                assert forall|a: int, b: int| 0 <= a < b < ts1.len() implies (#[trigger] ts1[a]).phys != (#[trigger] ts1[b]).phys by {
                    if b == ts0.len() {
                        assert(ts0[a].phys != new_frame);
                    }
                }
                assert(address_space_wf(dir1, ts1));
                let bm1 = frames@;
                assert forall|a: int| 0 <= a < ts1.len() implies frame_used(bm1, (#[trigger] ts1[a]).phys as int / FRAME_SIZE as int) by {
                    if a < ts0.len() {
                        assert(frame_used(bm0, ts0[a].phys as int / FRAME_SIZE as int));
                        assert((ts0[a].phys as int / FRAME_SIZE as int) < TOTAL_FRAMES) by (nonlinear_arith)
                            requires ts0[a].phys <= u32::MAX;
                    }
                }
                assert(table_entry_of(dir1, ts1, virt) == Some(pte));
                assert forall|w: u32| page_number(w) == page_number(virt)
                    implies #[trigger] translate(dir1, ts1, w) == (if flags & PRESENT == PRESENT { Some((phys & 0xFFFF_F000u32) | (w & 0xFFFu32)) } else { None }) by {
                    lemma_same_page(w, virt);
                }
                assert forall|w: u32| page_number(w) != page_number(virt)
                    implies #[trigger] translate(dir1, ts1, w) == translate(dir0, ts0, w) by {
                    lemma_same_page(w, virt);
                    lemma_index_bounds(w);
                    if pd_index(w) == pd as int {
                        // the fresh table is zero outside the new entry
                        assert(table_entry_of(dir1, ts1, w) == Some(0u32));
                        assert(0u32 & 1u32 != 1u32) by (bit_vector);
                    } else {
                        assert(dir1[pd_index(w)] == dir0[pd_index(w)]);
                        if entry_present(dir0[pd_index(w)]) {
                            let j = choose|j: int| holds_table(ts0, entry_frame(dir0[pd_index(w)]), j);
                            lemma_table_at(ts0, entry_frame(dir0[pd_index(w)]), j);
                            lemma_table_at(ts1, entry_frame(dir0[pd_index(w)]), j);
                        }
                    }
                }
                assert forall|w: u32| page_number(w) != page_number(virt) && table_entry_of(dir0, ts0, w) is Some
                    implies #[trigger] table_entry_of(dir1, ts1, w) == table_entry_of(dir0, ts0, w) by {
                    lemma_same_page(w, virt);
                    lemma_index_bounds(w);
                    assert(pd_index(w) != pd as int);
                    assert(dir1[pd_index(w)] == dir0[pd_index(w)]);
                    let j = choose|j: int| holds_table(ts0, entry_frame(dir0[pd_index(w)]), j);
                    lemma_table_at(ts0, entry_frame(dir0[pd_index(w)]), j);
                    lemma_table_at(ts1, entry_frame(dir0[pd_index(w)]), j);
                }
            }
        } else {
            // find the table the directory entry points at
            let target = pde & 0xFFFF_F000u32;
            let ghost jt = choose|j: int| holds_table(ts0, target, j);
            proof {
                assert(entry_present(dir0[pd as int]));
                lemma_table_at(ts0, target, jt);
            }
            let mut j: usize = 0;
            while j < self.tables.len() && self.tables[j].phys != target
                invariant
                    self.tables@ == ts0,
                    holds_table(ts0, target, jt),
                    0 <= j <= jt,
                    forall|k: int| 0 <= k < j ==> (#[trigger] ts0[k]).phys != target,
                decreases ts0.len() - j,
            {
                j = j + 1;
            }
            proof {
                assert(j == jt);
            }
            let mut tf = self.tables[j];
            tf.table.entries[pt] = pte;
            self.tables.set(j, tf);
            proof {
                let dir1 = self.dir();
                let ts1 = self.table_frames();
                assert(dir1 == dir0);
                assert(ts1 == ts0.update(j as int, tf));
                assert forall|a: int| 0 <= a < ts1.len() implies (#[trigger] ts1[a]).phys == ts0[a].phys by {}
                assert forall|i: int| 0 <= i < PAGE_ENTRIES && entry_present(#[trigger] dir1[i])
                    implies exists|k: int| holds_table(ts1, entry_frame(dir1[i]), k) by {
                    let k = choose|k: int| holds_table(ts0, entry_frame(dir0[i]), k);
                    assert(holds_table(ts1, entry_frame(dir1[i]), k));
                }
                assert forall|a: int, b: int| 0 <= a < b < ts1.len() implies (#[trigger] ts1[a]).phys != (#[trigger] ts1[b]).phys by {
                    assert(ts0[a].phys != ts0[b].phys);
                }
                assert(address_space_wf(dir1, ts1));
                lemma_table_at(ts1, target, j as int);
                assert(table_entry_of(dir1, ts1, virt) == Some(pte));
                assert forall|w: u32| page_number(w) == page_number(virt)
                    implies #[trigger] translate(dir1, ts1, w) == (if flags & PRESENT == PRESENT { Some((phys & 0xFFFF_F000u32) | (w & 0xFFFu32)) } else { None }) by {
                    lemma_same_page(w, virt);
                }
                assert forall|w: u32| page_number(w) != page_number(virt)
                    implies #[trigger] translate(dir1, ts1, w) == translate(dir0, ts0, w) by {
                    lemma_same_page(w, virt);
                    lemma_index_bounds(w);
                    if entry_present(dir0[pd_index(w)]) {
                        let k = choose|k: int| holds_table(ts0, entry_frame(dir0[pd_index(w)]), k);
                        lemma_table_at(ts0, entry_frame(dir0[pd_index(w)]), k);
                        lemma_table_at(ts1, entry_frame(dir0[pd_index(w)]), k);
                        if pd_index(w) != pd as int {
                            assert(entry_frame(dir0[pd_index(w)]) != entry_frame(dir0[pd as int]));
                            assert(k != j);
                        }
                    }
                }
                assert forall|w: u32| page_number(w) != page_number(virt) && table_entry_of(dir0, ts0, w) is Some
                    implies #[trigger] table_entry_of(dir1, ts1, w) == table_entry_of(dir0, ts0, w) by {
                    lemma_same_page(w, virt);
                    lemma_index_bounds(w);
                    let k = choose|k: int| holds_table(ts0, entry_frame(dir0[pd_index(w)]), k);
                    lemma_table_at(ts0, entry_frame(dir0[pd_index(w)]), k);
                    lemma_table_at(ts1, entry_frame(dir0[pd_index(w)]), k);
                    if pd_index(w) != pd as int {
                        assert(entry_frame(dir0[pd_index(w)]) != entry_frame(dir0[pd as int]));
                        assert(k != j);
                    }
                }
            }
        }
    }
}

/// Entry of the boot identity map for the `n`-th page: frame `n`, present and
/// writable.
pub open spec fn identity_entry(n: int) -> u32 {
    ((n * PAGE_SIZE as int) as u32) | PRESENT | WRITABLE
}

proof fn lemma_identity_translate(v: u32)
    requires
        v < KERNEL_MAPPED_BYTES,
    ensures
        pd_index(v) == 0 || pd_index(v) == 1,
        entry_present(identity_entry(pd_index(v) * 1024 + pt_index(v))),
        entry_frame(identity_entry(pd_index(v) * 1024 + pt_index(v))) | (v & 0xFFFu32) == v,
{
    lemma_index_bounds(v);
    let n: u32 = v >> 12u32;
    assert(n < 2048u32 && (v >> 22u32 == 0u32 || v >> 22u32 == 1u32)) by (bit_vector)
        requires v < 0x80_0000u32, n == v >> 12u32;
    let m: u32 = (n as int * 4096) as u32;
    assert(m == n << 12u32) by (bit_vector)
        requires n < 2048u32, m == (n * 4096u32) as u32;
    assert((m | 1u32 | 2u32) & 1u32 == 1u32
        && ((m | 1u32 | 2u32) & 0xFFFF_F000u32) | (v & 0xFFFu32) == v) by (bit_vector)
        requires n == v >> 12u32, n < 2048u32, m == n << 12u32;
}

impl AddressSpace {
    /// The boot address space: the first 8 MiB identity-mapped, present and
    /// writable, through two page tables held in frames `pt0_phys` (first
    /// 4 MiB) and `pt1_phys` (second 4 MiB).
    pub fn kernel(pt0_phys: u32, pt1_phys: u32) -> (s: AddressSpace)
        requires
            pt0_phys & 0xFFFu32 == 0,
            pt1_phys & 0xFFFu32 == 0,
            pt0_phys != pt1_phys,
        ensures
            s.wf(),
            s.dir()[0] == pt0_phys | PRESENT | WRITABLE,
            s.dir()[1] == pt1_phys | PRESENT | WRITABLE,
            forall|i: int| 2 <= i < PAGE_ENTRIES ==> s.dir()[i] == 0,
            s.table_frames().len() == 2,
            s.table_frames()[0].phys == pt0_phys,
            s.table_frames()[1].phys == pt1_phys,
            forall|i: int| 0 <= i < PAGE_ENTRIES ==> #[trigger] s.table_frames()[0].table.entries@[i] == identity_entry(i),
            forall|i: int| 0 <= i < PAGE_ENTRIES ==> #[trigger] s.table_frames()[1].table.entries@[i] == identity_entry(i + 1024),
            forall|v: u32| #[trigger] s.spec_translate(v) == (if v < KERNEL_MAPPED_BYTES { Some(v) } else { None }),
    {
        let mut pt0 = PageTable::new();
        let mut pt1 = PageTable::new();
        let mut i: usize = 0;
        while i < PAGE_ENTRIES
            invariant
                i <= PAGE_ENTRIES,
                forall|k: int| 0 <= k < i ==> #[trigger] pt0.entries@[k] == identity_entry(k),
                forall|k: int| 0 <= k < i ==> #[trigger] pt1.entries@[k] == identity_entry(k + 1024),
            decreases PAGE_ENTRIES - i,
        {
            let phys_addr_0 = (i as u32) * PAGE_SIZE;
            pt0.entries[i] = phys_addr_0 | PRESENT | WRITABLE;
            let phys_addr_1 = ((i + 1024) as u32) * PAGE_SIZE;
            pt1.entries[i] = phys_addr_1 | PRESENT | WRITABLE;
            i = i + 1;
        }
        let mut directory = PageDirectory::new();
        directory.entries[0] = pt0_phys | PRESENT | WRITABLE;
        directory.entries[1] = pt1_phys | PRESENT | WRITABLE;
        let mut tables: Vec<TableFrame> = Vec::new();
        tables.push(TableFrame { phys: pt0_phys, table: pt0 });
        tables.push(TableFrame { phys: pt1_phys, table: pt1 });
        let s = AddressSpace { directory, tables };
        proof {
            let dir = s.dir();
            let ts = s.table_frames();
            lemma_directory_entry(pt0_phys, 0);
            lemma_directory_entry(pt1_phys, 0);
            assert(directory_entry(pt0_phys, 0) == pt0_phys | PRESENT | WRITABLE) by (bit_vector);
            assert(directory_entry(pt1_phys, 0) == pt1_phys | PRESENT | WRITABLE) by (bit_vector);
            assert(0u32 & 1u32 != 1u32) by (bit_vector);
            assert(holds_table(ts, pt0_phys, 0));
            assert(holds_table(ts, pt1_phys, 1));
            lemma_table_at(ts, pt0_phys, 0);
            lemma_table_at(ts, pt1_phys, 1);
            assert(address_space_wf(dir, ts));
            assert forall|v: u32| #[trigger] translate(dir, ts, v) == (if v < KERNEL_MAPPED_BYTES { Some(v) } else { None }) by {
                lemma_index_bounds(v);
                if v < KERNEL_MAPPED_BYTES {
                    lemma_identity_translate(v);
                } else {
                    assert(v >> 22u32 >= 2u32) by (bit_vector)
                        requires v >= 0x80_0000u32;
                }
            }
        }
        s
    }
}

impl AddressSpace {
    /// The physical address `v` maps to, if its page is mapped.
    pub fn translate(&self, v: u32) -> (r: Option<u32>)
        requires
            self.wf(),
        ensures
            r == self.spec_translate(v),
    {
        proof {
            lemma_index_bounds(v);
        }
        let pde = self.directory.entries[(v >> 22u32) as usize];
        if pde & PRESENT != PRESENT {
            return None;
        }
        let target = pde & 0xFFFF_F000u32;
        let ghost ts = self.table_frames();
        let ghost jt = choose|j: int| holds_table(ts, target, j);
        proof {
            lemma_table_at(ts, target, jt);
        }
        let mut j: usize = 0;
        while j < self.tables.len() && self.tables[j].phys != target
            invariant
                self.tables@ == ts,
                holds_table(ts, target, jt),
                0 <= j <= jt,
                forall|k: int| 0 <= k < j ==> (#[trigger] ts[k]).phys != target,
            decreases ts.len() - j,
        {
            j = j + 1;
        }
        proof {
            assert(j == jt);
        }
        let pte = self.tables[j].table.entries[((v >> 12u32) & 0x3FFu32) as usize];
        if pte & PRESENT != PRESENT {
            None
        } else {
            Some((pte & 0xFFFF_F000u32) | (v & 0xFFFu32))
        }
    }
}


/// `v` lies in the `n` pages that start at `base`.
pub open spec fn in_pages(v: u32, base: u32, n: int) -> bool {
    base <= v < base + n * PAGE_SIZE
}

/// Every address of the `n` pages from `base` maps into a frame that `bm`
/// holds as used, at the same offset, and two different pages map to
/// different frames.
pub open spec fn pages_backed(space: &AddressSpace, bm: Seq<u8>, base: u32, n: int) -> bool {
    &&& forall|v: u32| #[trigger] in_pages(v, base, n) ==> (space.spec_translate(v) matches Some(p)
        && frame_used(bm, p as int / FRAME_SIZE as int) && p & 0xFFFu32 == v & 0xFFFu32)
    &&& forall|v: u32, w: u32| #[trigger] in_pages(v, base, n) && #[trigger] in_pages(w, base, n)
        && page_number(v) != page_number(w)
        ==> space.spec_translate(v).unwrap() & 0xFFFF_F000u32 != space.spec_translate(w).unwrap() & 0xFFFF_F000u32
}

/// The `n` pages from `base` start on a page boundary and lie under one
/// directory entry.
pub open spec fn one_table_range(base: u32, n: int) -> bool {
    base & 0xFFFu32 == 0 && ((base >> 12u32) & 0x3FFu32) + n <= PAGE_ENTRIES
}

/// Frames taken by mapping `n` fresh pages from `base`: one per page, and one
/// for the page table when the directory has none there yet.
pub open spec fn frames_needed(dir: Seq<u32>, base: u32, n: int) -> int {
    if n == 0 {
        0
    } else if entry_present(dir[pd_index(base)]) {
        n
    } else {
        n + 1
    }
}

pub(crate) proof fn lemma_frame_bound(p: u32)
    ensures
        0 <= (p as int / FRAME_SIZE as int),
        (p as int / FRAME_SIZE as int) < TOTAL_FRAMES,
{
    assert(0 <= (p as int / 4096) && (p as int / 4096) < 1048576) by (nonlinear_arith)
        requires p <= u32::MAX;
}

/// The frame an address lies in is that of its page-aligned part.
pub(crate) proof fn lemma_frame_of(p: u32)
    ensures
        p as int / 4096 == (p & 0xFFFF_F000u32) as int / 4096,
{
    assert(p as int / 4096 == (p & 0xFFFF_F000u32) as int / 4096) by (bit_vector);
}

/// An offset put into a page-aligned frame address keeps the frame and the
/// offset.
proof fn lemma_frame_offset(frame: u32, v: u32)
    requires
        frame & 0xFFFu32 == 0,
    ensures
        (frame | (v & 0xFFFu32)) as int / 4096 == frame as int / 4096,
        (frame | (v & 0xFFFu32)) & 0xFFFu32 == v & 0xFFFu32,
        (frame | (v & 0xFFFu32)) & 0xFFFF_F000u32 == frame,
{
    assert((frame | (v & 0xFFFu32)) as int / 4096 == frame as int / 4096
        && (frame | (v & 0xFFFu32)) & 0xFFFu32 == v & 0xFFFu32
        && (frame | (v & 0xFFFu32)) & 0xFFFF_F000u32 == frame) by (bit_vector)
        requires frame & 0xFFFu32 == 0;
}

proof fn lemma_range_page(base: u32, i: u32, v: u32)
    requires
        base & 0xFFFu32 == 0,
        ((base >> 12u32) & 0x3FFu32) + i < 1024,
    ensures
        base + i * 4096 <= u32::MAX,
        pd_index((base + i * 4096) as u32) == pd_index(base),
        ((base + i * 4096) as u32) & 0xFFFu32 == 0,
        (page_number(v) == page_number((base + i * 4096) as u32))
            <==> (base + i * 4096 <= v < base + i * 4096 + 4096),
{
    assert(base + i * 4096 <= 0xFFFF_FFFFu32) by (bit_vector)
        requires base & 0xFFFu32 == 0, ((base >> 12u32) & 0x3FFu32) + i < 1024u32;
    let virt: u32 = (base + i * 4096) as u32;
    assert(virt >> 22u32 == base >> 22u32 && virt & 0xFFFu32 == 0u32
        && ((v >> 12u32 == virt >> 12u32) <==> (virt <= v && v < virt + 4096u32))) by (bit_vector)
        requires
            base & 0xFFFu32 == 0,
            ((base >> 12u32) & 0x3FFu32) + i < 1024u32,
            base + i * 4096 <= 0xFFFF_FFFFu32,
            virt == base + i * 4096;
}

impl AddressSpace {
    /// Frames that mapping `count` fresh pages from `base` takes.
    pub fn frames_required(&self, base: u32, count: u32) -> (n: u64)
        requires
            self.wf(),
        ensures
            n == frames_needed(self.dir(), base, count as int),
    {
        if count == 0 {
            0
        } else if self.needs_table(base) {
            count as u64 + 1
        } else {
            count as u64
        }
    }

    /// Maps the `count` pages from `base` with `flags`, each to a frame taken
    /// from `frames`.  Every page of the range then reaches a frame that was
    /// free before, no two pages share a frame, every other address
    /// translates as before, and no used frame is given back.  The frames
    /// taken are the lowest that were free.  The range lies under one
    /// directory entry, so that at most one page table is made and the frames
    /// needed are known in advance; a range that crosses a 4 MiB boundary is
    /// mapped with one call per directory entry, as `map_user_space` does for
    /// the pages on either side of `0xA000_0000`.
    pub fn map_fresh_pages(&mut self, frames: &mut MemoryFrameAllocator, base: u32, count: u32, flags: u32)
        requires
            old(self).wf(),
            old(frames).wf(),
            tables_reserved(old(self).table_frames(), old(frames)@),
            one_table_range(base, count as int),
            flags & PRESENT == PRESENT,
            free_frames(old(frames)@).len() >= frames_needed(old(self).dir(), base, count as int),
        ensures
            final(self).wf(),
            final(frames).wf(),
            tables_reserved(final(self).table_frames(), final(frames)@),
            pages_backed(&*final(self), final(frames)@, base, count as int),
            forall|v: u32| #[trigger] in_pages(v, base, count as int)
                ==> !frame_used(old(frames)@, final(self).spec_translate(v).unwrap() as int / FRAME_SIZE as int),
            forall|v: u32| #[trigger] in_pages(v, base, count as int)
                ==> final(self).spec_entry(v) == Some(table_entry(final(self).spec_translate(v).unwrap(), flags)),
            forall|v: u32| !in_pages(v, base, count as int)
                ==> #[trigger] final(self).spec_translate(v) == old(self).spec_translate(v),
            forall|g: int| 0 <= g < TOTAL_FRAMES && frame_used(old(frames)@, g) ==> #[trigger] frame_used(final(frames)@, g),
            free_frames(final(frames)@).len() == free_frames(old(frames)@).len() - frames_needed(old(self).dir(), base, count as int),
            took_lowest(old(frames)@, final(frames)@),
            forall|v: u32| !in_pages(v, base, count as int) && old(self).spec_entry(v) is Some
                ==> #[trigger] final(self).spec_entry(v) == old(self).spec_entry(v),
            forall|k: int| 0 <= k < PAGE_ENTRIES && k != pd_index(base) ==> #[trigger] final(self).dir()[k] == old(self).dir()[k],
            count > 0 ==> entry_present(final(self).dir()[pd_index(base)]),
    {
        let ghost space0 = *self;
        let ghost bm_start = frames@;
        let ghost pd = pd_index(base);
        proof {
            lemma_index_bounds(base);
        }
        let mut i: u32 = 0;
        while i < count
            invariant
                self.wf(),
                0 <= pd < PAGE_ENTRIES,
                frames.wf(),
                tables_reserved(self.table_frames(), frames@),
                one_table_range(base, count as int),
                flags & PRESENT == PRESENT,
                pd == pd_index(base),
                i <= count,
                free_frames(frames@).len() >= (count - i) + (if i < count && !entry_present(self.dir()[pd]) { 1int } else { 0int }),
                pages_backed(&*self, frames@, base, i as int),
                forall|v: u32| #[trigger] in_pages(v, base, i as int)
                    ==> !frame_used(bm_start, self.spec_translate(v).unwrap() as int / FRAME_SIZE as int),
                forall|v: u32| #[trigger] in_pages(v, base, i as int)
                    ==> self.spec_entry(v) == Some(table_entry(self.spec_translate(v).unwrap(), flags)),
                forall|v: u32| !in_pages(v, base, i as int) ==> #[trigger] self.spec_translate(v) == space0.spec_translate(v),
                took_lowest(bm_start, frames@),
                forall|g: int| 0 <= g < TOTAL_FRAMES && frame_used(bm_start, g) ==> #[trigger] frame_used(frames@, g),
                free_frames(frames@).len() == free_frames(bm_start).len() - i
                    - (if i > 0 && !entry_present(space0.dir()[pd]) { 1int } else { 0int }),
                i > 0 ==> entry_present(self.dir()[pd]),
                i == 0 ==> self.dir()[pd] == space0.dir()[pd],
                forall|v: u32| !in_pages(v, base, i as int) && space0.spec_entry(v) is Some
                    ==> #[trigger] self.spec_entry(v) == space0.spec_entry(v),
                forall|k: int| 0 <= k < PAGE_ENTRIES && k != pd ==> #[trigger] self.dir()[k] == space0.dir()[k],
            decreases count - i,
        {
            let ghost bm0 = frames@;
            let ghost sp0 = *self;
            proof {
                crate::mm::memory::lemma_free_frames_finite(bm0);
                crate::mm::memory::lemma_some_free_frame(bm0);
            }
            let frame = match frames.allocate_frame() {
                Some(f) => f,
                None => {
                    proof {
                        let f = choose|f: int| 0 <= f < TOTAL_FRAMES && !frame_used(bm0, f);
                        assert(frame_used(bm0, f));
                    }
                    return;
                },
            };
            let ghost f = frame as int / FRAME_SIZE as int;
            let ghost bm1 = frames@;
            proof {
                crate::mm::memory::lemma_free_frames_mark_used(bm0, f);
                crate::mm::memory::lemma_mark_used(bm0, f);
                crate::mm::memory::lemma_took_lowest_step(bm_start, bm0, f);
                assert forall|a: int| 0 <= a < self.table_frames().len() implies
                    frame_used(bm1, (#[trigger] self.table_frames()[a]).phys as int / FRAME_SIZE as int) by {
                    lemma_frame_bound(self.table_frames()[a].phys);
                }
                lemma_range_page(base, i, 0);
                if !entry_present(self.dir()[pd]) {
                    crate::mm::memory::lemma_some_free_frame(bm1);
                }
                assert(frame & 0xFFFu32 == 0) by (bit_vector)
                    requires frame % 4096 == 0;
            }
            let virt = base + i * PAGE_SIZE;
            self.map_page(frames, virt, frame, flags);
            proof {
                let bm2 = frames@;
                let sp1 = *self;
                assert((frame & 0xFFFF_F000u32) == frame) by (bit_vector)
                    requires frame & 0xFFFu32 == 0;
                assert(pd_index(virt) == pd);
                if entry_present(sp0.dir()[pd]) {
                    assert(bm2 == bm1);
                } else {
                    let g = choose|g: int| {
                        &&& is_first_free(bm1, g)
                        &&& bm2 == mark_used(bm1, g)
                        &&& sp1.dir() == sp0.dir().update(pd_index(virt), directory_entry((g * FRAME_SIZE) as u32, flags))
                    };
                    crate::mm::memory::lemma_free_frames_mark_used(bm1, g);
                    crate::mm::memory::lemma_mark_used(bm1, g);
                    crate::mm::memory::lemma_took_lowest_step(bm_start, bm1, g);
                    assert forall|k: int| 0 <= k < PAGE_ENTRIES && k != pd implies #[trigger] sp1.dir()[k] == sp0.dir()[k] by {}
                }
                assert(entry_present(sp1.dir()[pd]));
                assert forall|g: int| 0 <= g < TOTAL_FRAMES && frame_used(bm0, g) implies #[trigger] frame_used(bm2, g) by {
                    if !entry_present(sp0.dir()[pd]) {
                        let h = choose|h: int| {
                            &&& is_first_free(bm1, h)
                            &&& bm2 == mark_used(bm1, h)
                            &&& sp1.dir() == sp0.dir().update(pd_index(virt), directory_entry((h * FRAME_SIZE) as u32, flags))
                        };
                        crate::mm::memory::lemma_mark_used(bm1, h);
                    }
                }
                assert(frame_used(bm2, f)) by {
                    if !entry_present(sp0.dir()[pd]) {
                        let h = choose|h: int| {
                            &&& is_first_free(bm1, h)
                            &&& bm2 == mark_used(bm1, h)
                            &&& sp1.dir() == sp0.dir().update(pd_index(virt), directory_entry((h * FRAME_SIZE) as u32, flags))
                        };
                        crate::mm::memory::lemma_mark_used(bm1, h);
                    }
                }
                assert forall|v: u32| #[trigger] in_pages(v, base, i + 1) implies (sp1.spec_translate(v) matches Some(p)
                    && frame_used(bm2, p as int / FRAME_SIZE as int) && p & 0xFFFu32 == v & 0xFFFu32) by {
                    lemma_range_page(base, i, v);
                    if page_number(v) == page_number(virt) {
                        assert(sp1.spec_translate(v) == Some(frame | (v & 0xFFFu32)));
                        lemma_frame_offset(frame, v);
                    } else {
                        assert(in_pages(v, base, i as int));
                        let p = sp0.spec_translate(v).unwrap();
                        lemma_frame_bound(p);
                    }
                }
                assert forall|v: u32| #[trigger] in_pages(v, base, i + 1)
                    implies !frame_used(bm_start, sp1.spec_translate(v).unwrap() as int / FRAME_SIZE as int) by {
                    lemma_range_page(base, i, v);
                    if page_number(v) == page_number(virt) {
                        assert(sp1.spec_translate(v) == Some(frame | (v & 0xFFFu32)));
                        lemma_frame_offset(frame, v);
                        assert(!frame_used(bm0, f));
                    } else {
                        assert(in_pages(v, base, i as int));
                    }
                }
                assert forall|v: u32, w: u32| #[trigger] in_pages(v, base, i + 1) && #[trigger] in_pages(w, base, i + 1)
                    && page_number(v) != page_number(w)
                    implies sp1.spec_translate(v).unwrap() & 0xFFFF_F000u32 != sp1.spec_translate(w).unwrap() & 0xFFFF_F000u32 by {
                    lemma_range_page(base, i, v);
                    lemma_range_page(base, i, w);
                    if page_number(v) == page_number(virt) {
                        assert(in_pages(w, base, i as int));
                        let q = sp0.spec_translate(w).unwrap();
                        assert(frame_used(bm0, q as int / FRAME_SIZE as int));
                        lemma_frame_of(q);
                        lemma_frame_offset(frame, v);
                        assert(frame as int / 4096 == f);
                    } else if page_number(w) == page_number(virt) {
                        assert(in_pages(v, base, i as int));
                        let q = sp0.spec_translate(v).unwrap();
                        assert(frame_used(bm0, q as int / FRAME_SIZE as int));
                        lemma_frame_of(q);
                        lemma_frame_offset(frame, w);
                    } else {
                        assert(in_pages(v, base, i as int) && in_pages(w, base, i as int));
                    }
                }
                assert forall|v: u32| !in_pages(v, base, i + 1) implies #[trigger] sp1.spec_translate(v) == space0.spec_translate(v) by {
                    lemma_range_page(base, i, v);
                }
                assert forall|v: u32| !in_pages(v, base, i + 1) && space0.spec_entry(v) is Some
                    implies #[trigger] sp1.spec_entry(v) == space0.spec_entry(v) by {
                    lemma_range_page(base, i, v);
                    assert(sp0.spec_entry(v) == space0.spec_entry(v));
                }
                assert forall|v: u32| #[trigger] in_pages(v, base, i + 1)
                    implies sp1.spec_entry(v) == Some(table_entry(sp1.spec_translate(v).unwrap(), flags)) by {
                    lemma_range_page(base, i, v);
                    if page_number(v) == page_number(virt) {
                        lemma_same_page(v, virt);
                        assert(sp1.spec_entry(v) == sp1.spec_entry(virt));
                        assert(sp1.spec_translate(v) == Some(frame | (v & 0xFFFu32)));
                        assert(table_entry(frame | (v & 0xFFFu32), flags) == table_entry(frame, flags)) by (bit_vector)
                            requires frame & 0xFFFu32 == 0;
                    } else {
                        assert(in_pages(v, base, i as int));
                    }
                }
            }
            i = i + 1;
        }
    }

    /// Maps the same pages as `map_fresh_pages`, with the same outcome, but
    /// takes them from the top down: the highest page of the range gets its
    /// frame first, as a stack that grows downward is laid out.
    pub fn map_fresh_pages_down(&mut self, frames: &mut MemoryFrameAllocator, base: u32, count: u32, flags: u32)
        requires
            old(self).wf(),
            old(frames).wf(),
            tables_reserved(old(self).table_frames(), old(frames)@),
            one_table_range(base, count as int),
            flags & PRESENT == PRESENT,
            free_frames(old(frames)@).len() >= frames_needed(old(self).dir(), base, count as int),
        ensures
            final(self).wf(),
            final(frames).wf(),
            tables_reserved(final(self).table_frames(), final(frames)@),
            pages_backed(&*final(self), final(frames)@, base, count as int),
            forall|v: u32| #[trigger] in_pages(v, base, count as int)
                ==> !frame_used(old(frames)@, final(self).spec_translate(v).unwrap() as int / FRAME_SIZE as int),
            forall|v: u32| #[trigger] in_pages(v, base, count as int)
                ==> final(self).spec_entry(v) == Some(table_entry(final(self).spec_translate(v).unwrap(), flags)),
            forall|v: u32| !in_pages(v, base, count as int)
                ==> #[trigger] final(self).spec_translate(v) == old(self).spec_translate(v),
            forall|g: int| 0 <= g < TOTAL_FRAMES && frame_used(old(frames)@, g) ==> #[trigger] frame_used(final(frames)@, g),
            free_frames(final(frames)@).len() == free_frames(old(frames)@).len() - frames_needed(old(self).dir(), base, count as int),
            took_lowest(old(frames)@, final(frames)@),
            forall|v: u32| !in_pages(v, base, count as int) && old(self).spec_entry(v) is Some
                ==> #[trigger] final(self).spec_entry(v) == old(self).spec_entry(v),
            forall|k: int| 0 <= k < PAGE_ENTRIES && k != pd_index(base) ==> #[trigger] final(self).dir()[k] == old(self).dir()[k],
            count > 0 ==> entry_present(final(self).dir()[pd_index(base)]),
    {
        let ghost space0 = *self;
        let ghost bm_start = frames@;
        let ghost pd = pd_index(base);
        proof {
            lemma_index_bounds(base);
        }
        let mut j: u32 = 0;
        while j < count
            invariant
                self.wf(),
                0 <= pd < PAGE_ENTRIES,
                frames.wf(),
                tables_reserved(self.table_frames(), frames@),
                one_table_range(base, count as int),
                flags & PRESENT == PRESENT,
                pd == pd_index(base),
                j <= count,
                free_frames(bm_start).len() >= frames_needed(space0.dir(), base, count as int),
                pages_backed(&*self, frames@, (base + (count - j) * PAGE_SIZE) as u32, j as int),
                forall|v: u32| #[trigger] in_pages(v, (base + (count - j) * PAGE_SIZE) as u32, j as int)
                    ==> !frame_used(bm_start, self.spec_translate(v).unwrap() as int / FRAME_SIZE as int),
                forall|v: u32| #[trigger] in_pages(v, (base + (count - j) * PAGE_SIZE) as u32, j as int)
                    ==> self.spec_entry(v) == Some(table_entry(self.spec_translate(v).unwrap(), flags)),
                forall|v: u32| !in_pages(v, (base + (count - j) * PAGE_SIZE) as u32, j as int)
                    ==> #[trigger] self.spec_translate(v) == space0.spec_translate(v),
                took_lowest(bm_start, frames@),
                forall|g: int| 0 <= g < TOTAL_FRAMES && frame_used(bm_start, g) ==> #[trigger] frame_used(frames@, g),
                free_frames(frames@).len() == free_frames(bm_start).len() - j
                    - (if j > 0 && !entry_present(space0.dir()[pd]) { 1int } else { 0int }),
                j > 0 ==> entry_present(self.dir()[pd]),
                j == 0 ==> self.dir()[pd] == space0.dir()[pd],
                forall|v: u32| !in_pages(v, (base + (count - j) * PAGE_SIZE) as u32, j as int) && space0.spec_entry(v) is Some
                    ==> #[trigger] self.spec_entry(v) == space0.spec_entry(v),
                forall|k: int| 0 <= k < PAGE_ENTRIES && k != pd ==> #[trigger] self.dir()[k] == space0.dir()[k],
            decreases count - j,
        {
            let ghost sp0 = *self;
            let ghost bm0 = frames@;
            let ghost hi: u32 = (base + (count - j) * PAGE_SIZE) as u32;
            proof {
                lemma_range_page(base, (count - 1 - j) as u32, 0);
                if j > 0 {
                    lemma_range_page(base, (count - j) as u32, 0);
                }
            }
            let page = base + (count - 1 - j) * PAGE_SIZE;
            proof {
                assert(j > 0 ==> hi == page + 4096);
                lemma_index_bounds(page);
                assert(pd_index(page) == pd);
            }
            self.map_fresh_pages(frames, page, 1, flags);
            proof {
                let sp1 = *self;
                let bm1 = frames@;
                assert forall|v: u32| #[trigger] in_pages(v, page, j + 1) implies (sp1.spec_translate(v) matches Some(p)
                    && frame_used(bm1, p as int / FRAME_SIZE as int) && p & 0xFFFu32 == v & 0xFFFu32) by {
                    if !in_pages(v, page, 1) {
                        assert(in_pages(v, hi, j as int));
                        let p = sp0.spec_translate(v).unwrap();
                        lemma_frame_bound(p);
                    }
                }
                assert forall|v: u32| #[trigger] in_pages(v, page, j + 1)
                    implies !frame_used(bm_start, sp1.spec_translate(v).unwrap() as int / FRAME_SIZE as int) by {
                    if in_pages(v, page, 1) {
                        lemma_frame_bound(sp1.spec_translate(v).unwrap());
                    } else {
                        assert(in_pages(v, hi, j as int));
                    }
                }
                assert forall|v: u32| #[trigger] in_pages(v, page, j + 1)
                    implies sp1.spec_entry(v) == Some(table_entry(sp1.spec_translate(v).unwrap(), flags)) by {
                    if !in_pages(v, page, 1) {
                        assert(in_pages(v, hi, j as int));
                    }
                }
                assert forall|v: u32, w: u32| #[trigger] in_pages(v, page, j + 1) && #[trigger] in_pages(w, page, j + 1)
                    && page_number(v) != page_number(w)
                    implies sp1.spec_translate(v).unwrap() & 0xFFFF_F000u32 != sp1.spec_translate(w).unwrap() & 0xFFFF_F000u32 by {
                    let p = sp1.spec_translate(v).unwrap();
                    let q = sp1.spec_translate(w).unwrap();
                    lemma_frame_of(p);
                    lemma_frame_of(q);
                    lemma_frame_bound(p);
                    lemma_frame_bound(q);
                    if in_pages(v, page, 1) && in_pages(w, page, 1) {
                        lemma_range_page(page, 0, v);
                        lemma_range_page(page, 0, w);
                    } else if in_pages(v, page, 1) {
                        assert(in_pages(w, hi, j as int));
                        assert(frame_used(bm0, q as int / FRAME_SIZE as int));
                        assert(!frame_used(bm0, p as int / FRAME_SIZE as int));
                    } else if in_pages(w, page, 1) {
                        assert(in_pages(v, hi, j as int));
                        assert(frame_used(bm0, p as int / FRAME_SIZE as int));
                        assert(!frame_used(bm0, q as int / FRAME_SIZE as int));
                    } else {
                        assert(in_pages(v, hi, j as int) && in_pages(w, hi, j as int));
                    }
                }
                assert forall|v: u32| !in_pages(v, page, j + 1) implies #[trigger] sp1.spec_translate(v) == space0.spec_translate(v) by {
                    assert(!in_pages(v, page, 1) && !in_pages(v, hi, j as int));
                }
                assert forall|v: u32| !in_pages(v, page, j + 1) && space0.spec_entry(v) is Some
                    implies #[trigger] sp1.spec_entry(v) == space0.spec_entry(v) by {
                    assert(!in_pages(v, page, 1) && !in_pages(v, hi, j as int));
                    assert(sp0.spec_entry(v) == space0.spec_entry(v));
                }
                assert forall|g: int| 0 <= g < TOTAL_FRAMES && frame_used(bm_start, g) implies #[trigger] frame_used(bm1, g) by {
                    assert(frame_used(bm0, g));
                }
                crate::mm::memory::lemma_took_lowest_chain(bm_start, bm0, bm1);
            }
            j = j + 1;
            proof {
                assert((base + (count - j) * PAGE_SIZE) as u32 == page);
            }
        }
        proof {
            assert((base + (count - j) * PAGE_SIZE) as u32 == base);
        }
    }
}

} // verus!

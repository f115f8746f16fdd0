//! x86 descriptor tables, paging structures and I/O ports.
use vstd::prelude::*;

verus! {

// ---------------------------------------------------------------------------
// Global descriptor table
// ---------------------------------------------------------------------------

/// Operand of `lgdt`: size of the table minus one, and its address.
#[derive(Clone, Copy, Debug)]
pub struct GdtPointer {
    pub limit: u16,
    pub base: u32,
}

/// One 8-byte segment descriptor.
#[derive(Clone, Copy, PartialEq, Eq, Debug)]
pub struct GdtEntry(pub u64);

/// Segment base held in descriptor `e` (bits 16..40 and 56..64).
pub open spec fn descriptor_base(e: u64) -> u64 {
    ((e >> 16u64) & 0xFF_FFFFu64) | (((e >> 56u64) & 0xFFu64) << 24u64)
}

/// Segment limit held in descriptor `e` (bits 0..16 and 48..52).
pub open spec fn descriptor_limit(e: u64) -> u64 {
    (e & 0xFFFFu64) | (((e >> 48u64) & 0xFu64) << 16u64)
}

/// Access byte of descriptor `e` (bits 40..48).
pub open spec fn descriptor_access(e: u64) -> u64 {
    (e >> 40u64) & 0xFFu64
}

/// Flags nibble of descriptor `e` (bits 52..56).
pub open spec fn descriptor_flags(e: u64) -> u64 {
    (e >> 52u64) & 0xFu64
}

/// A descriptor is fixed by its base, limit, access byte and flags.
pub proof fn lemma_descriptor_fields_determine(e1: u64, e2: u64)
    requires
        descriptor_base(e1) == descriptor_base(e2),
        descriptor_limit(e1) == descriptor_limit(e2),
        descriptor_access(e1) == descriptor_access(e2),
        descriptor_flags(e1) == descriptor_flags(e2),
    ensures
        e1 == e2,
{
    assert(e1 == e2) by (bit_vector)
        requires
            ((e1 >> 16u64) & 0xFF_FFFFu64) | (((e1 >> 56u64) & 0xFFu64) << 24u64)
                == ((e2 >> 16u64) & 0xFF_FFFFu64) | (((e2 >> 56u64) & 0xFFu64) << 24u64),
            (e1 & 0xFFFFu64) | (((e1 >> 48u64) & 0xFu64) << 16u64)
                == (e2 & 0xFFFFu64) | (((e2 >> 48u64) & 0xFu64) << 16u64),
            (e1 >> 40u64) & 0xFFu64 == (e2 >> 40u64) & 0xFFu64,
            (e1 >> 52u64) & 0xFu64 == (e2 >> 52u64) & 0xFu64,
    ;
}

impl GdtEntry {
    /// Packs a segment descriptor: the 32-bit base, the low 20 bits of the
    /// limit, the access byte and the low 4 bits of the flags.
    pub fn new(base: u32, limit: u32, access: u8, flags: u8) -> (r: Self)
        ensures
            descriptor_base(r.0) == base as u64,
            descriptor_limit(r.0) == (limit & 0xF_FFFFu32) as u64,
            descriptor_access(r.0) == access as u64,
            descriptor_flags(r.0) == (flags & 0xFu8) as u64,
    {
        let mut entry: u64 = 0;
        entry = entry | (limit & 0xFFFF) as u64;
        entry = entry | (((base & 0xFF_FFFF) as u64) << 16u64);
        entry = entry | ((access as u64) << 40u64);
        entry = entry | ((((limit >> 16u32) & 0x0F) as u64) << 48u64);
        entry = entry | (((flags & 0x0F) as u64) << 52u64);
        entry = entry | ((((base >> 24u32) & 0xFF) as u64) << 56u64);
        proof {
            let b = base as u64;
            let l = limit as u64;
            let a = access as u64;
            let f = flags as u64;
            assert(entry == (l & 0xFFFFu64) | ((b & 0xFF_FFFFu64) << 16u64) | (a << 40u64)
                | (((l >> 16u64) & 0xFu64) << 48u64) | ((f & 0xFu64) << 52u64) | (((b >> 24u64) & 0xFFu64) << 56u64)) by (bit_vector)
                requires
                    b == base as u64, l == limit as u64, a == access as u64, f == flags as u64,
                    entry == 0u64 | (limit & 0xFFFFu32) as u64 | (((base & 0xFF_FFFFu32) as u64) << 16u64)
                        | ((access as u64) << 40u64) | ((((limit >> 16u32) & 0x0Fu32) as u64) << 48u64)
                        | (((flags & 0x0Fu8) as u64) << 52u64) | ((((base >> 24u32) & 0xFFu32) as u64) << 56u64),
            ;
            assert(descriptor_base(entry) == b && descriptor_limit(entry) == l & 0xF_FFFFu64
                && descriptor_access(entry) == a && descriptor_flags(entry) == f & 0xFu64) by (bit_vector)
                requires
                    b <= 0xFFFF_FFFFu64, l <= 0xFFFF_FFFFu64, a <= 0xFFu64, f <= 0xFFu64,
                    entry == (l & 0xFFFFu64) | ((b & 0xFF_FFFFu64) << 16u64) | (a << 40u64)
                        | (((l >> 16u64) & 0xFu64) << 48u64) | ((f & 0xFu64) << 52u64) | (((b >> 24u64) & 0xFFu64) << 56u64),
            ;
            assert((limit & 0xF_FFFFu32) as u64 == l & 0xF_FFFFu64) by (bit_vector)
                requires l == limit as u64;
            assert((flags & 0xFu8) as u64 == f & 0xFu64) by (bit_vector)
                requires f == flags as u64;
        }
        GdtEntry(entry)
    }
}

/// Descriptor `e` describes a segment with these base, limit, access byte and
/// flags.
pub open spec fn is_segment(e: GdtEntry, base: u64, limit: u64, access: u64, flags: u64) -> bool {
    &&& descriptor_base(e.0) == base
    &&& descriptor_limit(e.0) == limit
    &&& descriptor_access(e.0) == access
    &&& descriptor_flags(e.0) == flags
}

/// Selector of the kernel code segment.
pub const KERNEL_CODE_SELECTOR: u16 = 0x08;

/// Selector of the kernel data segment.
pub const KERNEL_DATA_SELECTOR: u16 = 0x10;

/// Selector of the task state segment.
pub const TSS_SELECTOR: u16 = 0x28;

/// Size in bytes of the task state segment: its fields, packed, from the
/// link word to the I/O bitmap offset.
pub const TSS_SIZE: u16 = 102;

/// Size in bytes of the six-entry descriptor table.
pub const GDT_SIZE: u16 = 48;

/// The kernel's global descriptor table.
pub struct Gdt {
    pub entries: [GdtEntry; 6],
}

impl Gdt {
    /// The flat-memory table: null descriptor, kernel code and data, user code
    /// and data over the whole 4 GiB, and an empty slot for the TSS.
    pub fn new() -> (g: Self)
        ensures
            is_segment(g.entries[0], 0, 0, 0, 0),
            is_segment(g.entries[1], 0, 0xF_FFFF, 0x9A, 0xC),
            is_segment(g.entries[2], 0, 0xF_FFFF, 0x92, 0xC),
            is_segment(g.entries[3], 0, 0xF_FFFF, 0xFA, 0xC),
            is_segment(g.entries[4], 0, 0xF_FFFF, 0xF2, 0xC),
            is_segment(g.entries[5], 0, 0, 0, 0),
    {
        proof {
            assert(0u32 & 0xF_FFFFu32 == 0u32 && 0xF_FFFFu32 & 0xF_FFFFu32 == 0xF_FFFFu32) by (bit_vector);
            assert(0u8 & 0xFu8 == 0u8 && 0xCu8 & 0xFu8 == 0xCu8) by (bit_vector);
        }
        let null = GdtEntry::new(0, 0, 0, 0);
        let kernel_code = GdtEntry::new(0, 0xFFFFF, 0x9A, 0xC);
        let kernel_data = GdtEntry::new(0, 0xFFFFF, 0x92, 0xC);
        let user_code = GdtEntry::new(0, 0xFFFFF, 0xFA, 0xC);
        let user_data = GdtEntry::new(0, 0xFFFFF, 0xF2, 0xC);
        let tss = GdtEntry::new(0, 0, 0, 0);
        Gdt { entries: [null, kernel_code, kernel_data, user_code, user_data, tss] }
    }

    /// Points the TSS slot at a task state segment at `tss_base`: present,
    /// ring 0, available 32-bit TSS, byte granularity.
    pub fn set_tss(&mut self, tss_base: u32)
        ensures
            is_segment(final(self).entries[5], tss_base as u64, (TSS_SIZE - 1) as u64, 0x89, 0),
            forall|i: int| 0 <= i < 5 ==> final(self).entries[i] == old(self).entries[i],
    {
        proof {
            assert(101u32 & 0xF_FFFFu32 == 101u32) by (bit_vector);
            assert(0u8 & 0xFu8 == 0u8) by (bit_vector);
        }
        self.entries[5] = GdtEntry::new(tss_base, (TSS_SIZE - 1) as u32, 0x89, 0x0);
    }

    /// The `lgdt` operand for this table placed at `base`.
    pub fn pointer(base: u32) -> (p: GdtPointer)
        ensures
            p.limit == GDT_SIZE - 1,
            p.base == base,
    {
        GdtPointer { limit: GDT_SIZE - 1, base }
    }
}

// ---------------------------------------------------------------------------
// Task state segment
// ---------------------------------------------------------------------------

/// The little-endian 16-bit value of the two bytes at `o` in `b`.
pub open spec fn le_u16_of(b: Seq<u8>, o: int) -> int {
    b[o] + 256 * b[o + 1]
}

/// The little-endian 32-bit value of the four bytes at `o` in `b`.
pub open spec fn le_u32_of(b: Seq<u8>, o: int) -> int {
    b[o] + 256 * b[o + 1] + 65536 * b[o + 2] + 16777216 * b[o + 3]
}

fn push_u16(v: &mut Vec<u8>, x: u16)
    ensures
        final(v)@.len() == old(v)@.len() + 2,
        final(v)@.subrange(0, old(v)@.len() as int) == old(v)@,
        le_u16_of(final(v)@, old(v)@.len() as int) == x,
        x == 0 ==> final(v)@[old(v)@.len() as int] == 0 && final(v)@[old(v)@.len() + 1int] == 0,
{
    let lo = (x & 0xFF) as u8;
    let hi = (x >> 8u16) as u8;
    assert(lo + 256 * hi == x && (x == 0 ==> lo == 0 && hi == 0)) by (bit_vector)
        requires lo == (x & 0xFF) as u8, hi == (x >> 8u16) as u8;
    let ghost before = v@;
    v.push(lo);
    v.push(hi);
    proof {
        assert(v@.subrange(0, before.len() as int) =~= before);
    }
}

fn push_u32(v: &mut Vec<u8>, x: u32)
    ensures
        final(v)@.len() == old(v)@.len() + 4,
        final(v)@.subrange(0, old(v)@.len() as int) == old(v)@,
        le_u32_of(final(v)@, old(v)@.len() as int) == x,
        x == 0 ==> forall|k: int| old(v)@.len() <= k < old(v)@.len() + 4 ==> final(v)@[k] == 0,
{
    let b0 = (x & 0xFF) as u8;
    let b1 = ((x >> 8u32) & 0xFF) as u8;
    let b2 = ((x >> 16u32) & 0xFF) as u8;
    let b3 = (x >> 24u32) as u8;
    assert(b0 + 256 * b1 + 65536 * b2 + 16777216 * b3 == x && (x == 0 ==> b0 == 0 && b1 == 0 && b2 == 0 && b3 == 0)) by (bit_vector)
        requires
            b0 == (x & 0xFF) as u8, b1 == ((x >> 8u32) & 0xFF) as u8,
            b2 == ((x >> 16u32) & 0xFF) as u8, b3 == (x >> 24u32) as u8;
    let ghost before = v@;
    v.push(b0);
    v.push(b1);
    v.push(b2);
    v.push(b3);
    proof {
        assert(v@.subrange(0, before.len() as int) =~= before);
    }
}

/// The 32-bit task state segment; only the ring-0 stack is used.
pub struct TaskStateSegment {
    link: u16,
    _res0: u16,
    pub esp0: u32,
    pub ss0: u16,
    _res1: u16,
    esp1: u32,
    ss1: u16,
    _res2: u16,
    esp2: u32,
    ss2: u16,
    _res3: u16,
    cr3: u32,
    eip: u32,
    eflags: u32,
    eax: u32,
    ecx: u32,
    edx: u32,
    ebx: u32,
    esp: u32,
    ebp: u32,
    esi: u32,
    edi: u32,
    es: u16,
    _res4: u16,
    cs: u16,
    _res5: u16,
    ss: u16,
    _res6: u16,
    ds: u16,
    _res7: u16,
    fs: u16,
    _res8: u16,
    gs: u16,
    _res9: u16,
    ldtr: u16,
    _res10: u16,
    iopb_offset: u16,
}

/// The fields of a task state segment, as plain values.
pub struct TssFields {
    pub link: u16,
    pub _res0: u16,
    pub esp0: u32,
    pub ss0: u16,
    pub _res1: u16,
    pub esp1: u32,
    pub ss1: u16,
    pub _res2: u16,
    pub esp2: u32,
    pub ss2: u16,
    pub _res3: u16,
    pub cr3: u32,
    pub eip: u32,
    pub eflags: u32,
    pub eax: u32,
    pub ecx: u32,
    pub edx: u32,
    pub ebx: u32,
    pub esp: u32,
    pub ebp: u32,
    pub esi: u32,
    pub edi: u32,
    pub es: u16,
    pub _res4: u16,
    pub cs: u16,
    pub _res5: u16,
    pub ss: u16,
    pub _res6: u16,
    pub ds: u16,
    pub _res7: u16,
    pub fs: u16,
    pub _res8: u16,
    pub gs: u16,
    pub _res9: u16,
    pub ldtr: u16,
    pub _res10: u16,
    pub iopb_offset: u16,
}


impl View for TaskStateSegment {
    type V = TssFields;

    closed spec fn view(&self) -> TssFields {
        TssFields {
            link: self.link,
            _res0: self._res0,
            esp0: self.esp0,
            ss0: self.ss0,
            _res1: self._res1,
            esp1: self.esp1,
            ss1: self.ss1,
            _res2: self._res2,
            esp2: self.esp2,
            ss2: self.ss2,
            _res3: self._res3,
            cr3: self.cr3,
            eip: self.eip,
            eflags: self.eflags,
            eax: self.eax,
            ecx: self.ecx,
            edx: self.edx,
            ebx: self.ebx,
            esp: self.esp,
            ebp: self.ebp,
            esi: self.esi,
            edi: self.edi,
            es: self.es,
            _res4: self._res4,
            cs: self.cs,
            _res5: self._res5,
            ss: self.ss,
            _res6: self._res6,
            ds: self.ds,
            _res7: self._res7,
            fs: self.fs,
            _res8: self._res8,
            gs: self.gs,
            _res9: self._res9,
            ldtr: self.ldtr,
            _res10: self._res10,
            iopb_offset: self.iopb_offset,
        }
    }
}

impl TaskStateSegment {
    /// The ring-0 stack pointer and stack segment.
    pub open spec fn kernel_stack(&self) -> (u32, u16) {
        (self@.esp0, self@.ss0)
    }

    /// Offset of the I/O permission bitmap.
    pub open spec fn spec_iopb_offset(&self) -> u16 {
        self@.iopb_offset
    }

    /// Every field but the ring-0 stack and the I/O bitmap offset is zero.
    pub open spec fn is_clear(&self) -> bool {
        &&& self@.link == 0 && self@._res0 == 0 && self@._res1 == 0 && self@.esp1 == 0 && self@.ss1 == 0 && self@._res2 == 0
        &&& self@.esp2 == 0 && self@.ss2 == 0 && self@._res3 == 0 && self@.cr3 == 0 && self@.eip == 0 && self@.eflags == 0
        &&& self@.eax == 0 && self@.ecx == 0 && self@.edx == 0 && self@.ebx == 0 && self@.esp == 0 && self@.ebp == 0
        &&& self@.esi == 0 && self@.edi == 0 && self@.es == 0 && self@._res4 == 0 && self@.cs == 0 && self@._res5 == 0
        &&& self@.ss == 0 && self@._res6 == 0 && self@.ds == 0 && self@._res7 == 0 && self@.fs == 0 && self@._res8 == 0
        &&& self@.gs == 0 && self@._res9 == 0 && self@.ldtr == 0 && self@._res10 == 0
    }

    /// A segment with every field zero and the I/O bitmap offset past its
    /// end, so that no I/O bitmap is present.
    pub fn new() -> (t: Self)
        ensures
            t.is_clear(),
            t.kernel_stack() == (0u32, 0u16),
            t.spec_iopb_offset() == TSS_SIZE,
    {
        TaskStateSegment {
            link: 0, _res0: 0, esp0: 0, ss0: 0, _res1: 0, esp1: 0, ss1: 0, _res2: 0, esp2: 0,
            ss2: 0, _res3: 0, cr3: 0, eip: 0, eflags: 0, eax: 0, ecx: 0, edx: 0, ebx: 0,
            esp: 0, ebp: 0, esi: 0, edi: 0, es: 0, _res4: 0, cs: 0, _res5: 0, ss: 0,
            _res6: 0, ds: 0, _res7: 0, fs: 0, _res8: 0, gs: 0, _res9: 0, ldtr: 0, _res10: 0,
            iopb_offset: TSS_SIZE,
        }
    }

    /// Offset of the I/O permission bitmap.
    pub fn iopb_offset(&self) -> (r: u16)
        ensures
            r == self.spec_iopb_offset(),
    {
        self.iopb_offset
    }

    /// The segment's bytes in memory order, each field little-endian.  The
    /// ring-0 stack pointer sits at bytes 4..8, its segment at 8..10 and the
    /// I/O bitmap offset at 100..102; a clear segment is zero elsewhere.
    pub fn encode(&self) -> (r: Vec<u8>)
        ensures
            r@.len() == TSS_SIZE,
            le_u32_of(r@, 4) == self.kernel_stack().0,
            le_u16_of(r@, 8) == self.kernel_stack().1,
            le_u16_of(r@, 100) == self.spec_iopb_offset(),
            self.is_clear() ==> forall|i: int| 0 <= i < TSS_SIZE && !(4 <= i < 10) && !(100 <= i < 102) ==> r@[i] == 0,
    {
        let mut r: Vec<u8> = Vec::new();
        push_u16(&mut r, self.link);
        push_u16(&mut r, self._res0);
        push_u32(&mut r, self.esp0);
        push_u16(&mut r, self.ss0);
        push_u16(&mut r, self._res1);
        push_u32(&mut r, self.esp1);
        push_u16(&mut r, self.ss1);
        push_u16(&mut r, self._res2);
        push_u32(&mut r, self.esp2);
        push_u16(&mut r, self.ss2);
        push_u16(&mut r, self._res3);
        push_u32(&mut r, self.cr3);
        push_u32(&mut r, self.eip);
        push_u32(&mut r, self.eflags);
        push_u32(&mut r, self.eax);
        push_u32(&mut r, self.ecx);
        push_u32(&mut r, self.edx);
        push_u32(&mut r, self.ebx);
        push_u32(&mut r, self.esp);
        push_u32(&mut r, self.ebp);
        push_u32(&mut r, self.esi);
        push_u32(&mut r, self.edi);
        push_u16(&mut r, self.es);
        push_u16(&mut r, self._res4);
        push_u16(&mut r, self.cs);
        push_u16(&mut r, self._res5);
        push_u16(&mut r, self.ss);
        push_u16(&mut r, self._res6);
        push_u16(&mut r, self.ds);
        push_u16(&mut r, self._res7);
        push_u16(&mut r, self.fs);
        push_u16(&mut r, self._res8);
        push_u16(&mut r, self.gs);
        push_u16(&mut r, self._res9);
        push_u16(&mut r, self.ldtr);
        push_u16(&mut r, self._res10);
        push_u16(&mut r, self.iopb_offset);
        r
    }

    /// Sets the stack the CPU switches to on entry to ring 0: `esp0` on the
    /// kernel data segment.
    pub fn set_kernel_stack(&mut self, esp0: u32)
        ensures
            final(self).kernel_stack() == (esp0, KERNEL_DATA_SELECTOR),
            final(self).is_clear() == old(self).is_clear(),
            final(self).spec_iopb_offset() == old(self).spec_iopb_offset(),
            final(self)@ == (TssFields { esp0: esp0, ss0: KERNEL_DATA_SELECTOR, ..old(self)@ }),
    {
        self.esp0 = esp0;
        self.ss0 = KERNEL_DATA_SELECTOR;
    }
}

// ---------------------------------------------------------------------------
// Interrupt descriptor table
// ---------------------------------------------------------------------------

/// One 8-byte interrupt gate.
#[derive(Clone, Copy, PartialEq, Eq, Debug)]
pub struct IdtEntry {
    pub offset_low: u16,
    pub selector: u16,
    pub zero: u8,
    pub type_attr: u8,
    pub offset_high: u16,
}

/// Gate type: present, ring 0, 32-bit interrupt gate.
pub const INTERRUPT_GATE: u8 = 0x8E;

/// Gate type: present, ring 3, 32-bit trap gate.
pub const USER_TRAP_GATE: u8 = 0xEF;

/// Address of the handler that gate `e` points at.
pub open spec fn handler_address(e: IdtEntry) -> u32 {
    ((e.offset_high as u32) << 16u32) | (e.offset_low as u32)
}

proof fn lemma_split_handler(handler: u32)
    ensures
        ((((handler >> 16u32) as u16) as u32) << 16u32) | ((handler as u16) as u32) == handler,
{
    assert(((((handler >> 16u32) as u16) as u32) << 16u32) | ((handler as u16) as u32) == handler) by (bit_vector);
}

impl IdtEntry {
    /// An absent gate.
    pub fn new() -> (e: Self)
        ensures
            e == (IdtEntry { offset_low: 0, selector: 0, zero: 0, type_attr: 0, offset_high: 0 }),
    {
        IdtEntry { offset_low: 0, selector: 0, zero: 0, type_attr: 0, offset_high: 0 }
    }

    /// Makes this a ring-0 interrupt gate to `handler` in the kernel code
    /// segment.
    pub fn set_handler_fn(&mut self, handler: u32)
        ensures
            handler_address(*final(self)) == handler,
            final(self).offset_low == handler as u16,
            final(self).offset_high == (handler >> 16u32) as u16,
            final(self).selector == KERNEL_CODE_SELECTOR,
            final(self).type_attr == INTERRUPT_GATE,
            final(self).zero == old(self).zero,
    {
        self.offset_low = handler as u16;
        self.offset_high = (handler >> 16u32) as u16;
        self.selector = KERNEL_CODE_SELECTOR;
        self.type_attr = INTERRUPT_GATE;
        proof {
            lemma_split_handler(handler);
        }
    }

    /// Makes this a trap gate to `handler` that user code (ring 3) may invoke.
    pub fn set_handler_fn_trap_user(&mut self, handler: u32)
        ensures
            handler_address(*final(self)) == handler,
            final(self).offset_low == handler as u16,
            final(self).offset_high == (handler >> 16u32) as u16,
            final(self).selector == KERNEL_CODE_SELECTOR,
            final(self).type_attr == USER_TRAP_GATE,
            final(self).zero == old(self).zero,
    {
        self.offset_low = handler as u16;
        self.offset_high = (handler >> 16u32) as u16;
        self.selector = KERNEL_CODE_SELECTOR;
        self.type_attr = USER_TRAP_GATE;
        proof {
            lemma_split_handler(handler);
        }
    }

    /// The 64-bit descriptor of this gate in memory: the low half of the
    /// handler address, the selector, a zero byte, the type byte and the high
    /// half of the handler address, in that order from bit 0.
    pub fn encode(&self) -> (r: u64)
        ensures
            r as u16 == self.offset_low,
            (r >> 16u64) as u16 == self.selector,
            (r >> 32u64) as u8 == self.zero,
            (r >> 40u64) as u8 == self.type_attr,
            (r >> 48u64) as u16 == self.offset_high,
    {
        let r = (self.offset_low as u64) | ((self.selector as u64) << 16u64) | ((self.zero as u64) << 32u64)
            | ((self.type_attr as u64) << 40u64) | ((self.offset_high as u64) << 48u64);
        let (ol, se, ze, ty, oh) = (self.offset_low, self.selector, self.zero, self.type_attr, self.offset_high);
        assert(r as u16 == ol && (r >> 16u64) as u16 == se && (r >> 32u64) as u8 == ze
            && (r >> 40u64) as u8 == ty && (r >> 48u64) as u16 == oh) by (bit_vector)
            requires
                r == (ol as u64) | ((se as u64) << 16u64) | ((ze as u64) << 32u64)
                    | ((ty as u64) << 40u64) | ((oh as u64) << 48u64);
        r
    }
}

/// Number of gates in the interrupt descriptor table.
pub const IDT_ENTRIES: usize = 256;

/// Size in bytes of the interrupt descriptor table.
pub const IDT_SIZE: u16 = 2048;

/// The interrupt descriptor table.
#[derive(Debug)]
pub struct InterruptDescriptorTable {
    pub entries: [IdtEntry; 256],
}

impl InterruptDescriptorTable {
    /// A table of absent gates.
    pub fn new() -> (t: Self)
        ensures
            forall|i: int| 0 <= i < IDT_ENTRIES ==> #[trigger] t.entries[i] == IdtEntry::spec_absent(),
    {
        InterruptDescriptorTable { entries: [IdtEntry { offset_low: 0, selector: 0, zero: 0, type_attr: 0, offset_high: 0 }; 256] }
    }
}

impl IdtEntry {
    /// The absent gate.
    pub open spec fn spec_absent() -> IdtEntry {
        IdtEntry { offset_low: 0, selector: 0, zero: 0, type_attr: 0, offset_high: 0 }
    }
}

/// Operand of `lidt`: size of the table minus one, and its address.
#[derive(Clone, Copy, Debug)]
pub struct IdtPointer {
    pub limit: u16,
    pub base: u32,
}

impl IdtPointer {
    /// The `lidt` operand for an interrupt descriptor table placed at `base`.
    pub fn new(base: u32) -> (p: Self)
        ensures
            p.limit == IDT_SIZE - 1,
            p.base == base,
    {
        IdtPointer { limit: IDT_SIZE - 1, base }
    }
}

/// What the CPU pushes when it enters an interrupt handler.
#[derive(Debug)]
pub struct InterruptStackFrame {
    pub ip: u32,
    pub cs: u32,
    pub flags: u32,
}

// ---------------------------------------------------------------------------
// Paging structures and ports
// ---------------------------------------------------------------------------

/// Number of entries in a page directory or page table.
pub const PAGE_ENTRIES: usize = 1024;

/// A page directory: 1024 entries, each mapping 4 MiB.
pub struct PageDirectory {
    pub entries: [u32; 1024],
}

/// A page table: 1024 entries, each mapping 4 KiB.
#[derive(Clone, Copy)]
pub struct PageTable {
    pub entries: [u32; 1024],
}

impl PageDirectory {
    /// A directory with no table present.
    pub fn new() -> (d: Self)
        ensures
            forall|i: int| 0 <= i < PAGE_ENTRIES ==> #[trigger] d.entries[i] == 0,
    {
        PageDirectory { entries: [0u32; 1024] }
    }
}

impl PageTable {
    /// A table with no page present.
    pub fn new() -> (t: Self)
        ensures
            forall|i: int| 0 <= i < PAGE_ENTRIES ==> #[trigger] t.entries[i] == 0,
    {
        PageTable { entries: [0u32; 1024] }
    }
}

/// An x86 I/O port.
#[derive(Clone, Copy, PartialEq, Eq, Debug)]
pub struct Port {
    pub port: u16,
}

impl Port {
    /// The port at address `port`.
    pub fn new(port: u16) -> (p: Port)
        ensures
            p.port == port,
    {
        Port { port }
    }
}

/// Registers saved on a kernel stack when a task is switched out, in the
/// order the switch pushes them.
#[derive(Clone, Copy, Debug)]
pub struct TaskContext {
    pub edi: u32,
    pub esi: u32,
    pub ebx: u32,
    pub ebp: u32,
    pub eip: u32,
}

} // verus!

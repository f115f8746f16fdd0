//! Interrupt gates and the 8259 programmable interrupt controllers.
use vstd::prelude::*;
use crate::arch::types::{IdtEntry, InterruptDescriptorTable, handler_address, INTERRUPT_GATE, USER_TRAP_GATE, KERNEL_CODE_SELECTOR};

verus! {

/// Command port of the primary PIC.
pub const PIC1_COMMAND: u16 = 0x20;
/// Data port of the primary PIC.
pub const PIC1_DATA: u16 = 0x21;
/// Command port of the secondary PIC.
pub const PIC2_COMMAND: u16 = 0xA0;
/// Data port of the secondary PIC.
pub const PIC2_DATA: u16 = 0xA1;

/// Vector of the primary PIC's first line (the timer).
pub const PIC1_OFFSET: u8 = 32;
/// Vector of the secondary PIC's first line.
pub const PIC2_OFFSET: u8 = 40;

/// End-of-interrupt command.
pub const EOI: u8 = 0x20;

/// Vector of the breakpoint exception.
pub const BREAKPOINT_VECTOR: usize = 3;
/// Vector of the double-fault exception.
pub const DOUBLE_FAULT_VECTOR: usize = 8;
/// Vector of the page-fault exception.
pub const PAGE_FAULT_VECTOR: usize = 14;
/// Vector of the timer interrupt.
pub const TIMER_VECTOR: usize = 32;
/// Vector of the keyboard interrupt.
pub const KEYBOARD_VECTOR: usize = 33;
/// Vector of the system-call trap.
pub const SYSCALL_VECTOR: usize = 0x80;

/// Addresses of the kernel's interrupt and exception handlers.
#[derive(Clone, Copy, Debug)]
pub struct KernelHandlers {
    pub breakpoint: u32,
    pub double_fault: u32,
    pub page_fault: u32,
    pub timer: u32,
    pub keyboard: u32,
    pub syscall: u32,
}

/// Gate `e` is a ring-0 interrupt gate to `handler`.
pub open spec fn is_interrupt_gate(e: IdtEntry, handler: u32) -> bool {
    handler_address(e) == handler && e.selector == KERNEL_CODE_SELECTOR && e.type_attr == INTERRUPT_GATE
}

/// Fills the table's gates: breakpoint, double fault, page fault, timer and
/// keyboard as kernel interrupt gates, and the system-call vector as a trap
/// gate user code may invoke; the reserved byte of each is kept.  Every other
/// gate is left as it was.
pub fn install_handlers(idt: &mut InterruptDescriptorTable, h: &KernelHandlers)
    ensures
        is_interrupt_gate(final(idt).entries[BREAKPOINT_VECTOR as int], h.breakpoint),
        is_interrupt_gate(final(idt).entries[DOUBLE_FAULT_VECTOR as int], h.double_fault),
        is_interrupt_gate(final(idt).entries[PAGE_FAULT_VECTOR as int], h.page_fault),
        is_interrupt_gate(final(idt).entries[TIMER_VECTOR as int], h.timer),
        is_interrupt_gate(final(idt).entries[KEYBOARD_VECTOR as int], h.keyboard),
        handler_address(final(idt).entries[SYSCALL_VECTOR as int]) == h.syscall,
        final(idt).entries[SYSCALL_VECTOR as int].selector == KERNEL_CODE_SELECTOR,
        final(idt).entries[SYSCALL_VECTOR as int].type_attr == USER_TRAP_GATE,
        final(idt).entries[BREAKPOINT_VECTOR as int].zero == old(idt).entries[BREAKPOINT_VECTOR as int].zero,
        final(idt).entries[DOUBLE_FAULT_VECTOR as int].zero == old(idt).entries[DOUBLE_FAULT_VECTOR as int].zero,
        final(idt).entries[PAGE_FAULT_VECTOR as int].zero == old(idt).entries[PAGE_FAULT_VECTOR as int].zero,
        final(idt).entries[TIMER_VECTOR as int].zero == old(idt).entries[TIMER_VECTOR as int].zero,
        final(idt).entries[KEYBOARD_VECTOR as int].zero == old(idt).entries[KEYBOARD_VECTOR as int].zero,
        final(idt).entries[SYSCALL_VECTOR as int].zero == old(idt).entries[SYSCALL_VECTOR as int].zero,
        forall|i: int| 0 <= i < 256 && i != BREAKPOINT_VECTOR && i != DOUBLE_FAULT_VECTOR
            && i != PAGE_FAULT_VECTOR && i != TIMER_VECTOR && i != KEYBOARD_VECTOR && i != SYSCALL_VECTOR
            ==> #[trigger] final(idt).entries[i] == old(idt).entries[i],
{
    let mut e = idt.entries[BREAKPOINT_VECTOR];
    e.set_handler_fn(h.breakpoint);
    idt.entries[BREAKPOINT_VECTOR] = e;
    let mut e = idt.entries[DOUBLE_FAULT_VECTOR];
    e.set_handler_fn(h.double_fault);
    idt.entries[DOUBLE_FAULT_VECTOR] = e;
    let mut e = idt.entries[PAGE_FAULT_VECTOR];
    e.set_handler_fn(h.page_fault);
    idt.entries[PAGE_FAULT_VECTOR] = e;
    let mut e = idt.entries[TIMER_VECTOR];
    e.set_handler_fn(h.timer);
    idt.entries[TIMER_VECTOR] = e;
    let mut e = idt.entries[KEYBOARD_VECTOR];
    e.set_handler_fn(h.keyboard);
    idt.entries[KEYBOARD_VECTOR] = e;
    let mut e = idt.entries[SYSCALL_VECTOR];
    e.set_handler_fn_trap_user(h.syscall);
    idt.entries[SYSCALL_VECTOR] = e;
}

/// The port writes that initialise the two PICs, in order: start
/// initialisation, vector offsets 32 and 40, cascade on line 2, 8086 mode,
/// then unmask the timer and keyboard lines and mask all others.
pub fn pic_init_sequence() -> (writes: Vec<(u16, u8)>)
    ensures
        writes@ == seq![
            (PIC1_COMMAND, 0x11u8), (PIC2_COMMAND, 0x11u8),
            (PIC1_DATA, PIC1_OFFSET), (PIC2_DATA, PIC2_OFFSET),
            (PIC1_DATA, 0x04u8), (PIC2_DATA, 0x02u8),
            (PIC1_DATA, 0x01u8), (PIC2_DATA, 0x01u8),
            (PIC1_DATA, 0xFCu8), (PIC2_DATA, 0xFFu8),
        ],
{
    let mut w: Vec<(u16, u8)> = Vec::new();
    w.push((PIC1_COMMAND, 0x11));
    w.push((PIC2_COMMAND, 0x11));
    w.push((PIC1_DATA, PIC1_OFFSET));
    w.push((PIC2_DATA, PIC2_OFFSET));
    w.push((PIC1_DATA, 0x04));
    w.push((PIC2_DATA, 0x02));
    w.push((PIC1_DATA, 0x01));
    w.push((PIC2_DATA, 0x01));
    w.push((PIC1_DATA, 0xFC));
    w.push((PIC2_DATA, 0xFF));
    proof {
        assert(w@ =~= seq![
            (PIC1_COMMAND, 0x11u8), (PIC2_COMMAND, 0x11u8),
            (PIC1_DATA, PIC1_OFFSET), (PIC2_DATA, PIC2_OFFSET),
            (PIC1_DATA, 0x04u8), (PIC2_DATA, 0x02u8),
            (PIC1_DATA, 0x01u8), (PIC2_DATA, 0x01u8),
            (PIC1_DATA, 0xFCu8), (PIC2_DATA, 0xFFu8),
        ]);
    }
    w
}

/// The command ports that must receive an end-of-interrupt for vector
/// `interrupt_id`: the secondary PIC first when the vector is its, then
/// always the primary.
pub fn eoi_ports(interrupt_id: u8) -> (ports: Vec<u16>)
    ensures
        ports@ == (if interrupt_id >= PIC2_OFFSET { seq![PIC2_COMMAND, PIC1_COMMAND] } else { seq![PIC1_COMMAND] }),
{
    let mut p: Vec<u16> = Vec::new();
    if interrupt_id >= PIC2_OFFSET {
        p.push(PIC2_COMMAND);
    }
    p.push(PIC1_COMMAND);
    proof {
        if interrupt_id >= PIC2_OFFSET {
            assert(p@ =~= seq![PIC2_COMMAND, PIC1_COMMAND]);
        } else {
            assert(p@ =~= seq![PIC1_COMMAND]);
        }
    }
    p
}

} // verus!

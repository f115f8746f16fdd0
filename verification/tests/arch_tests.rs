use omu_os::arch::interrupts::{
    eoi_ports, install_handlers, pic_init_sequence, KernelHandlers, PIC1_COMMAND, PIC2_COMMAND,
};
use omu_os::arch::types::{
    Gdt, GdtEntry, IdtEntry, IdtPointer, InterruptDescriptorTable, PageDirectory, PageTable, Port,
    TaskStateSegment, INTERRUPT_GATE, USER_TRAP_GATE,
};

#[test]
fn descriptor_packs_base_limit_access_and_flags() {
    assert_eq!(GdtEntry::new(0, 0xFFFFF, 0x9A, 0xC).0, 0x00CF_9A00_0000_FFFF);
    assert_eq!(GdtEntry::new(0x1234_5678, 103, 0x89, 0).0, 0x1200_8934_5678_0067);
    assert_eq!(GdtEntry::new(0xFFFF_FFFF, 0xFFFF_FFFF, 0xFF, 0xFF).0, 0xFFFF_FFFF_FFFF_FFFF);
    assert_eq!(GdtEntry::new(0, 0, 0, 0).0, 0);
}

#[test]
fn descriptor_drops_the_high_limit_and_flag_bits() {
    assert_eq!(GdtEntry::new(0, 0xFFF0_0000, 0, 0xF0).0, 0);
}

#[test]
fn flat_gdt_has_kernel_and_user_segments() {
    let g = Gdt::new();
    let raw: Vec<u64> = g.entries.iter().map(|e| e.0).collect();
    assert_eq!(
        raw,
        vec![0, 0x00CF_9A00_0000_FFFF, 0x00CF_9200_0000_FFFF, 0x00CF_FA00_0000_FFFF, 0x00CF_F200_0000_FFFF, 0]
    );
}

#[test]
fn tss_slot_points_at_the_task_state_segment() {
    let mut g = Gdt::new();
    g.set_tss(0x1234_5678);
    assert_eq!(g.entries[5].0, 0x1200_8934_5678_0065);
    assert_eq!(g.entries[1].0, 0x00CF_9A00_0000_FFFF);
    let p = Gdt::pointer(0xC000);
    assert_eq!((p.limit, p.base), (47, 0xC000));
}

#[test]
fn task_state_segment_gets_the_kernel_stack() {
    let mut t = TaskStateSegment::new();
    assert_eq!((t.esp0, t.ss0), (0, 0));
    t.set_kernel_stack(0x9000);
    assert_eq!((t.esp0, t.ss0), (0x9000, 0x10));
}

#[test]
fn interrupt_gate_splits_the_handler_address() {
    let mut e = IdtEntry::new();
    e.set_handler_fn(0x1234_5678);
    assert_eq!((e.offset_low, e.offset_high, e.selector, e.type_attr, e.zero), (0x5678, 0x1234, 0x08, INTERRUPT_GATE, 0));
    e.set_handler_fn_trap_user(0xDEAD_BEEF);
    assert_eq!((e.offset_low, e.offset_high, e.selector, e.type_attr), (0xBEEF, 0xDEAD, 0x08, USER_TRAP_GATE));
}

#[test]
fn handlers_land_on_their_vectors() {
    let mut idt = InterruptDescriptorTable::new();
    assert!(idt.entries.iter().all(|e| *e == IdtEntry::new()));
    let h = KernelHandlers { breakpoint: 0x100, double_fault: 0x200, page_fault: 0x300, timer: 0x400, keyboard: 0x500, syscall: 0x1_0600 };
    install_handlers(&mut idt, &h);
    assert_eq!(idt.entries[3].offset_low, 0x100);
    assert_eq!(idt.entries[8].offset_low, 0x200);
    assert_eq!(idt.entries[14].offset_low, 0x300);
    assert_eq!(idt.entries[32].offset_low, 0x400);
    assert_eq!(idt.entries[33].offset_low, 0x500);
    assert_eq!((idt.entries[0x80].offset_low, idt.entries[0x80].offset_high), (0x0600, 1));
    assert_eq!(idt.entries[0x80].type_attr, USER_TRAP_GATE);
    assert_eq!(idt.entries[33].type_attr, INTERRUPT_GATE);
    assert_eq!(idt.entries[0], IdtEntry::new());
    assert_eq!(idt.entries[34], IdtEntry::new());
    let p = IdtPointer::new(0x5000);
    assert_eq!((p.limit, p.base), (2047, 0x5000));
}

#[test]
fn pic_is_remapped_to_vectors_32_and_40() {
    assert_eq!(
        pic_init_sequence(),
        vec![
            (0x20, 0x11), (0xA0, 0x11), (0x21, 32), (0xA1, 40), (0x21, 4), (0xA1, 2), (0x21, 1), (0xA1, 1),
            (0x21, 0xFC), (0xA1, 0xFF)
        ]
    );
}

#[test]
fn end_of_interrupt_goes_to_both_pics_for_high_vectors() {
    assert_eq!(eoi_ports(32), vec![PIC1_COMMAND]);
    assert_eq!(eoi_ports(39), vec![PIC1_COMMAND]);
    assert_eq!(eoi_ports(40), vec![PIC2_COMMAND, PIC1_COMMAND]);
    assert_eq!(eoi_ports(47), vec![PIC2_COMMAND, PIC1_COMMAND]);
}

#[test]
fn paging_structures_start_empty() {
    assert!(PageDirectory::new().entries.iter().all(|e| *e == 0));
    assert!(PageTable::new().entries.iter().all(|e| *e == 0));
    assert_eq!(Port::new(0x60).port, 0x60);
}

#[test]
fn gate_encoding_puts_fields_in_place() {
    let mut e = IdtEntry::new();
    e.set_handler_fn_trap_user(0x1234_5678);
    assert_eq!(e.encode(), 0x1234_EF00_0008_5678);
    assert_eq!(IdtEntry::new().encode(), 0);
}

#[test]
fn fresh_tss_has_no_io_bitmap() {
    let mut t = TaskStateSegment::new();
    assert_eq!(t.iopb_offset(), 102);
    t.set_kernel_stack(0x9000);
    assert_eq!(t.iopb_offset(), 102);
    assert_eq!((t.esp0, t.ss0), (0x9000, 0x10));
}

#[test]
fn task_state_segment_bytes() {
    let mut t = TaskStateSegment::new();
    t.set_kernel_stack(0x0012_3456);
    let b = t.encode();
    assert_eq!(b.len(), 102);
    assert_eq!(&b[4..10], &[0x56, 0x34, 0x12, 0x00, 0x10, 0x00]);
    assert_eq!(&b[100..102], &[102, 0]);
    assert!(b[..4].iter().chain(b[10..100].iter()).all(|x| *x == 0));
}

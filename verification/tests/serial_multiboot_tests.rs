use omu_os::arch::types::Port;
use omu_os::drivers::char::serial::{is_transmit_empty, write_str, SerialPort, COM1};
use omu_os::multiboot::{
    initrd_module, parse, MemoryMapEntry, MultibootInfo, MultibootMemory, MULTIBOOT_BOOTLOADER_MAGIC,
};

#[test]
fn serial_port_registers_follow_the_base() {
    let s = SerialPort::new(COM1);
    assert_eq!(s.data_port().port, 0x3F8);
    assert_eq!(s.line_status_port().port, 0x3FD);
}

#[test]
fn serial_init_programs_115200_8n1() {
    let s = SerialPort::new(COM1);
    let w: Vec<(u16, u8)> = s.init().iter().map(|(p, v)| (p.port, *v)).collect();
    assert_eq!(w, vec![(0x3F9, 0x00), (0x3FB, 0x80), (0x3F8, 0x01), (0x3F9, 0x00), (0x3FB, 0x03), (0x3FA, 0xC7), (0x3FC, 0x0B)]);
    let p: Port = s.data_port();
    assert_eq!(p, Port { port: 0x3F8 });
}

#[test]
fn transmit_empty_is_bit_five() {
    assert!(is_transmit_empty(0x20));
    assert!(is_transmit_empty(0x60));
    assert!(!is_transmit_empty(0xDF));
    assert!(!is_transmit_empty(0));
}

#[test]
fn line_feeds_go_out_as_crlf() {
    assert_eq!(write_str(b"ab\ncd\n"), b"ab\r\ncd\r\n".to_vec());
    assert_eq!(write_str(b""), Vec::<u8>::new());
    assert_eq!(write_str(b"\r"), b"\r".to_vec());
}

fn info(flags: u32) -> MultibootInfo {
    MultibootInfo {
        flags,
        mem_lower: 0,
        mem_upper: 0,
        boot_device: 0,
        cmdline: 0,
        mods_count: 0,
        mods_addr: 0,
        syms: [0; 4],
        mmap_length: 48,
        mmap_addr: 0x9000,
    }
}

fn entry_bytes(size: u32, base: u32, len: u32, ty: u32) -> Vec<u8> {
    let mut v = Vec::new();
    for x in [size, base, 0, len, 0, ty] {
        v.extend_from_slice(&x.to_le_bytes());
    }
    v
}

#[test]
fn multiboot_rejects_a_wrong_magic() {
    assert!(matches!(parse(0x1BAD_B002, &info(0x40), &[]), MultibootMemory::InvalidMagic));
}

#[test]
fn multiboot_without_memory_map() {
    assert!(matches!(parse(MULTIBOOT_BOOTLOADER_MAGIC, &info(0x3), &[]), MultibootMemory::NoMemoryMap));
}

#[test]
fn multiboot_memory_map_is_walked_by_entry_size() {
    let mut mmap = entry_bytes(20, 0, 0x9FC00, 1);
    mmap.extend(entry_bytes(20, 0x10_0000, 0x7EE_0000, 2));
    match parse(MULTIBOOT_BOOTLOADER_MAGIC, &info(0x40), &mmap) {
        MultibootMemory::MemoryMap(v) => {
            assert_eq!(v.len(), 2);
            assert_eq!(v[0], MemoryMapEntry { size: 20, base_addr_low: 0, base_addr_high: 0, length_low: 0x9FC00, length_high: 0, entry_type: 1 });
            assert!(v[0].is_available());
            assert_eq!(v[1].base_addr_low, 0x10_0000);
            assert!(!v[1].is_available());
        }
        _ => panic!("expected a memory map"),
    }
}

#[test]
fn multiboot_entry_size_may_be_larger_than_the_fields() {
    let mut mmap = entry_bytes(24, 0x1000, 0x2000, 1);
    mmap.extend_from_slice(&[0, 0, 0, 0]);
    mmap.extend(entry_bytes(20, 0x5000, 0x6000, 3));
    match parse(MULTIBOOT_BOOTLOADER_MAGIC, &info(0x40), &mmap) {
        MultibootMemory::MemoryMap(v) => {
            assert_eq!(v.len(), 2);
            assert_eq!(v[1].base_addr_low, 0x5000);
            assert_eq!(v[1].entry_type, 3);
        }
        _ => panic!("expected a memory map"),
    }
}

fn le(words: &[u32]) -> Vec<u8> {
    words.iter().flat_map(|w| w.to_le_bytes()).collect()
}

#[test]
fn information_structure_is_read_little_endian() {
    let b = le(&[0x4C, 640, 0x1FB80, 0x8000_FFFF, 0x1_0000, 1, 0x9000, 1, 2, 3, 4, 0x90, 0xA000]);
    let i = MultibootInfo::from_bytes(&b);
    assert_eq!((i.flags, i.mem_lower, i.mem_upper, i.boot_device), (0x4C, 640, 0x1FB80, 0x8000_FFFF));
    assert_eq!((i.cmdline, i.mods_count, i.mods_addr), (0x1_0000, 1, 0x9000));
    assert_eq!(i.syms, [1, 2, 3, 4]);
    assert_eq!((i.mmap_length, i.mmap_addr), (0x90, 0xA000));
}

#[test]
fn ramdisk_is_the_first_boot_module() {
    let mut i = info(0x8);
    i.mods_count = 2;
    let mods = le(&[0x20_0000, 0x20_3000, 0, 0, 0x30_0000, 0x30_1000, 0, 0]);
    assert_eq!(initrd_module(&i, &mods), Some((0x20_0000, 0x20_3000)));
    assert_eq!(initrd_module(&i, &mods[..7]), None);
    i.mods_count = 0;
    assert_eq!(initrd_module(&i, &mods), None);
    let mut j = info(0x40);
    j.mods_count = 1;
    assert_eq!(initrd_module(&j, &mods), None);
}

//! The Multiboot information the boot loader hands the kernel.
use vstd::prelude::*;

verus! {

/// Value the boot loader leaves in `eax`.
pub const MULTIBOOT_BOOTLOADER_MAGIC: u32 = 0x2BAD_B002;

/// Flag bit saying the memory-map fields are valid.
pub const MMAP_VALID: u32 = 0x40;

/// Flag bit saying the boot-module fields are valid.
pub const MODS_VALID: u32 = 0x8;

/// Bytes of the information structure up to the memory-map fields.
pub const MULTIBOOT_INFO_LEN: usize = 52;

/// Bytes of a memory-map entry, its leading size field included.
pub const MMAP_ENTRY_LEN: usize = 24;

/// Memory-map entry type of usable RAM.
pub const MEMORY_AVAILABLE: u32 = 1;

/// The Multiboot information structure.
pub struct MultibootInfo {
    pub flags: u32,
    pub mem_lower: u32,
    pub mem_upper: u32,
    pub boot_device: u32,
    pub cmdline: u32,
    pub mods_count: u32,
    pub mods_addr: u32,
    pub syms: [u32; 4],
    pub mmap_length: u32,
    pub mmap_addr: u32,
}

/// One entry of the BIOS memory map.
#[derive(Clone, Copy, Debug, PartialEq, Eq, Structural)]
pub struct MemoryMapEntry {
    pub size: u32,
    pub base_addr_low: u32,
    pub base_addr_high: u32,
    pub length_low: u32,
    pub length_high: u32,
    pub entry_type: u32,
}

impl MemoryMapEntry {
    /// The region is usable RAM; every other type is reserved.
    pub fn is_available(&self) -> (r: bool)
        ensures
            r == (self.entry_type == MEMORY_AVAILABLE),
    {
        self.entry_type == MEMORY_AVAILABLE
    }
}

/// What the boot information says about memory.
pub enum MultibootMemory {
    /// `eax` did not hold the Multiboot magic value.
    InvalidMagic,
    /// The boot loader gave no memory map.
    NoMemoryMap,
    /// The memory map, entry by entry.
    MemoryMap(Vec<MemoryMapEntry>),
}

/// The little-endian 32-bit value at `o` in `b`.
pub open spec fn le_u32(b: Seq<u8>, o: int) -> u32 {
    (b[o] + 256 * b[o + 1] + 65536 * b[o + 2] + 16777216 * b[o + 3]) as u32
}

/// The memory-map entry whose bytes start at `o` in `b`.
pub open spec fn entry_at(b: Seq<u8>, o: int) -> MemoryMapEntry {
    MemoryMapEntry {
        size: le_u32(b, o),
        base_addr_low: le_u32(b, o + 4),
        base_addr_high: le_u32(b, o + 8),
        length_low: le_u32(b, o + 12),
        length_high: le_u32(b, o + 16),
        entry_type: le_u32(b, o + 20),
    }
}

/// The entries of the memory map `b`, loaded at address `base`, from the
/// entry at offset `o` on.  Each entry's size field counts the bytes after
/// it; the walk stops at the end of the map, at an entry that does not fit in
/// it, and where the next address would pass 4 GiB.
pub open spec fn entries_from(b: Seq<u8>, base: int, o: int) -> Seq<MemoryMapEntry>
    decreases 0x1_0000_0000 - o,
{
    if o < 0 || base < 0 || o + MMAP_ENTRY_LEN > b.len() {
        Seq::empty()
    } else {
        let e = entry_at(b, o);
        let next = o + e.size + 4;
        if base + next > u32::MAX {
            seq![e]
        } else {
            seq![e] + entries_from(b, base, next)
        }
    }
}

/// What the memory information says, given the value left in `eax`, the
/// information structure and the bytes of its memory map.
pub open spec fn memory_spec(magic: u32, flags: u32, mmap_addr: u32, mmap: Seq<u8>) -> Option<Option<Seq<MemoryMapEntry>>> {
    if magic != MULTIBOOT_BOOTLOADER_MAGIC {
        None
    } else if flags & MMAP_VALID == 0 {
        Some(None)
    } else {
        Some(Some(entries_from(mmap, mmap_addr as int, 0)))
    }
}

fn read_le_u32(b: &[u8], o: usize) -> (r: u32)
    requires
        o + 4 <= b@.len(),
    ensures
        r == le_u32(b@, o as int),
{
    (b[o] as u32) + 256 * (b[o + 1] as u32) + 65536 * (b[o + 2] as u32) + 16777216 * (b[o + 3] as u32)
}

fn read_entry(b: &[u8], o: usize) -> (e: MemoryMapEntry)
    requires
        o + MMAP_ENTRY_LEN <= b@.len(),
        b@.len() <= usize::MAX,
    ensures
        e == entry_at(b@, o as int),
{
    MemoryMapEntry {
        size: read_le_u32(b, o),
        base_addr_low: read_le_u32(b, o + 4),
        base_addr_high: read_le_u32(b, o + 8),
        length_low: read_le_u32(b, o + 12),
        length_high: read_le_u32(b, o + 16),
        entry_type: read_le_u32(b, o + 20),
    }
}

impl MultibootInfo {
    /// The structure whose little-endian bytes are `b`.
    pub fn from_bytes(b: &[u8]) -> (info: Self)
        requires
            b@.len() >= MULTIBOOT_INFO_LEN,
        ensures
            info.flags == le_u32(b@, 0),
            info.mem_lower == le_u32(b@, 4),
            info.mem_upper == le_u32(b@, 8),
            info.boot_device == le_u32(b@, 12),
            info.cmdline == le_u32(b@, 16),
            info.mods_count == le_u32(b@, 20),
            info.mods_addr == le_u32(b@, 24),
            forall|k: int| 0 <= k < 4 ==> info.syms[k] == le_u32(b@, 28 + 4 * k),
            info.mmap_length == le_u32(b@, 44),
            info.mmap_addr == le_u32(b@, 48),
    {
        let syms = [read_le_u32(b, 28), read_le_u32(b, 32), read_le_u32(b, 36), read_le_u32(b, 40)];
        MultibootInfo {
            flags: read_le_u32(b, 0),
            mem_lower: read_le_u32(b, 4),
            mem_upper: read_le_u32(b, 8),
            boot_device: read_le_u32(b, 12),
            cmdline: read_le_u32(b, 16),
            mods_count: read_le_u32(b, 20),
            mods_addr: read_le_u32(b, 24),
            syms,
            mmap_length: read_le_u32(b, 44),
            mmap_addr: read_le_u32(b, 48),
        }
    }
}

/// The initial ramdisk, the first boot module: its start and end address,
/// read from `mods`, the bytes of the module list at `info.mods_addr`, when
/// the flags say the module fields are valid and there is a module.
pub fn initrd_module(info: &MultibootInfo, mods: &[u8]) -> (r: Option<(u32, u32)>)
    ensures
        r == (if info.flags & MODS_VALID != 0 && info.mods_count > 0 && mods@.len() >= 8 {
            Some((le_u32(mods@, 0), le_u32(mods@, 4)))
        } else {
            None
        }),
{
    if info.flags & MODS_VALID != 0 && info.mods_count > 0 && mods.len() >= 8 {
        Some((read_le_u32(mods, 0), read_le_u32(mods, 4)))
    } else {
        None
    }
}

/// Reads the memory information: the magic value must be the Multiboot one,
/// and flag bit 6 says whether `mmap`, the bytes of the memory map at
/// `info.mmap_addr`, holds entries.
pub fn parse(magic: u32, info: &MultibootInfo, mmap: &[u8]) -> (r: MultibootMemory)
    ensures
        match (r, memory_spec(magic, info.flags, info.mmap_addr, mmap@)) {
            (MultibootMemory::InvalidMagic, None) => true,
            (MultibootMemory::NoMemoryMap, Some(None)) => true,
            (MultibootMemory::MemoryMap(v), Some(Some(s))) => v@ == s,
            _ => false,
        },
{
    if magic != MULTIBOOT_BOOTLOADER_MAGIC {
        return MultibootMemory::InvalidMagic;
    }
    if info.flags & MMAP_VALID == 0 {
        return MultibootMemory::NoMemoryMap;
    }
    let ghost full = entries_from(mmap@, info.mmap_addr as int, 0);
    let mut entries: Vec<MemoryMapEntry> = Vec::new();
    let mut o: usize = 0;
    let mut done = false;
    let mlen = mmap.len();
    while !done && o <= mlen && mlen - o >= MMAP_ENTRY_LEN
        invariant
            full == entries_from(mmap@, info.mmap_addr as int, 0),
            done ==> entries@ == full,
            o <= u32::MAX,
            mlen == mmap@.len(),
            !done ==> entries@ + entries_from(mmap@, info.mmap_addr as int, o as int) == full,
        decreases 0x1_0000_0000 - o, (if done { 0int } else { 1int }),
    {
        let e = read_entry(mmap, o);
        let ghost before = entries@;
        entries.push(e);
        let next = o as u64 + e.size as u64 + 4;
        if info.mmap_addr as u64 + next > u32::MAX as u64 {
            proof {
                assert(entries@ =~= before + entries_from(mmap@, info.mmap_addr as int, o as int));
            }
            done = true;
        } else {
            proof {
                assert(before + entries_from(mmap@, info.mmap_addr as int, o as int)
                    =~= entries@ + entries_from(mmap@, info.mmap_addr as int, next as int));
            }
            o = next as usize;
        }
    }
    proof {
        if !done {
            assert(entries_from(mmap@, info.mmap_addr as int, o as int) == Seq::<MemoryMapEntry>::empty());
            assert(entries@ =~= entries@ + Seq::<MemoryMapEntry>::empty());
        }
    }
    MultibootMemory::MemoryMap(entries)
}

} // verus!

use omu_os::drivers::fs::initrd::impl_vfs::{initrd_readdir, InitrdOps, MountedInitrd};
use omu_os::drivers::fs::initrd::tar::{init, parse_archive, parse_octal, INITRD_OPS_INDEX};
use omu_os::drivers::fs::initrd::types::TarHeader;
use omu_os::fs::traits::FileOperations;
use omu_os::fs::types::{bytes_eq, FileType, VfsError, VfsNode};
use omu_os::fs::vfs_core::{get_ops, init_root, mount, open, register_ops, OpsTable, Vfs};

const BASE: u32 = 0x10_0000;

fn header(name: &[u8], size: usize, typeflag: u8) -> Vec<u8> {
    let mut h = vec![0u8; 512];
    h[..name.len()].copy_from_slice(name);
    let digits = format!("{:011o}", size);
    h[124..135].copy_from_slice(digits.as_bytes());
    h[156] = typeflag;
    h[257..262].copy_from_slice(b"ustar");
    h
}

fn archive() -> Vec<u8> {
    let mut img = header(b"hello.txt", 5, b'0');
    let mut data = vec![0u8; 512];
    data[..5].copy_from_slice(b"hello");
    img.extend(data);
    img.extend(header(b"docs", 0, b'5'));
    img.extend(vec![0u8; 1024]);
    img
}

fn node(name: &str, size: usize, file_type: FileType, data_ptr: u32) -> VfsNode {
    VfsNode { name: name.to_string(), size, file_type, data_ptr, ops_index: INITRD_OPS_INDEX }
}

#[test]
fn octal_numbers_as_tar_writes_them() {
    assert_eq!(parse_octal(b"00000000012\0"), 10);
    assert_eq!(parse_octal(b"  17 "), 15);
    assert_eq!(parse_octal(b"\0\0\0"), 0);
    assert_eq!(parse_octal(b"12x7"), 10);
    assert_eq!(parse_octal(b"7 7"), 7);
    assert_eq!(parse_octal(b""), 0);
    assert_eq!(parse_octal(b"8"), 0);
}

#[test]
fn header_fields_are_read_from_the_block() {
    let h = TarHeader::from_bytes(&header(b"notes.md", 0o1234, b'0'));
    assert_eq!(h.name(), "notes.md");
    assert_eq!(h.size(), 0o1234);
    assert_eq!(h.typeflag, b'0');
}

#[test]
fn header_size_skips_stray_bytes_among_digits() {
    let mut b = header(b"x", 0, b'0');
    b[124..135].copy_from_slice(b" 1 2x3\0\0\0\0\0");
    let h = TarHeader::from_bytes(&b);
    assert_eq!(h.size(), 0o123);
    assert_eq!(h.size_value(), 0o123);
}

#[test]
fn header_name_fills_the_whole_field_when_unterminated() {
    let name = vec![b'a'; 100];
    let h = TarHeader::from_bytes(&header(&name, 0, b'0'));
    assert_eq!(h.name().len(), 100);
}

#[test]
fn header_name_that_is_not_utf8_reads_as_empty() {
    let h = TarHeader::from_bytes(&header(&[0x66, 0xFF, 0x6F], 0, b'0'));
    assert_eq!(h.name(), "");
}

#[test]
fn utf8_check_accepts_text_and_rejects_bad_bytes() {
    assert_eq!(TarHeader::from_bytes(&header(b"h\xC3\xA9", 0, b'0')).name(), "h\u{e9}");
    assert_eq!(TarHeader::from_bytes(&header(&[0x68, 0xC3], 0, b'0')).name(), "");
    assert!(bytes_eq(b"abc", b"abc"));
    assert!(!bytes_eq(b"abc", b"abd"));
    assert!(!bytes_eq(b"abc", b"ab"));
}

#[test]
fn archive_entries_become_nodes() {
    let img = archive();
    let end = BASE + img.len() as u32;
    let nodes = parse_archive(&img, BASE, end);
    assert_eq!(nodes.len(), 2);
    assert_eq!(nodes[0].name, "hello.txt");
    assert_eq!(nodes[0].size, 5);
    assert_eq!(nodes[0].file_type, FileType::File);
    assert_eq!(nodes[0].data_ptr, BASE + 512);
    assert_eq!(nodes[0].ops_index, 1);
    assert_eq!(nodes[1].name, "docs");
    assert_eq!(nodes[1].file_type, FileType::Directory);
    assert_eq!(nodes[1].data_ptr, BASE + 1536);
}

#[test]
fn archive_reading_stops_at_the_end_address() {
    let img = archive();
    let nodes = parse_archive(&img, BASE, BASE + 1024);
    assert_eq!(nodes.len(), 1);
    assert!(parse_archive(&img, BASE, BASE).is_empty());
    assert!(parse_archive(&img[..100], BASE, BASE + 4096).is_empty());
}

#[test]
fn vfs_without_root_finds_nothing() {
    let mut vfs = Vfs::new();
    mount(&mut vfs, node("a", 1, FileType::File, 0));
    assert!(matches!(open(&vfs, "/"), Err(VfsError::FileNotFound)));
    assert!(matches!(open(&vfs, "a"), Err(VfsError::FileNotFound)));
}

#[test]
fn vfs_root_paths_open_the_root() {
    let mut vfs = Vfs::new();
    init_root(&mut vfs);
    init_root(&mut vfs);
    for p in ["/", ".", ""] {
        let n = open(&vfs, p).unwrap();
        assert_eq!(n.name, "/");
        assert_eq!(n.file_type, FileType::Directory);
    }
}

#[test]
fn vfs_finds_mounted_nodes_with_or_without_leading_slashes() {
    let mut vfs = Vfs::new();
    init_root(&mut vfs);
    mount(&mut vfs, node("a.txt", 3, FileType::File, 0x100));
    mount(&mut vfs, node("b", 4, FileType::File, 0x200));
    mount(&mut vfs, node("a.txt", 9, FileType::File, 0x300));
    assert_eq!(open(&vfs, "a.txt").unwrap().data_ptr, 0x100);
    assert_eq!(open(&vfs, "/b").unwrap().size, 4);
    assert_eq!(open(&vfs, "///b").unwrap().size, 4);
    assert!(matches!(open(&vfs, "c"), Err(VfsError::FileNotFound)));
    assert!(matches!(open(&vfs, "a.tx"), Err(VfsError::FileNotFound)));
    assert_eq!(vfs.mounted().len(), 3);
}

#[test]
fn initrd_mounts_its_entries() {
    let img = archive();
    let mut vfs = Vfs::new();
    init_root(&mut vfs);
    init(&mut vfs, &img, BASE, BASE + img.len() as u32);
    assert_eq!(open(&vfs, "/hello.txt").unwrap().size, 5);
    assert_eq!(open(&vfs, "//hello.txt").unwrap().size, 5);
    assert_eq!(open(&vfs, "hello.txt").unwrap().size, 5);
    assert_eq!(open(&vfs, "docs").unwrap().file_type, FileType::Directory);
}

#[test]
fn initrd_reads_file_contents() {
    let img = archive();
    let end = BASE + img.len() as u32;
    let ops = InitrdOps::new(img, BASE, end);
    let f = node("hello.txt", 5, FileType::File, BASE + 512);
    let mut buf = [0xEEu8; 8];
    assert!(matches!(ops.read(&f, 0, &mut buf), Ok(5)));
    assert_eq!(&buf, b"hello\xEE\xEE\xEE");
    let mut small = [0u8; 2];
    assert!(matches!(ops.read(&f, 2, &mut small), Ok(2)));
    assert_eq!(&small, b"ll");
    assert!(matches!(ops.read(&f, 5, &mut small), Ok(0)));
    assert!(matches!(ops.read(&f, 4, &mut buf), Ok(1)));
    assert_eq!(buf[0], b'o');
}

#[test]
fn initrd_refuses_directories_writes_and_data_outside_the_image() {
    let img = archive();
    let end = BASE + img.len() as u32;
    let ops = InitrdOps::new(img, BASE, end);
    let mut buf = [0u8; 4];
    let d = node("docs", 0, FileType::Directory, BASE + 1536);
    assert!(matches!(ops.read(&d, 0, &mut buf), Err(VfsError::IsADirectory)));
    let f = node("hello.txt", 5, FileType::File, BASE + 512);
    assert!(matches!(ops.write(&f, 0, b"x"), Err(VfsError::PermissionDenied)));
    let outside = node("far", 10, FileType::File, BASE + 0x10_0000);
    assert!(matches!(ops.read(&outside, 0, &mut buf), Err(VfsError::IoError)));
    let below = node("low", 10, FileType::File, BASE - 1);
    assert!(matches!(ops.read(&below, 0, &mut buf), Err(VfsError::IoError)));
    assert_eq!(buf, [0u8; 4]);
}

#[test]
fn initrd_lists_the_nodes_mounted_in_the_root() {
    let img = archive();
    let end = BASE + img.len() as u32;
    let mut vfs = Vfs::new();
    init_root(&mut vfs);
    init(&mut vfs, &img, BASE, end);
    let ops = InitrdOps::new(img, BASE, end);
    let fs = MountedInitrd { initrd: &ops, vfs: &vfs };
    let root = node("/", 0, FileType::Directory, 0);
    let mut buf = [0xAAu8; 20];
    assert!(matches!(fs.readdir(&root, &mut buf), Ok(15)));
    assert_eq!(&buf[..15], b"hello.txt\0docs\0");
    assert_eq!(buf[15], 0xAA);
    let mut small = [0xAAu8; 12];
    assert!(matches!(fs.readdir(&root, &mut small), Ok(10)));
    assert_eq!(&small[..10], b"hello.txt\0");
    let mut tiny = [0xAAu8; 9];
    assert!(matches!(fs.readdir(&root, &mut tiny), Ok(0)));
    let f = node("hello.txt", 5, FileType::File, BASE + 512);
    let mut text = [0u8; 5];
    assert!(matches!(fs.read(&f, 0, &mut text), Ok(5)));
    assert_eq!(&text, b"hello");
    assert!(matches!(fs.write(&f, 0, b"x"), Err(VfsError::PermissionDenied)));
}

#[test]
fn initrd_listing_shows_the_root_not_the_archive() {
    let img = archive();
    let end = BASE + img.len() as u32;
    let ops = InitrdOps::new(img, BASE, end);
    let mut vfs = Vfs::new();
    init_root(&mut vfs);
    let root = node("/", 0, FileType::Directory, 0);
    let mut buf = [0xAAu8; 4];
    assert!(matches!(MountedInitrd { initrd: &ops, vfs: &vfs }.readdir(&root, &mut buf), Ok(0)));
    mount(&mut vfs, node("a", 1, FileType::File, BASE));
    assert!(matches!(MountedInitrd { initrd: &ops, vfs: &vfs }.readdir(&root, &mut buf), Ok(2)));
    assert_eq!(&buf, b"a\0\xAA\xAA");
}

#[test]
fn ops_table_hands_out_indices_in_order() {
    let mut t: OpsTable<&str> = OpsTable::new();
    assert_eq!(t.len(), 0);
    assert_eq!(register_ops(&mut t, "console"), 0);
    assert_eq!(register_ops(&mut t, "initrd"), 1);
    assert_eq!(get_ops(&t, 1), Some(&"initrd"));
    assert_eq!(get_ops(&t, 2), None);
    assert_eq!(t.len(), 2);
}

#[test]
fn root_listing_names_every_mounted_node() {
    let mut vfs = Vfs::new();
    let root = node("/", 0, FileType::Directory, 0);
    let mut buf = [0xAAu8; 16];
    assert!(matches!(initrd_readdir(&vfs, &root, &mut buf), Ok(0)));
    init_root(&mut vfs);
    mount(&mut vfs, node("a.txt", 1, FileType::File, BASE));
    mount(&mut vfs, node("bin", 0, FileType::Directory, BASE));
    assert!(matches!(initrd_readdir(&vfs, &root, &mut buf), Ok(10)));
    assert_eq!(&buf[..11], b"a.txt\0bin\0\xAA");
    let mut tight = [0xAAu8; 6];
    assert!(matches!(initrd_readdir(&vfs, &root, &mut tight), Ok(6)));
    assert_eq!(&tight, b"a.txt\0");
}

//! Reading the initial ramdisk, a ustar archive, into file-system nodes.
use vstd::prelude::*;
use vstd::string::StringExecFns;
use crate::drivers::fs::initrd::types::{
    TarHeader, octal_digits_value, name_text, TAR_HEADER_LEN, TAR_BLOCK, SIZE_OFFSET,
    TYPEFLAG_OFFSET, DIRECTORY_FLAG,
};
use crate::fs::types::{FileType, VfsNode, NodeView};
use crate::fs::vfs_core::{Vfs, mount};

verus! {

/// Index of the ramdisk's file operations in the operations table.
pub const INITRD_OPS_INDEX: usize = 1;

/// `b` ends an octal number when the number has begun: NUL or space.
pub open spec fn is_octal_end(b: u8) -> bool {
    b == 0 || b == 0x20
}

/// Value of an octal number read from `b[i..]` with `acc` read so far:
/// digits accumulate, a NUL or space ends a number that has begun and is
/// skipped before it, any other byte ends the number.
pub open spec fn parse_octal_from(b: Seq<u8>, i: int, acc: int) -> int
    decreases b.len() - i,
{
    if i < 0 || i >= b.len() {
        acc
    } else if 0x30 <= b[i] <= 0x37 {
        parse_octal_from(b, i + 1, acc * 8 + (b[i] - 0x30))
    } else if is_octal_end(b[i]) {
        if acc != 0 { acc } else { parse_octal_from(b, i + 1, acc) }
    } else {
        acc
    }
}

proof fn lemma_parse_octal_grows(b: Seq<u8>, i: int, acc: int)
    requires
        acc >= 0,
    ensures
        parse_octal_from(b, i, acc) >= acc,
    decreases b.len() - i,
{
    if 0 <= i < b.len() {
        if 0x30 <= b[i] <= 0x37 {
            lemma_parse_octal_grows(b, i + 1, acc * 8 + (b[i] - 0x30));
        } else if is_octal_end(b[i]) && acc == 0 {
            lemma_parse_octal_grows(b, i + 1, acc);
        }
    }
}

/// Reads an octal number the way tar writes one: leading NULs and spaces are
/// skipped, then digits are read up to the first other byte.
pub fn parse_octal(bytes: &[u8]) -> (r: usize)
    requires
        parse_octal_from(bytes@, 0, 0) <= usize::MAX,
    ensures
        r == parse_octal_from(bytes@, 0, 0),
{
    let mut res: usize = 0;
    let mut i: usize = 0;
    let mut done = false;
    while !done && i < bytes.len()
        invariant
            i <= bytes@.len(),
            parse_octal_from(bytes@, 0, 0) <= usize::MAX,
            done ==> parse_octal_from(bytes@, 0, 0) == res,
            !done ==> parse_octal_from(bytes@, 0, 0) == parse_octal_from(bytes@, i as int, res as int),
        decreases bytes@.len() - i, (if done { 0int } else { 1int }),
    {
        let b = bytes[i];
        if b >= 0x30 && b <= 0x37 {
            proof {
                lemma_parse_octal_grows(bytes@, i + 1, res * 8 + (b - 0x30));
            }
            res = res * 8 + (b - 0x30) as usize;
            i = i + 1;
        } else if b == 0 || b == 0x20 {
            if res != 0 {
                done = true;
            } else {
                i = i + 1;
            }
        } else {
            done = true;
        }
    }
    res
}

/// Size recorded in the header at offset `o` of `img`.
pub open spec fn header_size_at(img: Seq<u8>, o: int) -> int {
    octal_digits_value(img.subrange(o + SIZE_OFFSET, o + SIZE_OFFSET + 11))
}

/// Address of the header that follows the entry at address `cur` with `size`
/// bytes of data: the header block, then the data padded to whole blocks.
pub open spec fn next_header(cur: int, size: int) -> int {
    cur + TAR_BLOCK + ((size + 511) / 512) * 512
}

/// The node for the entry whose header is at offset `o` and address `cur`.
pub open spec fn entry_at(img: Seq<u8>, o: int, cur: int) -> NodeView {
    NodeView {
        name: name_text(img.subrange(o, o + 100)),
        size: header_size_at(img, o) as usize,
        file_type: if img[o + TYPEFLAG_OFFSET] == DIRECTORY_FLAG { FileType::Directory } else { FileType::File },
        data_ptr: (cur + TAR_BLOCK) as u32,
        ops_index: INITRD_OPS_INDEX,
    }
}

/// The entries of the archive image `img` (loaded at address `start`, ending
/// at `end`) from the header at address `cur` on.  Reading stops at the end of
/// the archive, at an empty name (the end-of-archive blocks), at a header that
/// does not fit in the image, and where sizes or addresses would overflow.
pub open spec fn archive_from(img: Seq<u8>, start: int, end: int, cur: int) -> Seq<NodeView>
    decreases 0x1_0000_0000 - cur,
{
    if cur < start || cur >= end {
        Seq::empty()
    } else {
        let o = cur - start;
        if o + TAR_HEADER_LEN > img.len() || img[o] == 0 {
            Seq::empty()
        } else {
            let size = header_size_at(img, o);
            let next = next_header(cur, size);
            if size > usize::MAX || next > u32::MAX || size < 0 {
                Seq::empty()
            } else {
                proof {
                    assert(((size + 511) / 512) * 512 >= 0) by (nonlinear_arith)
                        requires size >= 0;
                }
                seq![entry_at(img, o, cur)] + archive_from(img, start, end, next)
            }
        }
    }
}

/// An entry whose header at address `cur` records `size` bytes of data is
/// followed by the next header exactly past the header block and the data
/// padded to whole blocks: at `cur + 512 + d`, where `d` is the least multiple
/// of 512 that is not below `size` (so `d == size` when `size` is itself a
/// multiple of 512, and an empty entry is followed by the very next block).
/// The entry's node takes its size from the header, its data from the block
/// after the header, and is a directory exactly when the type flag is `'5'`.
pub proof fn lemma_next_entry_after_padded_data(img: Seq<u8>, start: int, end: int, cur: int, d: int)
    requires
        0 <= start <= cur < end,
        cur - start + TAR_HEADER_LEN <= img.len(),
        img[cur - start] != 0,
        0 <= header_size_at(img, cur - start) <= usize::MAX,
        d % 512 == 0,
        header_size_at(img, cur - start) <= d < header_size_at(img, cur - start) + 512,
        cur + 512 + d <= u32::MAX,
    ensures
        archive_from(img, start, end, cur)
            == seq![entry_at(img, cur - start, cur)] + archive_from(img, start, end, cur + 512 + d),
        entry_at(img, cur - start, cur).size == header_size_at(img, cur - start),
        entry_at(img, cur - start, cur).data_ptr == cur + 512,
        (entry_at(img, cur - start, cur).file_type == FileType::Directory)
            == (img[cur - start + TYPEFLAG_OFFSET] == DIRECTORY_FLAG),
{
    let size = header_size_at(img, cur - start);
    assert(((size + 511) / 512) * 512 == d) by (nonlinear_arith)
        requires
            size >= 0,
            d % 512 == 0,
            size <= d < size + 512;
    assert(next_header(cur, size) == cur + 512 + d);
}

/// Reads the entries of the ustar archive `image`, loaded at `start_addr` and
/// ending at `end_addr`, as file-system nodes whose data addresses point into
/// the loaded archive.
pub fn parse_archive(image: &[u8], start_addr: u32, end_addr: u32) -> (nodes: Vec<VfsNode>)
    ensures
        nodes@.map_values(|n: VfsNode| n@) == archive_from(image@, start_addr as int, end_addr as int, start_addr as int),
{
    let ghost img = image@;
    let ghost full = archive_from(img, start_addr as int, end_addr as int, start_addr as int);
    let mut nodes: Vec<VfsNode> = Vec::new();
    let mut cur = start_addr;
    let mut done = false;
    while !done && cur < end_addr
        invariant
            img == image@,
            full == archive_from(img, start_addr as int, end_addr as int, start_addr as int),
            start_addr <= cur,
            done ==> archive_from(img, start_addr as int, end_addr as int, cur as int) == Seq::<NodeView>::empty(),
            nodes@.map_values(|n: VfsNode| n@) + archive_from(img, start_addr as int, end_addr as int, cur as int) == full,
        decreases 0x1_0000_0000 - cur, (if done { 0int } else { 1int }),
    {
        let off = (cur - start_addr) as usize;
        if off > image.len() || image.len() - off < TAR_HEADER_LEN {
            done = true;
        } else {
            let rest = vstd::slice::slice_subrange(image, off, image.len());
            let header = TarHeader::from_bytes(rest);
            if header.name[0] == 0 {
                done = true;
            } else {
                let size = header.size_value();
                proof {
                    assert(header.size@.take(11) =~= img.subrange(off + SIZE_OFFSET, off + SIZE_OFFSET + 11));
                    assert(header.spec_size_value() == header_size_at(img, off as int));
                }
                if size > usize::MAX as u64 {
                    done = true;
                } else {
                    let blocks = (size + 511) / 512;
                    let next = cur as u64 + 512 + blocks * 512;
                    if next > u32::MAX as u64 {
                        done = true;
                    } else {
                        let name = header.name();
                        let file_type = if header.typeflag == DIRECTORY_FLAG { FileType::Directory } else { FileType::File };
                        let node = VfsNode {
                            name: String::from_str(name),
                            size: size as usize,
                            file_type,
                            data_ptr: cur + 512,
                            ops_index: INITRD_OPS_INDEX,
                        };
                        proof {
                            assert(header.name@ =~= img.subrange(off as int, off + 100));
                            assert(node@ == entry_at(img, off as int, cur as int));
                            let before = nodes@.map_values(|n: VfsNode| n@);
                            assert(archive_from(img, start_addr as int, end_addr as int, cur as int)
                                == seq![node@] + archive_from(img, start_addr as int, end_addr as int, next as int));
                            assert(nodes@.push(node).map_values(|n: VfsNode| n@) =~= before.push(node@));
                            assert(before.push(node@) + archive_from(img, start_addr as int, end_addr as int, next as int)
                                =~= before + (seq![node@] + archive_from(img, start_addr as int, end_addr as int, next as int)));
                        }
                        nodes.push(node);
                        cur = next as u32;
                    }
                }
            }
        }
    }
    proof {
        assert(archive_from(img, start_addr as int, end_addr as int, cur as int) == Seq::<NodeView>::empty());
        assert(nodes@.map_values(|n: VfsNode| n@) =~= nodes@.map_values(|n: VfsNode| n@) + Seq::<NodeView>::empty());
    }
    nodes
}

/// Mounts every entry of the ustar archive `image` (loaded at `start_addr`,
/// ending at `end_addr`) in the root directory, in archive order.
pub fn init(vfs: &mut Vfs, image: &[u8], start_addr: u32, end_addr: u32)
    ensures
        final(vfs).root_view() == old(vfs).root_view(),
        final(vfs).children_view() == (if old(vfs).root_view() is Some {
            old(vfs).children_view() + archive_from(image@, start_addr as int, end_addr as int, start_addr as int)
        } else {
            old(vfs).children_view()
        }),
{
    let nodes = parse_archive(image, start_addr, end_addr);
    let ghost entries = nodes@.map_values(|n: VfsNode| n@);
    let ghost kids0 = vfs.children_view();
    let mut i: usize = 0;
    while i < nodes.len()
        invariant
            i <= nodes@.len(),
            entries == nodes@.map_values(|n: VfsNode| n@),
            vfs.root_view() == old(vfs).root_view(),
            kids0 == old(vfs).children_view(),
            vfs.children_view() == (if old(vfs).root_view() is Some { kids0 + entries.take(i as int) } else { kids0 }),
        decreases nodes@.len() - i,
    {
        let node = nodes[i].duplicate();
        mount(vfs, node);
        proof {
            assert(entries.take(i + 1) =~= entries.take(i as int).push(entries[i as int]));
            assert(kids0 + entries.take(i + 1) =~= (kids0 + entries.take(i as int)).push(entries[i as int]));
        }
        i = i + 1;
    }
    proof {
        assert(entries.take(nodes@.len() as int) =~= entries);
    }
}

} // verus!

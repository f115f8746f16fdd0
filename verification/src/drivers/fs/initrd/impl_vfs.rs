//! File operations on the initial ramdisk.
use vstd::prelude::*;
use crate::fs::traits::FileOperations;
use crate::fs::types::{FileType, NodeView, VfsError, VfsNode};
use crate::fs::vfs_core::Vfs;

verus! {

/// The loaded ramdisk: the archive's bytes and the address they were loaded
/// at.
pub struct InitrdOps {
    image: Vec<u8>,
    base: u32,
}

/// The ramdisk as a file system sees it: its files are read from the archive,
/// and a listing shows the nodes mounted in the root of `vfs`.
pub struct MountedInitrd<'a> {
    pub initrd: &'a InitrdOps,
    pub vfs: &'a Vfs,
}

/// What reading `buf_len` bytes of `node` at `offset` yields from the archive
/// image `img` loaded at `base`: nothing past the end of the file, otherwise
/// as many bytes as fit in the buffer and remain in the file.  A directory
/// cannot be read, and data outside the image is an I/O error.
pub open spec fn initrd_read(img: Seq<u8>, base: int, node: NodeView, offset: int, buf_len: int) -> Result<Seq<u8>, VfsError> {
    if node.file_type != FileType::File {
        Err(VfsError::IsADirectory)
    } else if offset >= node.size {
        Ok(Seq::empty())
    } else {
        let n = if buf_len < node.size - offset { buf_len } else { node.size - offset };
        let src = node.data_ptr - base + offset;
        if node.data_ptr < base || src + n > img.len() {
            Err(VfsError::IoError)
        } else {
            Ok(img.subrange(src, src + n))
        }
    }
}

/// The listing of `names` in a buffer of `cap` bytes: each name followed by a
/// NUL, stopping before the first name that does not fit.
pub open spec fn pack_names(names: Seq<Seq<u8>>, cap: int) -> Seq<u8>
    decreases names.len(),
{
    if names.len() == 0 {
        Seq::empty()
    } else if names[0].len() + 1 > cap {
        Seq::empty()
    } else {
        names[0].push(0u8) + pack_names(names.drop_first(), cap - names[0].len() - 1)
    }
}

/// Reading a file whose data lies wholly inside the image, from an offset
/// inside the file, succeeds with as many bytes as the buffer and the rest of
/// the file both allow: no more than either, and all of one or the other.
/// They are the file's bytes from that offset on.
pub proof fn lemma_read_fills_what_fits(img: Seq<u8>, base: int, node: NodeView, offset: int, buf_len: int)
    requires
        node.file_type == FileType::File,
        0 <= offset < node.size,
        0 <= buf_len,
        base <= node.data_ptr,
        node.data_ptr - base + node.size <= img.len(),
    ensures
        initrd_read(img, base, node, offset, buf_len) matches Ok(bytes) && {
            &&& bytes.len() <= buf_len
            &&& bytes.len() <= node.size - offset
            &&& (bytes.len() == buf_len || bytes.len() == node.size - offset)
            &&& forall|j: int| 0 <= j < bytes.len() ==> #[trigger] bytes[j] == img[node.data_ptr - base + offset + j]
        },
{
}

/// The names, each followed by a NUL, one after another.
pub open spec fn joined(names: Seq<Seq<u8>>) -> Seq<u8>
    decreases names.len(),
{
    if names.len() == 0 {
        Seq::empty()
    } else {
        names[0].push(0u8) + joined(names.drop_first())
    }
}

proof fn lemma_joined_take(names: Seq<Seq<u8>>, k: int)
    requires
        0 <= k < names.len(),
    ensures
        joined(names.take(k + 1)) == names[0].push(0u8) + joined(names.drop_first().take(k)),
{
    let t = names.take(k + 1);
    assert(t[0] == names[0]);
    assert(t.drop_first() =~= names.drop_first().take(k));
}

/// A listing in a buffer of `cap` bytes holds the first `m` names, each with
/// its NUL, for the `m` at which the next name and its NUL no longer fit in
/// what is left: a name is left out only when the whole buffer has no room
/// for it after the ones before.
pub proof fn lemma_listing_stops_only_when_full(names: Seq<Seq<u8>>, cap: int)
    requires
        0 <= cap,
    ensures
        exists|m: int| #![trigger names.take(m)] {
            &&& 0 <= m <= names.len()
            &&& pack_names(names, cap) == joined(names.take(m))
            &&& joined(names.take(m)).len() <= cap
            &&& m < names.len() ==> joined(names.take(m + 1)).len() > cap
        },
    decreases names.len(),
{
    if names.len() == 0 {
        assert(names.take(0) =~= names);
        assert(pack_names(names, cap) == joined(names.take(0)));
    } else if names[0].len() + 1 > cap {
        assert(names.take(0).len() == 0);
        lemma_joined_take(names, 0);
        assert(names.drop_first().take(0).len() == 0);
        assert(pack_names(names, cap) == joined(names.take(0)));
    } else {
        let rest = names.drop_first();
        let c2 = cap - names[0].len() - 1;
        lemma_listing_stops_only_when_full(rest, c2);
        let m2 = choose|m: int| #![trigger rest.take(m)] {
            &&& 0 <= m <= rest.len()
            &&& pack_names(rest, c2) == joined(rest.take(m))
            &&& joined(rest.take(m)).len() <= c2
            &&& m < rest.len() ==> joined(rest.take(m + 1)).len() > c2
        };
        lemma_joined_take(names, m2);
        if m2 < rest.len() {
            lemma_joined_take(names, m2 + 1);
        }
        assert(pack_names(names, cap) == joined(names.take(m2 + 1)));
    }
}

/// When the buffer has room for every name and its NUL, the listing is all
/// of them, in order.
pub proof fn lemma_listing_complete_when_room(names: Seq<Seq<u8>>, cap: int)
    requires
        joined(names).len() <= cap,
    ensures
        pack_names(names, cap) == joined(names),
    decreases names.len(),
{
    if names.len() > 0 {
        lemma_listing_complete_when_room(names.drop_first(), cap - names[0].len() - 1);
    }
}

impl InitrdOps {
    /// The archive's bytes.
    pub closed spec fn image(&self) -> Seq<u8> {
        self.image@
    }

    /// Where the archive was loaded.
    pub closed spec fn base(&self) -> u32 {
        self.base
    }

    /// The ramdisk whose archive `image` was loaded at `start_addr` and ends
    /// at `end_addr`.
    pub fn new(image: Vec<u8>, start_addr: u32, end_addr: u32) -> (r: Self)
        ensures
            r.image() == image@,
            r.base() == start_addr,
    {
        InitrdOps { image, base: start_addr }
    }

    /// Copies the file's bytes at `offset` into `buf`.
    pub fn read(&self, node: &VfsNode, offset: usize, buf: &mut [u8]) -> (r: Result<usize, VfsError>)
        ensures
            match (r, initrd_read(self.image(), self.base() as int, node@, offset as int, old(buf)@.len() as int)) {
                (Ok(n), Ok(bytes)) => n == bytes.len() && final(buf)@ == bytes + old(buf)@.skip(n as int),
                (Err(e), Err(f)) => e == f && final(buf)@ == old(buf)@,
                _ => false,
            },
    {
        if node.file_type != FileType::File {
            return Err(VfsError::IsADirectory);
        }
        if offset >= node.size {
            proof {
                assert(old(buf)@ =~= Seq::<u8>::empty() + old(buf)@.skip(0));
            }
            return Ok(0);
        }
        let remaining = node.size - offset;
        let n = if buf.len() < remaining { buf.len() } else { remaining };
        if node.data_ptr < self.base {
            return Err(VfsError::IoError);
        }
        let start = (node.data_ptr - self.base) as usize;
        if start > self.image.len() || offset > self.image.len() - start || n > self.image.len() - start - offset {
            return Err(VfsError::IoError);
        }
        let src = start + offset;
        let ghost img = self.image@;
        let ilen = self.image.len();
        let mut i: usize = 0;
        while i < n
            invariant
                img == self.image@,
                ilen == img.len(),
                n <= buf@.len(),
                buf@.len() == old(buf)@.len(),
                src + n <= img.len(),
                i <= n,
                forall|j: int| 0 <= j < i ==> buf@[j] == img[src + j],
                forall|j: int| n <= j < buf@.len() ==> buf@[j] == old(buf)@[j],
            decreases n - i,
        {
            buf[i] = self.image[src + i];
            i = i + 1;
        }
        proof {
            assert(buf@ =~= img.subrange(src as int, src + n) + old(buf)@.skip(n as int));
        }
        Ok(n)
    }

    /// The ramdisk is read-only.
    pub fn write(&self, node: &VfsNode, offset: usize, buf: &[u8]) -> (r: Result<usize, VfsError>)
        ensures
            r == Err::<usize, VfsError>(VfsError::PermissionDenied),
    {
        Err(VfsError::PermissionDenied)
    }
}

impl<'a> FileOperations for MountedInitrd<'a> {
    /// Copies the file's bytes at `offset` into `buf`, from the archive.
    fn read(&self, node: &VfsNode, offset: usize, buf: &mut [u8]) -> (r: Result<usize, VfsError>)
        ensures
            match (r, initrd_read(self.initrd.image(), self.initrd.base() as int, node@, offset as int, old(buf)@.len() as int)) {
                (Ok(n), Ok(bytes)) => n == bytes.len() && final(buf)@ == bytes + old(buf)@.skip(n as int),
                (Err(e), Err(f)) => e == f && final(buf)@ == old(buf)@,
                _ => false,
            },
    {
        self.initrd.read(node, offset, buf)
    }

    /// The ramdisk is read-only.
    fn write(&self, node: &VfsNode, offset: usize, buf: &[u8]) -> (r: Result<usize, VfsError>)
        ensures
            r == Err::<usize, VfsError>(VfsError::PermissionDenied),
    {
        self.initrd.write(node, offset, buf)
    }

    /// Lists the nodes mounted in the root of the file system into `buf`:
    /// each name followed by a NUL, stopping before the first name that does
    /// not fit.
    fn readdir(&self, node: &VfsNode, buf: &mut [u8]) -> (r: Result<usize, VfsError>)
        ensures
            ({
                let names = self.vfs.children_view().map_values(|v: NodeView| v.name_bytes());
                let listing = pack_names(names, old(buf)@.len() as int);
                &&& r == Ok::<usize, VfsError>(listing.len() as usize)
                &&& final(buf)@ == listing + old(buf)@.skip(listing.len() as int)
            }),
    {
        initrd_readdir(self.vfs, node, buf)
    }
}

/// Lists the nodes mounted in the root directory of `vfs` into `buffer`: each
/// name followed by a NUL, stopping before the first name that does not fit.
pub fn initrd_readdir(vfs: &Vfs, node: &VfsNode, buffer: &mut [u8]) -> (r: Result<usize, VfsError>)
    ensures
        ({
            let names = vfs.children_view().map_values(|v: NodeView| v.name_bytes());
            let listing = pack_names(names, old(buffer)@.len() as int);
            &&& r == Ok::<usize, VfsError>(listing.len() as usize)
            &&& final(buffer)@ == listing + old(buffer)@.skip(listing.len() as int)
        }),
{
    let nodes = vfs.mounted();
    proof {
        assert(nodes@.map_values(|n: VfsNode| n@).map_values(|v: NodeView| v.name_bytes())
            =~= nodes@.map_values(|n: VfsNode| n@.name_bytes()));
    }
    Ok(write_names(nodes, buffer))
}

/// Writes the names of `nodes` into `buf`, each followed by a NUL, stopping
/// before the first name that does not fit; returns the bytes written.
fn write_names(nodes: &[VfsNode], buf: &mut [u8]) -> (written: usize)
    ensures
        ({
            let listing = pack_names(nodes@.map_values(|n: VfsNode| n@.name_bytes()), old(buf)@.len() as int);
            &&& written == listing.len()
            &&& final(buf)@ == listing + old(buf)@.skip(listing.len() as int)
        }),
{
    let ghost names = nodes@.map_values(|n: VfsNode| n@.name_bytes());
    let ghost cap = buf@.len() as int;
    let blen = buf.len();
    let mut written: usize = 0;
    let mut i: usize = 0;
    let mut done = false;
    proof {
        assert(names.skip(0) =~= names);
        assert(buf@.take(0) =~= Seq::<u8>::empty());
        assert(buf@.take(0) + pack_names(names, cap) =~= pack_names(names, cap));
    }
    while !done && i < nodes.len()
        invariant
            blen == buf@.len(),
            names == nodes@.map_values(|n: VfsNode| n@.name_bytes()),
            names.len() == nodes@.len(),
            cap == old(buf)@.len(),
            buf@.len() == cap,
            i <= names.len(),
            written <= cap,
            pack_names(names, cap) == buf@.take(written as int) + (if done { Seq::empty() } else { pack_names(names.skip(i as int), cap - written) }),
            buf@.skip(written as int) == old(buf)@.skip(written as int),
        decreases names.len() - i, (if done { 0int } else { 1int }),
    {
        let name = nodes[i].name_bytes();
        let len = name.len();
        proof {
            assert(names[i as int] == name@);
            assert(names.skip(i as int)[0] == name@);
            assert(names.skip(i as int).drop_first() =~= names.skip(i + 1));
        }
        if len >= buf.len() - written {
            done = true;
        } else {
            let ghost before = buf@;
            let mut k: usize = 0;
            while k < len
                invariant
                    blen == buf@.len(),
                    k <= len,
                    len == name@.len(),
                    written + len < buf@.len(),
                    buf@.len() == before.len(),
                    forall|j: int| 0 <= j < written ==> buf@[j] == before[j],
                    forall|j: int| 0 <= j < k ==> buf@[written + j] == name@[j],
                    forall|j: int| written + len <= j < buf@.len() ==> buf@[j] == before[j],
                decreases len - k,
            {
                buf[written + k] = name[k];
                k = k + 1;
            }
            buf[written + len] = 0;
            proof {
                assert(buf@.take(written + len + 1) =~= before.take(written as int) + name@.push(0u8));
                assert(buf@.skip(written + len + 1) =~= before.skip(written + len + 1));
                assert(before.skip(written + len + 1) =~= before.skip(written as int).skip(len + 1));
                assert(old(buf)@.skip(written + len + 1) =~= old(buf)@.skip(written as int).skip(len + 1));
            }
            written = written + len + 1;
        }
        i = i + 1;
    }
    proof {
        if !done {
            assert(names.skip(i as int).len() == 0);
        }
        assert(pack_names(names, cap) =~= buf@.take(written as int));
    }
    written
}

} // verus!

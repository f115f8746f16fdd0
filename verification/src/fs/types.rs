//! Nodes and errors of the virtual file system.
use vstd::prelude::*;
use vstd::string::StringSliceAdditionalSpecFns;
use vstd::utf8::{valid_utf8, encode_utf8};

verus! {

/// Kind of a file-system node.
#[derive(Clone, Copy, Debug, PartialEq, Eq, Structural)]
pub enum FileType {
    File,
    Directory,
}

/// Why a file-system operation failed.
#[derive(Clone, Copy, Debug, PartialEq, Eq, Structural)]
pub enum VfsError {
    FileNotFound,
    IsADirectory,
    NotADirectory,
    PermissionDenied,
    InvalidOffset,
    IoError,
}

/// A node of the virtual file system: its name, size in bytes, kind, the
/// address of its contents, and the index of its operations in the table of
/// registered file operations.
#[derive(Clone, Debug)]
pub struct VfsNode {
    pub name: String,
    pub size: usize,
    pub file_type: FileType,
    pub data_ptr: u32,
    pub ops_index: usize,
}

/// The mathematical value of a node.
pub ghost struct NodeView {
    pub name: Seq<char>,
    pub size: usize,
    pub file_type: FileType,
    pub data_ptr: u32,
    pub ops_index: usize,
}

impl NodeView {
    /// The UTF-8 bytes of the node's name.
    pub open spec fn name_bytes(self) -> Seq<u8> {
        encode_utf8(self.name)
    }
}

impl VfsNode {
    pub open spec fn view(&self) -> NodeView {
        NodeView {
            name: self.name@,
            size: self.size,
            file_type: self.file_type,
            data_ptr: self.data_ptr,
            ops_index: self.ops_index,
        }
    }

    /// A copy of this node.
    pub fn duplicate(&self) -> (r: VfsNode)
        ensures
            r@ == self@,
    {
        VfsNode {
            name: self.name.clone(),
            size: self.size,
            file_type: self.file_type,
            data_ptr: self.data_ptr,
            ops_index: self.ops_index,
        }
    }

    /// The UTF-8 bytes of the node's name.
    pub fn name_bytes(&self) -> (r: &[u8])
        ensures
            r@ == self@.name_bytes(),
    {
        self.name.as_str().as_bytes()
    }
}

/// Calls `core::str::from_utf8`, which by its documentation succeeds exactly
/// when the bytes are valid UTF-8 and then returns the string made of them.
#[verifier::external_body]
pub(crate) fn str_from_utf8(bytes: &[u8]) -> (r: Option<&str>)
    ensures
        r is Some <==> valid_utf8(bytes@),
        r matches Some(s) ==> s.spec_bytes() == bytes@,
{
    core::str::from_utf8(bytes).ok()
}

/// The two byte sequences are equal.
pub fn bytes_eq(a: &[u8], b: &[u8]) -> (r: bool)
    ensures
        r == (a@ == b@),
{
    if a.len() != b.len() {
        return false;
    }
    let mut i: usize = 0;
    while i < a.len()
        invariant
            a@.len() == b@.len(),
            i <= a@.len(),
            forall|j: int| 0 <= j < i ==> a@[j] == b@[j],
        decreases a@.len() - i,
    {
        if a[i] != b[i] {
            return false;
        }
        i = i + 1;
    }
    proof {
        assert(a@ =~= b@);
    }
    true
}

} // verus!

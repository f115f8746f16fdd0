//! The virtual file system: a root directory, the nodes mounted under it, and
//! the table of registered file operations.
use vstd::prelude::*;
use vstd::string::StringSliceAdditionalSpecFns;
use crate::fs::types::{FileType, VfsError, VfsNode, NodeView, bytes_eq};

verus! {

/// The file system tree: the root directory, once created, and the nodes
/// mounted in it.
pub struct Vfs {
    root: Option<VfsNode>,
    children: Vec<VfsNode>,
}

/// Registered file operations, found by index.
pub struct OpsTable<T> {
    entries: Vec<T>,
}

/// `path` names the root directory: `/`, `.` or the empty path.
pub open spec fn is_root_path(path: Seq<u8>) -> bool {
    path =~= seq![0x2Fu8] || path =~= seq![0x2Eu8] || path.len() == 0
}

/// `path` without its leading slashes.
pub open spec fn strip_slashes(path: Seq<u8>) -> Seq<u8>
    decreases path.len(),
{
    if path.len() > 0 && path[0] == 0x2Fu8 {
        strip_slashes(path.drop_first())
    } else {
        path
    }
}

/// `i` is the first node of `nodes` whose name is `name`.
pub open spec fn is_first_named(nodes: Seq<NodeView>, name: Seq<u8>, i: int) -> bool {
    &&& 0 <= i < nodes.len()
    &&& nodes[i].name_bytes() == name
    &&& forall|j: int| 0 <= j < i ==> (#[trigger] nodes[j]).name_bytes() != name
}

/// Index of the first node named `name`, or `nodes.len()` if there is none.
pub open spec fn find_named(nodes: Seq<NodeView>, name: Seq<u8>) -> int {
    if exists|i: int| is_first_named(nodes, name, i) {
        choose|i: int| is_first_named(nodes, name, i)
    } else {
        nodes.len() as int
    }
}

/// What looking `path` up finds: the root for a root path, otherwise the
/// first mounted node named like `path` without its leading slashes.
pub open spec fn lookup(root: Option<NodeView>, children: Seq<NodeView>, path: Seq<u8>) -> Result<NodeView, VfsError> {
    match root {
        None => Err(VfsError::FileNotFound),
        Some(r) => if is_root_path(path) {
            Ok(r)
        } else {
            let i = find_named(children, strip_slashes(path));
            if i < children.len() {
                Ok(children[i])
            } else {
                Err(VfsError::FileNotFound)
            }
        },
    }
}

proof fn lemma_strip_slashes(path: Seq<u8>, k: int)
    requires
        0 <= k <= path.len(),
        forall|j: int| 0 <= j < k ==> path[j] == 0x2Fu8,
        k < path.len() ==> path[k] != 0x2Fu8,
    ensures
        strip_slashes(path) == path.skip(k),
    decreases k,
{
    if k == 0 {
        assert(path.skip(0) =~= path);
    } else {
        let rest = path.drop_first();
        assert forall|j: int| 0 <= j < k - 1 implies rest[j] == 0x2Fu8 by {
            assert(rest[j] == path[j + 1]);
        }
        lemma_strip_slashes(rest, k - 1);
        assert(rest.skip(k - 1) =~= path.skip(k));
    }
}

proof fn lemma_find_named(nodes: Seq<NodeView>, name: Seq<u8>, i: int)
    requires
        0 <= i <= nodes.len(),
        forall|j: int| 0 <= j < i ==> (#[trigger] nodes[j]).name_bytes() != name,
        i < nodes.len() ==> nodes[i].name_bytes() == name,
    ensures
        find_named(nodes, name) == i,
{
    if exists|m: int| is_first_named(nodes, name, m) {
        let m = choose|m: int| is_first_named(nodes, name, m);
        assert(is_first_named(nodes, name, m));
        if m < i {
            assert(nodes[m].name_bytes() != name);
        } else if m > i {
            assert(nodes[i].name_bytes() == name);
        }
    } else if i < nodes.len() {
        assert(is_first_named(nodes, name, i));
    }
}

impl Vfs {
    /// The root directory, if created.
    pub closed spec fn root_view(&self) -> Option<NodeView> {
        match self.root {
            Some(r) => Some(r@),
            None => None,
        }
    }

    /// The nodes mounted in the root directory, in mount order.
    pub closed spec fn children_view(&self) -> Seq<NodeView> {
        self.children@.map_values(|c: VfsNode| c@)
    }

    /// The nodes mounted in the root directory, in mount order.
    pub fn mounted(&self) -> (r: &[VfsNode])
        ensures
            r@.map_values(|c: VfsNode| c@) == self.children_view(),
    {
        self.children.as_slice()
    }

    /// An empty file system without a root.
    pub fn new() -> (v: Vfs)
        ensures
            v.root_view() is None,
            v.children_view() == Seq::<NodeView>::empty(),
    {
        let v = Vfs { root: None, children: Vec::new() };
        proof {
            assert(v.children_view() =~= Seq::<NodeView>::empty());
        }
        v
    }
}

/// The root directory node `/`.
pub open spec fn root_node() -> NodeView {
    NodeView { name: seq!['/'], size: 0, file_type: FileType::Directory, data_ptr: 0, ops_index: 0 }
}

/// Creates the root directory `/` unless it exists already.
pub fn init_root(vfs: &mut Vfs)
    ensures
        final(vfs).root_view() == (match old(vfs).root_view() {
            Some(r) => Some(r),
            None => Some(root_node()),
        }),
        final(vfs).children_view() == old(vfs).children_view(),
{
    if vfs.root.is_none() {
        proof {
            reveal_strlit("/");
        }
        let name = String::from_str("/");
        proof {
            assert(name@ =~= seq!['/']);
        }
        vfs.root = Some(VfsNode { name, size: 0, file_type: FileType::Directory, data_ptr: 0, ops_index: 0 });
    }
}

/// Mounts `node` in the root directory; without a root the node is dropped.
pub fn mount(vfs: &mut Vfs, node: VfsNode)
    ensures
        final(vfs).root_view() == old(vfs).root_view(),
        final(vfs).children_view() == (if old(vfs).root_view() is Some {
            old(vfs).children_view().push(node@)
        } else {
            old(vfs).children_view()
        }),
{
    if vfs.root.is_some() {
        let ghost before = vfs.children@;
        vfs.children.push(node);
        proof {
            assert(vfs.children@ == before.push(node));
            assert(vfs.children@.map_values(|c: VfsNode| c@) =~= before.map_values(|c: VfsNode| c@).push(node@));
        }
    }
}

/// Looks `path` up: `/`, `.` and the empty path name the root; any other path,
/// stripped of its leading slashes, names the first mounted node so called.
pub fn open(vfs: &Vfs, path: &str) -> (r: Result<VfsNode, VfsError>)
    ensures
        match (r, lookup(vfs.root_view(), vfs.children_view(), path.spec_bytes())) {
            (Ok(n), Ok(v)) => n@ == v,
            (Err(e), Err(f)) => e == f,
            _ => false,
        },
{
    open_bytes(vfs, path.as_bytes())
}

/// Looks up the path whose UTF-8 bytes are `p`, as `open` does.
#[verifier::rlimit(40)]
pub fn open_bytes(vfs: &Vfs, p: &[u8]) -> (r: Result<VfsNode, VfsError>)
    ensures
        match (r, lookup(vfs.root_view(), vfs.children_view(), p@)) {
            (Ok(n), Ok(v)) => n@ == v,
            (Err(e), Err(f)) => e == f,
            _ => false,
        },
{
    let root = match &vfs.root {
        Some(r) => r,
        None => return Err(VfsError::FileNotFound),
    };
    if p.len() == 0 || (p.len() == 1 && (p[0] == 0x2Fu8 || p[0] == 0x2Eu8)) {
        proof {
            if p@.len() == 1 {
                if p@[0] == 0x2Fu8 {
                    assert(p@ =~= seq![0x2Fu8]);
                } else {
                    assert(p@ =~= seq![0x2Eu8]);
                }
            }
        }
        return Ok(root.duplicate());
    }
    proof {
        if p@ =~= seq![0x2Fu8] || p@ =~= seq![0x2Eu8] {
            assert(p@[0] == 0x2Fu8 || p@[0] == 0x2Eu8);
        }
    }
    // strip the leading slashes
    let mut k: usize = 0;
    while k < p.len() && p[k] == 0x2Fu8
        invariant
            k <= p@.len(),
            forall|j: int| 0 <= j < k ==> p@[j] == 0x2Fu8,
        decreases p@.len() - k,
    {
        k = k + 1;
    }
    let name = vstd::slice::slice_subrange(p, k, p.len());
    proof {
        lemma_strip_slashes(p@, k as int);
        assert(name@ =~= p@.skip(k as int));
    }
    let ghost kids = vfs.children_view();
    let mut i: usize = 0;
    while i < vfs.children.len()
        invariant
            kids == vfs.children@.map_values(|c: VfsNode| c@),
            kids == vfs.children_view(),
            vfs.root_view() is Some,
            !is_root_path(p@),
            name@ == strip_slashes(p@),
            i <= vfs.children@.len(),
            forall|j: int| 0 <= j < i ==> (#[trigger] kids[j]).name_bytes() != name@,
        decreases vfs.children@.len() - i,
    {
        let child = &vfs.children[i];
        if bytes_eq(child.name_bytes(), name) {
            proof {
                lemma_find_named(kids, name@, i as int);
            }
            return Ok(child.duplicate());
        }
        i = i + 1;
    }
    proof {
        lemma_find_named(kids, name@, i as int);
    }
    Err(VfsError::FileNotFound)
}

/// `k` slashes.
pub open spec fn slashes(k: nat) -> Seq<u8> {
    Seq::new(k, |i: int| 0x2Fu8)
}

/// A node mounted under a name that is not a root path and holds no leading
/// slash is what opening that name finds, with or without leading slashes,
/// unless an earlier node has the same name.
pub proof fn lemma_mount_then_open(root: NodeView, children: Seq<NodeView>, node: NodeView)
    requires
        !is_root_path(node.name_bytes()),
        node.name_bytes().len() > 0 ==> node.name_bytes()[0] != 0x2Fu8,
        forall|j: int| 0 <= j < children.len() ==> (#[trigger] children[j]).name_bytes() != node.name_bytes(),
    ensures
        lookup(Some(root), children.push(node), node.name_bytes()) == Ok::<NodeView, VfsError>(node),
        forall|k: nat| lookup(Some(root), children.push(node), #[trigger] slashes(k) + node.name_bytes())
            == Ok::<NodeView, VfsError>(node),
{
    let kids = children.push(node);
    let name = node.name_bytes();
    lemma_strip_slashes(name, 0);
    assert(name.skip(0) =~= name);
    assert forall|j: int| 0 <= j < children.len() implies (#[trigger] kids[j]).name_bytes() != name by {
        assert(kids[j] == children[j]);
    }
    lemma_find_named(kids, name, children.len() as int);
    assert forall|k: nat| lookup(Some(root), kids, #[trigger] slashes(k) + name)
        == Ok::<NodeView, VfsError>(node) by {
        let p = slashes(k) + name;
        assert forall|j: int| 0 <= j < k implies p[j] == 0x2Fu8 by {}
        lemma_strip_slashes(p, k as int);
        assert(p.skip(k as int) =~= name);
        if k > 0 {
            assert(p.len() >= 2);
            assert(!(p =~= seq![0x2Fu8]) && !(p =~= seq![0x2Eu8]));
        } else {
            assert(p =~= name);
        }
    }
}

impl<T> OpsTable<T> {
    /// The registered operations, by index.
    pub closed spec fn view(&self) -> Seq<T> {
        self.entries@
    }

    /// A table with nothing registered.
    pub fn new() -> (t: Self)
        ensures
            t@ == Seq::<T>::empty(),
    {
        OpsTable { entries: Vec::new() }
    }

    /// How many operations are registered.
    pub fn len(&self) -> (n: usize)
        ensures
            n == self@.len(),
    {
        self.entries.len()
    }
}

/// Registers `ops` and returns its index.
pub fn register_ops<T>(table: &mut OpsTable<T>, ops: T) -> (index: usize)
    requires
        old(table)@.len() < usize::MAX,
    ensures
        final(table)@ == old(table)@.push(ops),
        index == old(table)@.len(),
{
    table.entries.push(ops);
    table.entries.len() - 1
}

/// The operations registered at `index`, if any.
pub fn get_ops<T>(table: &OpsTable<T>, index: usize) -> (r: Option<&T>)
    ensures
        r == (if index < table@.len() { Some(&table@[index as int]) } else { None }),
{
    if index < table.entries.len() {
        Some(&table.entries[index])
    } else {
        None
    }
}

/// Operations are found again under the index registering them returned,
/// and registering keeps every earlier entry: looking index `i` up in the table
/// `after` (as `get_ops` does) gives `ops` for the new index and the old entry
/// below it.
pub proof fn lemma_register_then_get<T>(before: Seq<T>, ops: T)
    requires
        before.len() < usize::MAX,
    ensures
        ({
            let after = before.push(ops);
            let i = before.len() as int;
            &&& (if i < after.len() { Some(after[i]) } else { None }) == Some(ops)
            &&& forall|j: int| 0 <= j < i ==> (if j < after.len() { Some(#[trigger] after[j]) } else { None }) == Some(before[j])
            &&& after.len() == i + 1
        }),
{
}

} // verus!

//! System calls.
//!
//! A call is handled in two steps.  `syscall_begin` decodes it, checks its
//! arguments against the running thread's state and either answers it at once
//! or says which file operation to run; the kernel runs that operation on the
//! user's buffer and hands its result to `syscall_finish`, which updates the
//! file offset and gives the value returned to the user.  `sys_open` opens a
//! path read from user memory.
use vstd::prelude::*;
use vstd::utf8::valid_utf8;
use crate::fs::types::{NodeView, VfsError, VfsNode, str_from_utf8};
use crate::fs::vfs_core::{Vfs, lookup, open_bytes};
use crate::kernel::types::{Scheduler, Thread, ThreadView, fd_view};
use crate::mm::{is_user_memory, user_range};

verus! {

/// Value returned to the user when a call fails.
pub const SYSCALL_ERROR: u32 = 0xFFFF_FFFF;

/// Descriptors below this one are the standard streams.
pub const FIRST_FILE_FD: usize = 3;

/// The system calls, numbered as user code invokes them: exit 1, read 3,
/// write 4, open 5, readdir 6, close 7.
#[derive(Clone, Copy, Debug, PartialEq, Eq, Structural)]
pub enum Syscall {
    Exit,
    Read,
    Write,
    Open,
    Readdir,
    Close,
}

/// The call numbered `num`, if any.
pub open spec fn syscall_of(num: u32) -> Option<Syscall> {
    if num == 1 {
        Some(Syscall::Exit)
    } else if num == 3 {
        Some(Syscall::Read)
    } else if num == 4 {
        Some(Syscall::Write)
    } else if num == 5 {
        Some(Syscall::Open)
    } else if num == 6 {
        Some(Syscall::Readdir)
    } else if num == 7 {
        Some(Syscall::Close)
    } else {
        None
    }
}

impl Syscall {
    /// Decodes a call number.
    pub fn from_u32(num: u32) -> (r: Option<Syscall>)
        ensures
            r == syscall_of(num),
    {
        match num {
            1 => Some(Syscall::Exit),
            3 => Some(Syscall::Read),
            4 => Some(Syscall::Write),
            5 => Some(Syscall::Open),
            6 => Some(Syscall::Readdir),
            7 => Some(Syscall::Close),
            _ => None,
        }
    }
}

/// What handling a call needs next.
pub enum SyscallAction {
    /// Return this value to the user.
    Return(u32),
    /// End the calling process with this status.
    Exit(u32),
    /// No call has this number; report it and return `SYSCALL_ERROR`.
    Unknown(u32),
    /// Read from `node` at `offset` into the user buffer `[buf, buf + len)`.
    Read { fd: usize, node: VfsNode, offset: usize, buf: u32, len: u32 },
    /// Write the user buffer `[buf, buf + len)` to `node` at `offset`.
    Write { fd: usize, node: VfsNode, offset: usize, buf: u32, len: u32 },
    /// List directory `node` into the user buffer `[buf, buf + len)`.
    Readdir { node: VfsNode, buf: u32, len: u32 },
    /// Open the path held in the user buffer `[path, path + len)`.
    Open { path: u32, len: u32 },
}

/// The mathematical value of an action.
pub ghost enum ActionView {
    Return(u32),
    Exit(u32),
    Unknown(u32),
    Read { fd: usize, node: NodeView, offset: usize, buf: u32, len: u32 },
    Write { fd: usize, node: NodeView, offset: usize, buf: u32, len: u32 },
    Readdir { node: NodeView, buf: u32, len: u32 },
    Open { path: u32, len: u32 },
}

impl SyscallAction {
    pub open spec fn view(&self) -> ActionView {
        match self {
            SyscallAction::Return(v) => ActionView::Return(*v),
            SyscallAction::Exit(s) => ActionView::Exit(*s),
            SyscallAction::Unknown(n) => ActionView::Unknown(*n),
            SyscallAction::Read { fd, node, offset, buf, len } =>
                ActionView::Read { fd: *fd, node: node@, offset: *offset, buf: *buf, len: *len },
            SyscallAction::Write { fd, node, offset, buf, len } =>
                ActionView::Write { fd: *fd, node: node@, offset: *offset, buf: *buf, len: *len },
            SyscallAction::Readdir { node, buf, len } => ActionView::Readdir { node: node@, buf: *buf, len: *len },
            SyscallAction::Open { path, len } => ActionView::Open { path: *path, len: *len },
        }
    }
}

/// The open file at descriptor `fd` of the running thread, if any.
pub open spec fn open_file(cur: Option<ThreadView>, fd: int) -> Option<(NodeView, usize)> {
    match cur {
        Some(t) => if 0 <= fd < t.fds.len() { t.fds[fd] } else { None },
        None => None,
    }
}

/// What `syscall_begin` decides for call `num` with arguments `a1`, `a2`,
/// `a3` while `cur` runs.
pub open spec fn begin_spec(cur: Option<ThreadView>, num: u32, a1: u32, a2: u32, a3: u32) -> ActionView {
    match syscall_of(num) {
        Some(Syscall::Read) => if !user_range(a2 as int, a3 as int) {
            ActionView::Return(SYSCALL_ERROR)
        } else {
            match open_file(cur, a1 as int) {
                Some((node, offset)) => ActionView::Read { fd: a1 as usize, node, offset, buf: a2, len: a3 },
                None => ActionView::Return(SYSCALL_ERROR),
            }
        },
        Some(Syscall::Write) => if !user_range(a2 as int, a3 as int) {
            ActionView::Return(SYSCALL_ERROR)
        } else {
            match open_file(cur, a1 as int) {
                Some((node, offset)) => ActionView::Write { fd: a1 as usize, node, offset, buf: a2, len: a3 },
                None => ActionView::Return(SYSCALL_ERROR),
            }
        },
        Some(Syscall::Readdir) => if !user_range(a2 as int, a3 as int) {
            ActionView::Return(SYSCALL_ERROR)
        } else {
            match open_file(cur, a1 as int) {
                Some((node, offset)) => ActionView::Readdir { node, buf: a2, len: a3 },
                None => ActionView::Return(SYSCALL_ERROR),
            }
        },
        Some(Syscall::Open) => if !user_range(a1 as int, a2 as int) {
            ActionView::Return(SYSCALL_ERROR)
        } else {
            ActionView::Open { path: a1, len: a2 }
        },
        Some(Syscall::Close) => if open_file(cur, a1 as int) is Some {
            ActionView::Return(0)
        } else {
            ActionView::Return(SYSCALL_ERROR)
        },
        Some(Syscall::Exit) => ActionView::Exit(a1),
        None => ActionView::Unknown(num),
    }
}

/// The running thread after call `num`: a successful close empties the
/// descriptor, nothing else changes it.
pub open spec fn begin_thread_spec(cur: Option<ThreadView>, num: u32, a1: u32) -> Option<ThreadView> {
    if syscall_of(num) == Some(Syscall::Close) && open_file(cur, a1 as int) is Some {
        let t = cur.unwrap();
        Some(ThreadView { fds: t.fds.update(a1 as int, None), ..t })
    } else {
        cur
    }
}

/// Looks the descriptor up in the running thread, if it is open.
fn lookup_fd(sched: &Scheduler, fd: usize) -> (r: Option<(VfsNode, usize)>)
    ensures
        match (r, open_file(sched.current(), fd as int)) {
            (Some((n, o)), Some((v, p))) => n@ == v && o == p,
            (None, None) => true,
            _ => false,
        },
{
    match &sched.current_thread {
        None => None,
        Some(t) => {
            if fd < t.file_descriptors.len() {
                match &t.file_descriptors[fd] {
                    Some((node, offset)) => Some((node.duplicate(), *offset)),
                    None => None,
                }
            } else {
                None
            }
        },
    }
}

/// First step of call `num` with arguments `a1`, `a2`, `a3`: read, write and
/// readdir need a user buffer `[a2, a2 + a3)` in user memory and an open
/// descriptor `a1`; open needs its path `[a1, a1 + a2)` in user memory; close
/// empties descriptor `a1` when it is open.  Failures return `SYSCALL_ERROR`.
pub fn syscall_begin(sched: &mut Scheduler, num: u32, arg1: u32, arg2: u32, arg3: u32) -> (r: SyscallAction)
    ensures
        r@ == begin_spec(old(sched).current(), num, arg1, arg2, arg3),
        final(sched).current() == begin_thread_spec(old(sched).current(), num, arg1),
        final(sched).queue() == old(sched).queue(),
        final(sched).next_id == old(sched).next_id,
{
    match Syscall::from_u32(num) {
        Some(Syscall::Read) => {
            if !is_user_memory(arg2, arg3) {
                return SyscallAction::Return(SYSCALL_ERROR);
            }
            match lookup_fd(sched, arg1 as usize) {
                Some((node, offset)) => SyscallAction::Read { fd: arg1 as usize, node, offset, buf: arg2, len: arg3 },
                None => SyscallAction::Return(SYSCALL_ERROR),
            }
        },
        Some(Syscall::Write) => {
            if !is_user_memory(arg2, arg3) {
                return SyscallAction::Return(SYSCALL_ERROR);
            }
            match lookup_fd(sched, arg1 as usize) {
                Some((node, offset)) => SyscallAction::Write { fd: arg1 as usize, node, offset, buf: arg2, len: arg3 },
                None => SyscallAction::Return(SYSCALL_ERROR),
            }
        },
        Some(Syscall::Readdir) => {
            if !is_user_memory(arg2, arg3) {
                return SyscallAction::Return(SYSCALL_ERROR);
            }
            match lookup_fd(sched, arg1 as usize) {
                Some((node, _)) => SyscallAction::Readdir { node, buf: arg2, len: arg3 },
                None => SyscallAction::Return(SYSCALL_ERROR),
            }
        },
        Some(Syscall::Open) => {
            if !is_user_memory(arg1, arg2) {
                return SyscallAction::Return(SYSCALL_ERROR);
            }
            SyscallAction::Open { path: arg1, len: arg2 }
        },
        Some(Syscall::Close) => {
            let fd = arg1 as usize;
            if sched.current_thread.is_none() {
                return SyscallAction::Return(SYSCALL_ERROR);
            }
            let boxed = sched.current_thread.take().unwrap();
            let mut thread: Thread = *boxed;
            let ghost t0 = thread@;
            let mut result = SYSCALL_ERROR;
            if fd < thread.file_descriptors.len() {
                if thread.file_descriptors[fd].is_some() {
                    thread.file_descriptors.set(fd, None);
                    result = 0;
                    proof {
                        assert(thread@.fds =~= t0.fds.update(fd as int, None));
                    }
                }
            }
            sched.current_thread = Some(Box::new(thread));
            SyscallAction::Return(result)
        },
        Some(Syscall::Exit) => SyscallAction::Exit(arg1),
        None => SyscallAction::Unknown(num),
    }
}

/// The value returned to the user for a finished operation, and the running
/// thread afterwards: a read or write that moved `n` bytes advances the
/// descriptor's offset by `n` (an offset that would overflow fails the call
/// instead); a readdir changes nothing; a failure returns `SYSCALL_ERROR`.
pub open spec fn finish_spec(cur: Option<ThreadView>, action: ActionView, result: Result<usize, VfsError>) -> (u32, Option<ThreadView>) {
    match action {
        ActionView::Return(v) => (v, cur),
        ActionView::Read { fd, offset, .. } | ActionView::Write { fd, offset, .. } => match result {
            Ok(n) => if offset + n > usize::MAX {
                (SYSCALL_ERROR, cur)
            } else {
                match open_file(cur, fd as int) {
                    Some((node, _)) => {
                        let t = cur.unwrap();
                        (n as u32, Some(ThreadView { fds: t.fds.update(fd as int, Some((node, (offset + n) as usize))), ..t }))
                    },
                    None => (n as u32, cur),
                }
            },
            Err(_) => (SYSCALL_ERROR, cur),
        },
        ActionView::Readdir { .. } => match result {
            Ok(n) => (n as u32, cur),
            Err(_) => (SYSCALL_ERROR, cur),
        },
        _ => (SYSCALL_ERROR, cur),
    }
}

/// Second step of a call: takes the result of the file operation that
/// `action` asked for and gives the value to return to the user.
pub fn syscall_finish(sched: &mut Scheduler, action: &SyscallAction, result: Result<usize, VfsError>) -> (r: u32)
    ensures
        (r, final(sched).current()) == finish_spec(old(sched).current(), action@, result),
        final(sched).queue() == old(sched).queue(),
        final(sched).next_id == old(sched).next_id,
{
    match action {
        SyscallAction::Return(v) => *v,
        SyscallAction::Read { fd, offset, .. } | SyscallAction::Write { fd, offset, .. } => {
            match result {
                Ok(n) => {
                    if *offset > usize::MAX - n {
                        return SYSCALL_ERROR;
                    }
                    let new_offset = *offset + n;
                    if sched.current_thread.is_none() {
                        return n as u32;
                    }
                    let boxed = sched.current_thread.take().unwrap();
                    let mut thread: Thread = *boxed;
                    let ghost t0 = thread@;
                    if *fd < thread.file_descriptors.len() {
                        let slot = thread.file_descriptors[*fd].take();
                        match slot {
                            Some((node, _)) => {
                                thread.file_descriptors.set(*fd, Some((node, new_offset)));
                                proof {
                                    assert(thread@.fds =~= t0.fds.update(*fd as int, Some((t0.fds[*fd as int].unwrap().0, new_offset))));
                                }
                            },
                            None => {
                                proof {
                                    assert(thread@.fds =~= t0.fds);
                                }
                            },
                        }
                    }
                    sched.current_thread = Some(Box::new(thread));
                    n as u32
                },
                Err(_) => SYSCALL_ERROR,
            }
        },
        SyscallAction::Readdir { .. } => {
            match result {
                Ok(n) => n as u32,
                Err(_) => SYSCALL_ERROR,
            }
        },
        _ => SYSCALL_ERROR,
    }
}

/// `path` without the NUL bytes at either end.
pub open spec fn trim_nuls(path: Seq<u8>) -> Seq<u8>
    decreases path.len(),
{
    if path.len() > 0 && path[0] == 0 {
        trim_nuls(path.drop_first())
    } else if path.len() > 0 && path.last() == 0 {
        trim_nuls(path.drop_last())
    } else {
        path
    }
}

/// `i` is the first descriptor from 3 on that is closed.
pub open spec fn is_free_fd(fds: Seq<Option<(NodeView, usize)>>, i: int) -> bool {
    &&& FIRST_FILE_FD <= i < fds.len()
    &&& fds[i] is None
    &&& forall|j: int| FIRST_FILE_FD <= j < i ==> (#[trigger] fds[j]) is Some
}

/// The descriptor `open` hands out: the first closed one from 3 on, or a new
/// one at the end of the table.
pub open spec fn free_fd(fds: Seq<Option<(NodeView, usize)>>) -> int {
    if exists|i: int| is_free_fd(fds, i) {
        choose|i: int| is_free_fd(fds, i)
    } else {
        fds.len() as int
    }
}

/// What opening the path with bytes `path` returns, and the running thread
/// afterwards: the path must be UTF-8; without its NULs at either end it is
/// looked up; the node found is opened at offset 0 on the descriptor
/// `free_fd` picks.
pub open spec fn open_spec(cur: Option<ThreadView>, root: Option<NodeView>, children: Seq<NodeView>, path: Seq<u8>) -> (u32, Option<ThreadView>) {
    if !valid_utf8(path) {
        (SYSCALL_ERROR, cur)
    } else {
        match (lookup(root, children, trim_nuls(path)), cur) {
            (Ok(node), Some(t)) => {
                let fd = free_fd(t.fds);
                let fds = if fd < t.fds.len() { t.fds.update(fd, Some((node, 0usize))) } else { t.fds.push(Some((node, 0usize))) };
                (fd as u32, Some(ThreadView { fds, ..t }))
            },
            _ => (SYSCALL_ERROR, cur),
        }
    }
}

proof fn lemma_trim_nuls(path: Seq<u8>, a: int, b: int)
    requires
        0 <= a <= b <= path.len(),
        forall|j: int| 0 <= j < a ==> path[j] == 0,
        forall|j: int| b <= j < path.len() ==> path[j] == 0,
        a < b ==> path[a] != 0 && path[b - 1] != 0,
        a == b ==> a == path.len(),
    ensures
        trim_nuls(path) == path.subrange(a, b),
    decreases path.len(),
{
    if path.len() > 0 && path[0] == 0 {
        let rest = path.drop_first();
        if a == 0 {
            assert(a < b);
        }
        assert forall|j: int| 0 <= j < a - 1 implies rest[j] == 0 by {
            assert(rest[j] == path[j + 1]);
        }
        assert forall|j: int| b - 1 <= j < rest.len() implies rest[j] == 0 by {
            assert(rest[j] == path[j + 1]);
        }
        lemma_trim_nuls(rest, a - 1, b - 1);
        assert(rest.subrange(a - 1, b - 1) =~= path.subrange(a, b));
    } else if path.len() > 0 && path.last() == 0 {
        let rest = path.drop_last();
        if b == path.len() {
            assert(a < b);
        }
        lemma_trim_nuls(rest, a, b);
        assert(rest.subrange(a, b) =~= path.subrange(a, b));
    } else {
        if path.len() > 0 {
            assert(a == 0 && b == path.len());
        }
        assert(path.subrange(a, b) =~= path);
    }
}

/// Opens the path whose bytes `path` were read from user memory, for the
/// running thread, and returns the new descriptor.
pub fn sys_open(sched: &mut Scheduler, vfs: &Vfs, path: &[u8]) -> (r: u32)
    requires
        old(sched).current() matches Some(t) ==> t.fds.len() < usize::MAX,
    ensures
        (r, final(sched).current()) == open_spec(old(sched).current(), vfs.root_view(), vfs.children_view(), path@),
        final(sched).queue() == old(sched).queue(),
        final(sched).next_id == old(sched).next_id,
{
    if str_from_utf8(path).is_none() {
        return SYSCALL_ERROR;
    }
    // trim the NULs at both ends
    let mut a: usize = 0;
    while a < path.len() && path[a] == 0
        invariant
            a <= path@.len(),
            forall|j: int| 0 <= j < a ==> path@[j] == 0,
        decreases path@.len() - a,
    {
        a = a + 1;
    }
    let mut b: usize = path.len();
    while b > a && path[b - 1] == 0
        invariant
            a <= b <= path@.len(),
            a < path@.len() ==> path@[a as int] != 0,
            forall|j: int| b <= j < path@.len() ==> path@[j] == 0,
        decreases b,
    {
        b = b - 1;
    }
    proof {
        if a < b {
            assert(path@[a as int] != 0);
        }
        lemma_trim_nuls(path@, a as int, b as int);
    }
    let trimmed = vstd::slice::slice_subrange(path, a, b);
    let found = open_bytes(vfs, trimmed);
    let node = match found {
        Ok(n) => n,
        Err(_) => return SYSCALL_ERROR,
    };
    if sched.current_thread.is_none() {
        return SYSCALL_ERROR;
    }
    let boxed = sched.current_thread.take().unwrap();
    let mut thread: Thread = *boxed;
    let ghost t0 = thread@;
    let len = thread.file_descriptors.len();
    let mut i: usize = FIRST_FILE_FD;
    let mut found_fd: Option<usize> = None;
    while found_fd.is_none() && i < len
        invariant
            len == thread.file_descriptors@.len(),
            t0 == thread@,
            FIRST_FILE_FD <= i,
            found_fd matches Some(f) ==> is_free_fd(t0.fds, f as int),
            found_fd is None ==> forall|j: int| FIRST_FILE_FD <= j < i && j < len ==> (#[trigger] t0.fds[j]) is Some,
        decreases len - i, (if found_fd is None { 1int } else { 0int }),
    {
        if thread.file_descriptors[i].is_none() {
            found_fd = Some(i);
        } else {
            i = i + 1;
        }
    }
    let fd = match found_fd {
        Some(f) => {
            proof {
                let k = choose|k: int| is_free_fd(t0.fds, k);
                assert(is_free_fd(t0.fds, k));
                if k < f {
                    assert(t0.fds[k] is Some);
                } else if k > f {
                    assert(t0.fds[f as int] is Some);
                }
                assert(free_fd(t0.fds) == f);
            }
            let ghost nv = node@;
            thread.file_descriptors.set(f, Some((node, 0)));
            proof {
                assert(thread@.fds =~= t0.fds.update(f as int, Some((nv, 0usize))));
            }
            f
        },
        None => {
            proof {
                if exists|k: int| is_free_fd(t0.fds, k) {
                    let k = choose|k: int| is_free_fd(t0.fds, k);
                    assert(t0.fds[k] is Some);
                }
            }
            let f = thread.file_descriptors.len();
            let ghost nv = node@;
            thread.file_descriptors.push(Some((node, 0)));
            proof {
                assert(thread@.fds =~= t0.fds.push(Some((nv, 0usize))));
            }
            f
        },
    };
    sched.current_thread = Some(Box::new(thread));
    fd as u32
}

/// A read that delivered `n` bytes moves its descriptor on by `n`: it
/// returns `n`, and the next read of the same descriptor starts where this one
/// stopped.
pub proof fn lemma_read_advances(cur: Option<ThreadView>, fd: u32, buf: u32, len: u32, next_buf: u32, next_len: u32, n: usize)
    requires
        user_range(buf as int, len as int),
        user_range(next_buf as int, next_len as int),
        open_file(cur, fd as int) is Some,
        open_file(cur, fd as int).unwrap().1 + n <= usize::MAX,
    ensures
        ({
            let (r, after) = finish_spec(begin_thread_spec(cur, 3, fd), begin_spec(cur, 3, fd, buf, len), Ok(n));
            &&& r == n as u32
            &&& begin_spec(after, 3, fd, next_buf, next_len) == (ActionView::Read {
                fd: fd as usize,
                node: open_file(cur, fd as int).unwrap().0,
                offset: (open_file(cur, fd as int).unwrap().1 + n) as usize,
                buf: next_buf,
                len: next_len,
            })
        }),
{
}

/// Writing to any open descriptor of the running thread, the standard streams
/// included, with a buffer in user memory asks for a write of exactly that
/// buffer to the descriptor's node at its offset; once the write delivered
/// `n` bytes the call returns `n` and the descriptor's offset has moved on by
/// `n`, everything else about the thread unchanged.
pub proof fn lemma_write_reaches_open_descriptor(t: ThreadView, fd: u32, buf: u32, len: u32, n: usize)
    requires
        (fd as int) < t.fds.len(),
        t.fds[fd as int] is Some,
        user_range(buf as int, len as int),
        t.fds[fd as int].unwrap().1 + n <= usize::MAX,
    ensures
        ({
            let (node, offset) = t.fds[fd as int].unwrap();
            &&& begin_spec(Some(t), 4, fd, buf, len)
                == (ActionView::Write { fd: fd as usize, node, offset, buf, len })
            &&& begin_thread_spec(Some(t), 4, fd) == Some(t)
            &&& finish_spec(Some(t), begin_spec(Some(t), 4, fd, buf, len), Ok(n)) == (n as u32,
                Some(ThreadView { fds: t.fds.update(fd as int, Some((node, (offset + n) as usize))), ..t }))
        }),
{
}

/// Reading from any open descriptor of the running thread, the standard
/// streams included, with a buffer in user memory asks for a read into exactly
/// that buffer from the descriptor's node at its offset.
pub proof fn lemma_read_reaches_open_descriptor(t: ThreadView, fd: u32, buf: u32, len: u32)
    requires
        (fd as int) < t.fds.len(),
        t.fds[fd as int] is Some,
        user_range(buf as int, len as int),
    ensures
        ({
            let (node, offset) = t.fds[fd as int].unwrap();
            begin_spec(Some(t), 3, fd, buf, len) == (ActionView::Read { fd: fd as usize, node, offset, buf, len })
        }),
{
}

/// Closing the descriptor that a successful open handed out succeeds and
/// empties it.
pub proof fn lemma_open_then_close(cur: Option<ThreadView>, root: Option<NodeView>, children: Seq<NodeView>, path: Seq<u8>)
    requires
        open_spec(cur, root, children, path).0 != SYSCALL_ERROR,
        cur matches Some(th) ==> th.fds.len() < u32::MAX,
    ensures
        ({
            let (fd, t) = open_spec(cur, root, children, path);
            &&& begin_spec(t, 7, fd, 0, 0) == ActionView::Return(0)
            &&& begin_thread_spec(t, 7, fd) matches Some(after) && after.fds[fd as int] is None
        }),
{
    let (fd, t) = open_spec(cur, root, children, path);
    let th = cur.unwrap();
    let f = free_fd(th.fds);
    if exists|i: int| is_free_fd(th.fds, i) {
        let i = choose|i: int| is_free_fd(th.fds, i);
        assert(is_free_fd(th.fds, i));
    }
    assert(fd as int == f);
    assert(open_file(t, fd as int) is Some);
}

} // verus!

use omu_os::drivers::fs::char_adapter::{store_read, CharDeviceAdapter};
use omu_os::drivers::traits::CharDevice;
use omu_os::fs::types::{FileType, VfsError, VfsNode};
use omu_os::fs::vfs_core::{init_root, mount, OpsTable, Vfs};
use omu_os::kernel::syscall::{sys_open, syscall_begin, syscall_finish, Syscall, SyscallAction, SYSCALL_ERROR};
use omu_os::kernel::task::{init, init_stdio, spawn, yield_task};
use omu_os::kernel::types::{Scheduler, Thread, ThreadState};
use omu_os::mm::types::MemoryFrameAllocator;
use std::cell::RefCell;

fn file(name: &str, size: usize) -> VfsNode {
    VfsNode { name: name.to_string(), size, file_type: FileType::File, data_ptr: 0x1000, ops_index: 1 }
}

fn booted() -> Scheduler {
    let mut s = Scheduler::new();
    init(&mut s);
    s
}

fn vfs_with(names: &[&str]) -> Vfs {
    let mut vfs = Vfs::new();
    init_root(&mut vfs);
    for n in names {
        mount(&mut vfs, file(n, 7));
    }
    vfs
}

fn fds(s: &Scheduler) -> Vec<Option<(String, usize)>> {
    s.current_thread
        .as_ref()
        .unwrap()
        .file_descriptors
        .iter()
        .map(|e| e.as_ref().map(|(n, o)| (n.name.clone(), *o)))
        .collect()
}

#[test]
fn syscall_numbers_decode() {
    assert_eq!(Syscall::from_u32(1), Some(Syscall::Exit));
    assert_eq!(Syscall::from_u32(3), Some(Syscall::Read));
    assert_eq!(Syscall::from_u32(4), Some(Syscall::Write));
    assert_eq!(Syscall::from_u32(5), Some(Syscall::Open));
    assert_eq!(Syscall::from_u32(6), Some(Syscall::Readdir));
    assert_eq!(Syscall::from_u32(7), Some(Syscall::Close));
    assert_eq!(Syscall::from_u32(2), None);
    assert_eq!(Syscall::from_u32(0), None);
}

#[test]
fn new_thread_reserves_three_closed_descriptors() {
    let t = Thread::new(9);
    assert_eq!(t.id, 9);
    assert_eq!(t.state, ThreadState::Ready);
    assert_eq!(t.file_descriptors.len(), 3);
    assert!(t.file_descriptors.iter().all(|e| e.is_none()));
    assert_eq!((t.stack_ptr, t.stack_end, t.stack_bottom), (0, 0, 0));
}

#[test]
fn boot_thread_runs_first() {
    let s = booted();
    let t = s.current_thread.as_ref().unwrap();
    assert_eq!((t.id, t.state), (0, ThreadState::Running));
    assert_eq!(s.next_id, 1);
    assert!(s.ready_queue.is_empty());
}

#[test]
fn stdio_opens_descriptors_zero_and_one() {
    let mut s = booted();
    let mut table: OpsTable<u8> = OpsTable::new();
    init_stdio(&mut s, &mut table, 7);
    assert_eq!(fds(&s), vec![Some(("stdin".to_string(), 0)), Some(("stdout".to_string(), 0)), None]);
    let t = s.current_thread.as_ref().unwrap();
    assert_eq!(t.file_descriptors[0].as_ref().unwrap().0.ops_index, 0);
    let mut none = Scheduler::new();
    init_stdio(&mut none, &mut table, 8);
    assert!(none.current_thread.is_none());
}

#[test]
fn spawn_queues_a_thread_with_its_stack() {
    let mut s = booted();
    let mut frames = MemoryFrameAllocator::new();
    frames.init(None);
    let (ctx_addr, ctx) = spawn(&mut s, &mut frames, 0xC0DE);
    assert_eq!(ctx.eip, 0xC0DE);
    assert_eq!((ctx.edi, ctx.esi, ctx.ebx, ctx.ebp), (0, 0, 0, 0));
    // guard frame 0x800000, stack frame 0x801000
    assert_eq!(ctx_addr, 0x80_2000 - 20);
    let t = &s.ready_queue[0];
    assert_eq!((t.id, t.stack_bottom, t.stack_end, t.stack_ptr), (1, 0x80_1000, 0x80_2000, 0x80_2000 - 20));
    assert_eq!(s.next_id, 2);
    assert_eq!(frames.allocate_frame(), Some(0x80_2000));
}

#[test]
fn releasing_a_stack_frees_stack_and_guard() {
    let mut s = booted();
    let mut frames = MemoryFrameAllocator::new();
    frames.init(None);
    spawn(&mut s, &mut frames, 0x1);
    let before = frames.bitmap.clone();
    let t = s.ready_queue.pop_front().unwrap();
    t.release_stack(&mut frames);
    assert_ne!(frames.bitmap, before);
    assert_eq!(frames.allocate_frame(), Some(0x80_0000));
    assert_eq!(frames.allocate_frame(), Some(0x80_1000));
    Thread::new(5).release_stack(&mut frames);
}

#[test]
fn spawn_puts_the_guard_page_directly_below_the_stack() {
    let mut s = booted();
    let mut frames = MemoryFrameAllocator::new();
    frames.init(None);
    // frame 0x800 free, 0x801 in use, 0x802 and 0x803 free
    frames.allocate_frame();
    frames.allocate_frame();
    frames.deallocate_frame(0x80_0000);
    assert_eq!(frames.find_free_pair(), Some(0x80_2000));
    let before = frames.bitmap.clone();
    let (ctx_addr, _) = spawn(&mut s, &mut frames, 0x7);
    assert_eq!(ctx_addr, 0x80_4000 - 20);
    let t = &s.ready_queue[0];
    assert_eq!((t.stack_bottom, t.stack_end), (0x80_3000, 0x80_4000));
    assert!(frames.is_used(0x80_2000) && frames.is_used(0x80_3000));
    assert!(!frames.is_used(0x80_0000));
    let t = s.ready_queue.pop_front().unwrap();
    t.release_stack(&mut frames);
    assert_eq!(frames.bitmap, before);
}

#[test]
fn pairs_are_taken_lowest_first() {
    let mut frames = MemoryFrameAllocator::new();
    frames.init(None);
    assert_eq!(frames.allocate_pair(), Some(0x80_0000));
    assert_eq!(frames.allocate_pair(), Some(0x80_2000));
    assert_eq!(frames.allocate_frame(), Some(0x80_4000));
    let mut full = MemoryFrameAllocator::new();
    for b in full.bitmap.iter_mut() {
        *b = 0x55;
    }
    assert_eq!(full.find_free_pair(), None);
    assert_eq!(full.allocate_pair(), None);
}

#[test]
fn yield_rotates_round_robin() {
    let mut s = booted();
    let mut frames = MemoryFrameAllocator::new();
    frames.init(None);
    spawn(&mut s, &mut frames, 0x1);
    spawn(&mut s, &mut frames, 0x2);
    let r = yield_task(&mut s);
    assert_eq!(r, Some((0x80_2000 - 20, 0x80_2000)));
    assert_eq!(s.current_thread.as_ref().unwrap().id, 1);
    assert_eq!(s.current_thread.as_ref().unwrap().state, ThreadState::Running);
    let ids: Vec<usize> = s.ready_queue.iter().map(|t| t.id).collect();
    assert_eq!(ids, vec![2, 0]);
    assert_eq!(s.ready_queue[1].state, ThreadState::Ready);
    yield_task(&mut s);
    yield_task(&mut s);
    assert_eq!(s.current_thread.as_ref().unwrap().id, 0);
}

#[test]
fn yield_with_nothing_ready_keeps_running() {
    let mut s = booted();
    assert_eq!(yield_task(&mut s), None);
    assert_eq!(s.current_thread.as_ref().unwrap().id, 0);
}

#[test]
fn open_takes_the_first_free_descriptor_from_three() {
    let mut s = booted();
    let vfs = vfs_with(&["a", "b"]);
    assert_eq!(sys_open(&mut s, &vfs, b"a"), 3);
    assert_eq!(sys_open(&mut s, &vfs, b"/b\0\0"), 4);
    assert_eq!(fds(&s)[3], Some(("a".to_string(), 0)));
    assert!(matches!(syscall_begin(&mut s, 7, 3, 0, 0), SyscallAction::Return(0)));
    assert_eq!(fds(&s)[3], None);
    assert_eq!(sys_open(&mut s, &vfs, b"\0b"), 3);
    assert_eq!(fds(&s).len(), 5);
}

#[test]
fn open_fails_on_missing_files_bad_text_and_no_thread() {
    let mut s = booted();
    let vfs = vfs_with(&["a"]);
    assert_eq!(sys_open(&mut s, &vfs, b"zzz"), SYSCALL_ERROR);
    assert_eq!(sys_open(&mut s, &vfs, &[0xFF, 0x61]), SYSCALL_ERROR);
    let mut none = Scheduler::new();
    assert_eq!(sys_open(&mut none, &vfs, b"a"), SYSCALL_ERROR);
    assert_eq!(fds(&s).len(), 3);
}

#[test]
fn open_of_the_root_path() {
    let mut s = booted();
    let vfs = vfs_with(&["a"]);
    assert_eq!(sys_open(&mut s, &vfs, b"/"), 3);
    assert_eq!(fds(&s)[3], Some(("/".to_string(), 0)));
}

#[test]
fn read_asks_for_the_file_and_advances_the_offset() {
    let mut s = booted();
    let vfs = vfs_with(&["a"]);
    let fd = sys_open(&mut s, &vfs, b"a");
    let action = syscall_begin(&mut s, 3, fd, 0x4000_0000, 16);
    match &action {
        SyscallAction::Read { fd: f, node, offset, buf, len } => {
            assert_eq!((*f, node.name.as_str(), *offset, *buf, *len), (3, "a", 0, 0x4000_0000, 16));
        }
        _ => panic!("expected a read"),
    }
    assert_eq!(syscall_finish(&mut s, &action, Ok(5)), 5);
    assert_eq!(fds(&s)[3], Some(("a".to_string(), 5)));
    let again = syscall_begin(&mut s, 3, fd, 0x4000_0000, 16);
    assert!(matches!(again, SyscallAction::Read { offset: 5, .. }));
    assert_eq!(syscall_finish(&mut s, &again, Err(VfsError::IoError)), SYSCALL_ERROR);
    assert_eq!(fds(&s)[3], Some(("a".to_string(), 5)));
}

#[test]
fn write_and_readdir_requests() {
    let mut s = booted();
    let vfs = vfs_with(&["a"]);
    let fd = sys_open(&mut s, &vfs, b"a");
    let w = syscall_begin(&mut s, 4, fd, 0x4000_1000, 3);
    assert!(matches!(w, SyscallAction::Write { fd: 3, offset: 0, len: 3, .. }));
    assert_eq!(syscall_finish(&mut s, &w, Ok(3)), 3);
    assert_eq!(fds(&s)[3], Some(("a".to_string(), 3)));
    let d = syscall_begin(&mut s, 6, fd, 0x4000_1000, 100);
    assert!(matches!(d, SyscallAction::Readdir { len: 100, .. }));
    assert_eq!(syscall_finish(&mut s, &d, Ok(14)), 14);
    assert_eq!(syscall_finish(&mut s, &d, Err(VfsError::NotADirectory)), SYSCALL_ERROR);
    assert_eq!(fds(&s)[3], Some(("a".to_string(), 3)));
}

#[test]
fn calls_with_bad_buffers_or_descriptors_fail() {
    let mut s = booted();
    assert!(matches!(syscall_begin(&mut s, 3, 0, 0x1000, 16), SyscallAction::Return(SYSCALL_ERROR)));
    assert!(matches!(syscall_begin(&mut s, 4, 0, 0x9FFF_FFF0, 0x20), SyscallAction::Return(SYSCALL_ERROR)));
    assert!(matches!(syscall_begin(&mut s, 3, 0, 0x4000_0000, 16), SyscallAction::Return(SYSCALL_ERROR)));
    assert!(matches!(syscall_begin(&mut s, 3, 99, 0x4000_0000, 16), SyscallAction::Return(SYSCALL_ERROR)));
    assert!(matches!(syscall_begin(&mut s, 6, 1, 0x4000_0000, 16), SyscallAction::Return(SYSCALL_ERROR)));
    assert!(matches!(syscall_begin(&mut s, 7, 2, 0, 0), SyscallAction::Return(SYSCALL_ERROR)));
    assert!(matches!(syscall_begin(&mut s, 7, 3, 0, 0), SyscallAction::Return(SYSCALL_ERROR)));
    assert!(matches!(syscall_begin(&mut s, 5, 0xFFFF_FFF0, 0x20, 0), SyscallAction::Return(SYSCALL_ERROR)));
    let mut none = Scheduler::new();
    assert!(matches!(syscall_begin(&mut none, 7, 0, 0, 0), SyscallAction::Return(SYSCALL_ERROR)));
}

#[test]
fn open_exit_and_unknown_calls() {
    let mut s = booted();
    assert!(matches!(syscall_begin(&mut s, 5, 0x4000_0000, 8, 0), SyscallAction::Open { path: 0x4000_0000, len: 8 }));
    assert!(matches!(syscall_begin(&mut s, 1, 42, 0, 0), SyscallAction::Exit(42)));
    let u = syscall_begin(&mut s, 99, 0, 0, 0);
    assert!(matches!(u, SyscallAction::Unknown(99)));
    assert_eq!(syscall_finish(&mut s, &u, Ok(1)), SYSCALL_ERROR);
    assert_eq!(syscall_finish(&mut s, &SyscallAction::Return(7), Ok(1)), 7);
}

struct Loopback {
    input: RefCell<Vec<u8>>,
    output: RefCell<Vec<u8>>,
}

impl CharDevice for Loopback {
    fn read(&self) -> Option<u8> {
        let mut i = self.input.borrow_mut();
        if i.is_empty() {
            None
        } else {
            Some(i.remove(0))
        }
    }

    fn write(&self, byte: u8) {
        self.output.borrow_mut().push(byte);
    }
}

#[test]
fn char_device_adapter_reads_a_byte_at_a_time() {
    let dev = Loopback { input: RefCell::new(b"hi".to_vec()), output: RefCell::new(Vec::new()) };
    let a = CharDeviceAdapter { device: dev };
    let mut buf = [0u8; 4];
    assert_eq!(a.poll_read(&mut buf), Some(1));
    assert_eq!(buf[0], b'h');
    assert_eq!(a.poll_read(&mut buf[..0]), Some(0));
    assert_eq!(a.poll_read(&mut buf), Some(1));
    assert_eq!(buf[0], b'i');
    assert_eq!(a.poll_read(&mut buf), None);
}

#[test]
fn char_device_adapter_writes_every_byte() {
    let dev = Loopback { input: RefCell::new(Vec::new()), output: RefCell::new(Vec::new()) };
    let a = CharDeviceAdapter { device: dev };
    let n = file("stdout", 0);
    assert!(matches!(a.write(&n, 0, b"ok\n"), Ok(3)));
    assert_eq!(*a.device.output.borrow(), b"ok\n".to_vec());
    let mut buf = [0u8; 2];
    assert!(matches!(a.readdir(&n, &mut buf), Err(VfsError::NotADirectory)));
}

#[test]
fn a_read_byte_is_stored_in_front() {
    let mut buf = [7u8, 8, 9];
    assert_eq!(store_read(&mut buf, Some(0x41)), Some(1));
    assert_eq!(buf, [0x41, 8, 9]);
    assert_eq!(store_read(&mut buf, None), None);
    assert_eq!(buf, [0x41, 8, 9]);
}

//! Creating threads and switching between them.
use vstd::prelude::*;
use vstd::string::StringExecFns;
use crate::arch::types::TaskContext;
use crate::fs::types::{FileType, NodeView, VfsNode};
use crate::fs::vfs_core::{OpsTable, register_ops};
use crate::kernel::types::{Scheduler, Thread, ThreadState, ThreadView, boxed_view};
use crate::mm::memory::{mark_used, mark_free, pair_free, is_first_free_pair, FRAME_SIZE, TOTAL_FRAMES};
use crate::mm::types::MemoryFrameAllocator;

verus! {

/// Bytes the saved context takes at the top of a new thread's stack.
pub const TASK_CONTEXT_SIZE: u32 = 20;

/// The boot thread as the scheduler first runs it.
pub open spec fn boot_thread() -> ThreadView {
    ThreadView { id: 0, stack_ptr: 0, stack_end: 0, stack_bottom: 0, state: ThreadState::Running, fds: seq![None, None, None] }
}

/// Makes the boot thread, id 0, the running thread.
pub fn init(sched: &mut Scheduler)
    ensures
        final(sched).current() == Some(boot_thread()),
        final(sched).queue() == old(sched).queue(),
        final(sched).next_id == old(sched).next_id,
{
    let mut main_thread = Thread::new(0);
    main_thread.state = ThreadState::Running;
    sched.current_thread = Some(Box::new(main_thread));
}

/// A standard stream node named `name` served by the operations at `ops_index`.
pub open spec fn stream_node(name: Seq<char>, ops_index: usize) -> NodeView {
    NodeView { name, size: 0, file_type: FileType::File, data_ptr: 0, ops_index }
}

/// Registers `ops` as the console's operations and opens standard input
/// (descriptor 0) and standard output (descriptor 1) on it for the running
/// thread, at offset 0.  Without a running thread nothing happens.
pub fn init_stdio<T>(sched: &mut Scheduler, table: &mut OpsTable<T>, ops: T)
    requires
        old(table)@.len() < usize::MAX,
        old(sched).current() matches Some(t) ==> t.fds.len() >= 2,
    ensures
        final(sched).queue() == old(sched).queue(),
        final(sched).next_id == old(sched).next_id,
        match old(sched).current() {
            None => final(sched).current() is None && final(table)@ == old(table)@,
            Some(t) => {
                let i = old(table)@.len() as usize;
                &&& final(table)@ == old(table)@.push(ops)
                &&& final(sched).current() == Some(ThreadView {
                    fds: t.fds.update(0, Some((stream_node(seq!['s', 't', 'd', 'i', 'n'], i), 0usize)))
                              .update(1, Some((stream_node(seq!['s', 't', 'd', 'o', 'u', 't'], i), 0usize))),
                    ..t
                })
            },
        },
{
    if sched.current_thread.is_none() {
        return;
    }
    let boxed = sched.current_thread.take().unwrap();
    let mut main_thread: Thread = *boxed;
    let ghost t0 = main_thread@;
    let ops_index = register_ops(table, ops);
    proof {
        reveal_strlit("stdin");
        reveal_strlit("stdout");
    }
    let stdin_node = VfsNode {
        name: String::from_str("stdin"),
        size: 0,
        file_type: FileType::File,
        data_ptr: 0,
        ops_index,
    };
    let stdout_node = VfsNode {
        name: String::from_str("stdout"),
        size: 0,
        file_type: FileType::File,
        data_ptr: 0,
        ops_index,
    };
    proof {
        assert(stdin_node.name@ =~= seq!['s', 't', 'd', 'i', 'n']);
        assert(stdout_node.name@ =~= seq!['s', 't', 'd', 'o', 'u', 't']);
        assert(stdin_node@ == stream_node(seq!['s', 't', 'd', 'i', 'n'], ops_index));
        assert(stdout_node@ == stream_node(seq!['s', 't', 'd', 'o', 'u', 't'], ops_index));
    }
    main_thread.file_descriptors.set(0, Some((stdin_node, 0)));
    main_thread.file_descriptors.set(1, Some((stdout_node, 0)));
    proof {
        assert(main_thread@.fds =~= t0.fds.update(0, Some((stdin_node@, 0usize))).update(1, Some((stdout_node@, 0usize))));
    }
    sched.current_thread = Some(Box::new(main_thread));
}

/// The thread `spawn` queues: id `id`, its stack in the frame at `stack`,
/// the saved context at the top of that stack.
pub open spec fn spawned_thread(id: usize, stack: u32) -> ThreadView {
    ThreadView {
        id,
        stack_ptr: (stack + FRAME_SIZE - TASK_CONTEXT_SIZE) as u32,
        stack_end: (stack + FRAME_SIZE) as u32,
        stack_bottom: stack,
        state: ThreadState::Ready,
        fds: seq![None, None, None],
    }
}

/// Creates a thread that starts at `entry_point` and queues it to run.  Its
/// stack is two pages: the lowest two neighbouring free frames are taken, the
/// lower one left as a guard page and the one directly above it holding the
/// stack.  Returns the address at the top of the stack where the thread's
/// initial context must be stored, and that context.
pub fn spawn(sched: &mut Scheduler, frames: &mut MemoryFrameAllocator, entry_point: u32) -> (r: (u32, TaskContext))
    requires
        old(frames).wf(),
        old(sched).next_id < usize::MAX,
        exists|g: int| g + 2 < TOTAL_FRAMES && #[trigger] pair_free(old(frames)@, g),
    ensures
        final(frames).wf(),
        exists|guard: int| {
            &&& is_first_free_pair(old(frames)@, guard)
            &&& final(frames)@ == mark_used(mark_used(old(frames)@, guard), guard + 1)
            &&& final(sched).queue() == old(sched).queue().push(spawned_thread(old(sched).next_id, ((guard + 1) * FRAME_SIZE) as u32))
            &&& r.0 == ((guard + 1) * FRAME_SIZE + FRAME_SIZE - TASK_CONTEXT_SIZE) as u32
        },
        r.1 == (TaskContext { edi: 0, esi: 0, ebx: 0, ebp: 0, eip: entry_point }),
        final(sched).current() == old(sched).current(),
        final(sched).next_id == old(sched).next_id + 1,
{
    let ghost bm0 = frames@;
    let id = sched.next_id;
    sched.next_id = sched.next_id + 1;
    let mut thread = Thread::new(id);
    // the guard page and, directly above it, the stack page
    let pair = frames.allocate_pair();
    let guard_frame = match pair {
        Some(a) => a,
        None => {
            proof {
                let g = choose|g: int| g + 2 < TOTAL_FRAMES && #[trigger] pair_free(bm0, g);
                assert(!pair_free(bm0, g));
            }
            return (0, TaskContext { edi: 0, esi: 0, ebx: 0, ebp: 0, eip: entry_point });
        },
    };
    let ghost g = guard_frame as int / FRAME_SIZE as int;
    proof {
        // the lowest neighbouring free pair lies no higher than the one the
        // caller knows of, so the stack frame's end fits in 32 bits
        let h = choose|h: int| h + 2 < TOTAL_FRAMES && #[trigger] pair_free(bm0, h);
        if g > h {
            assert(!pair_free(bm0, h));
        }
        assert(guard_frame == g * 4096) by (nonlinear_arith)
            requires guard_frame % 4096 == 0, g == guard_frame as int / 4096;
    }
    let stack_frame = guard_frame + FRAME_SIZE;
    let stack_end = stack_frame + FRAME_SIZE;
    let aligned_stack_end = stack_end & !3u32;
    proof {
        assert(stack_end % 4096 == 0) by (nonlinear_arith)
            requires stack_end == guard_frame + 8192, guard_frame % 4096 == 0;
        assert(aligned_stack_end == stack_end) by (bit_vector)
            requires stack_end % 4096 == 0, aligned_stack_end == stack_end & !3u32;
    }
    let context_ptr = aligned_stack_end - TASK_CONTEXT_SIZE;
    thread.stack_ptr = context_ptr;
    thread.stack_end = stack_end;
    thread.stack_bottom = stack_frame;
    let ghost tv = thread@;
    sched.ready_queue.push_back(Box::new(thread));
    proof {
        assert(tv == spawned_thread(id, ((g + 1) * FRAME_SIZE) as u32));
        assert(sched.queue() =~= old(sched).queue().push(tv));
    }
    (context_ptr, TaskContext { edi: 0, esi: 0, ebx: 0, ebp: 0, eip: entry_point })
}

/// The frames a spawned thread holds are exactly the two `spawn` took: the
/// guard page sits directly below its stack page, and giving both back
/// restores the frame bitmap as it was before the spawn.
pub proof fn lemma_spawn_then_release(bm: Seq<u8>, guard: int, id: usize)
    requires
        bm.len() == crate::mm::types::BITMAP_BYTES,
        pair_free(bm, guard),
        guard + 2 < TOTAL_FRAMES,
    ensures
        ({
            let t = spawned_thread(id, ((guard + 1) * FRAME_SIZE) as u32);
            &&& t.stack_bottom as int / FRAME_SIZE as int == guard + 1
            &&& (t.stack_bottom - FRAME_SIZE) as int / FRAME_SIZE as int == guard
            &&& mark_free(mark_free(mark_used(mark_used(bm, guard), guard + 1), t.stack_bottom as int / FRAME_SIZE as int),
                    (t.stack_bottom - FRAME_SIZE) as int / FRAME_SIZE as int) == bm
        }),
{
    let s = ((guard + 1) * FRAME_SIZE) as u32;
    assert(s as int == (guard + 1) * 4096);
    assert(s as int / 4096 == guard + 1) by (nonlinear_arith) requires s as int == (guard + 1) * 4096;
    assert((s - 4096) as int / 4096 == guard) by (nonlinear_arith) requires s as int == (guard + 1) * 4096, guard >= 0;
    crate::mm::memory::lemma_mark_used(bm, guard);
    crate::mm::memory::lemma_use_then_free_restores(mark_used(bm, guard), guard + 1);
    crate::mm::memory::lemma_use_then_free_restores(bm, guard);
}

/// Switches to the next ready thread, round robin: the running thread goes to
/// the back of the ready queue and the thread at its front runs.  Returns the
/// new thread's saved stack pointer and the top of its stack (the ring-0 stack
/// for interrupts), or `None` when no other thread is ready.
pub fn yield_task(sched: &mut Scheduler) -> (r: Option<(u32, u32)>)
    requires
        old(sched).queue().len() > 0 ==> old(sched).current() is Some,
    ensures
        final(sched).next_id == old(sched).next_id,
        old(sched).queue().len() == 0 ==> r is None && final(sched).queue() == old(sched).queue()
            && final(sched).current() == old(sched).current(),
        old(sched).queue().len() > 0 ==> {
            let next = old(sched).queue()[0];
            let cur = old(sched).current().unwrap();
            &&& r == Some((next.stack_ptr, next.stack_end))
            &&& final(sched).current() == Some(ThreadView { state: ThreadState::Running, ..next })
            &&& final(sched).queue() == old(sched).queue().drop_first().push(ThreadView { state: ThreadState::Ready, ..cur })
        },
{
    if sched.ready_queue.len() == 0 {
        return None;
    }
    let ghost q0 = sched.ready_queue@;
    let boxed_current = sched.current_thread.take().unwrap();
    let mut current: Thread = *boxed_current;
    current.state = ThreadState::Ready;
    let boxed_next = sched.ready_queue.pop_front().unwrap();
    let mut next: Thread = *boxed_next;
    next.state = ThreadState::Running;
    let new_esp = next.stack_ptr;
    let new_esp0 = next.stack_end;
    let ghost cur_v = current@;
    sched.ready_queue.push_back(Box::new(current));
    sched.current_thread = Some(Box::new(next));
    proof {
        assert(sched.ready_queue@ == q0.subrange(1, q0.len() as int).push(Box::new(current)));
        assert(sched.queue() =~= old(sched).queue().drop_first().push(cur_v));
    }
    Some((new_esp, new_esp0))
}

} // verus!

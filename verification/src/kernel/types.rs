//! Threads and the scheduler's state.
use vstd::prelude::*;
use std::collections::VecDeque;
use crate::fs::types::{NodeView, VfsNode};
use crate::mm::memory::{mark_free, FRAME_SIZE};
use crate::mm::types::MemoryFrameAllocator;

verus! {

/// Where a thread is in its life.
#[derive(Clone, Copy, Debug, PartialEq, Eq, Structural)]
pub enum ThreadState {
    Ready,
    Running,
    Exited,
}

/// A kernel thread: its saved stack pointer, the top and bottom of its stack,
/// its state, and its open files, each with the offset reached in it.
pub struct Thread {
    pub id: usize,
    pub stack_ptr: u32,
    pub stack_end: u32,
    pub stack_bottom: u32,
    pub state: ThreadState,
    pub file_descriptors: Vec<Option<(VfsNode, usize)>>,
}

/// The mathematical value of a thread.
pub ghost struct ThreadView {
    pub id: usize,
    pub stack_ptr: u32,
    pub stack_end: u32,
    pub stack_bottom: u32,
    pub state: ThreadState,
    pub fds: Seq<Option<(NodeView, usize)>>,
}

/// The value of one file-descriptor slot.
pub open spec fn fd_view(e: Option<(VfsNode, usize)>) -> Option<(NodeView, usize)> {
    match e {
        Some((n, o)) => Some((n@, o)),
        None => None,
    }
}

/// The scheduler: threads ready to run, in turn order, the running thread,
/// and the next thread id to hand out.
pub struct Scheduler {
    pub ready_queue: VecDeque<Box<Thread>>,
    pub current_thread: Option<Box<Thread>>,
    pub next_id: usize,
}

impl Thread {
    pub open spec fn view(&self) -> ThreadView {
        ThreadView {
            id: self.id,
            stack_ptr: self.stack_ptr,
            stack_end: self.stack_end,
            stack_bottom: self.stack_bottom,
            state: self.state,
            fds: self.file_descriptors@.map_values(|e: Option<(VfsNode, usize)>| fd_view(e)),
        }
    }

    /// A ready thread with no stack yet and the three standard descriptors
    /// (input, output, error) reserved but closed.
    pub fn new(id: usize) -> (t: Self)
        ensures
            t@ == (ThreadView {
                id,
                stack_ptr: 0,
                stack_end: 0,
                stack_bottom: 0,
                state: ThreadState::Ready,
                fds: seq![None, None, None],
            }),
    {
        let mut fds: Vec<Option<(VfsNode, usize)>> = Vec::new();
        fds.push(None);
        fds.push(None);
        fds.push(None);
        let t = Thread { id, stack_ptr: 0, stack_end: 0, stack_bottom: 0, state: ThreadState::Ready, file_descriptors: fds };
        proof {
            assert(t@.fds =~= seq![None, None, None]);
        }
        t
    }

    /// Gives the thread's stack frame, and the guard frame below it, back to
    /// the frame allocator; a thread without a stack owns no frame.
    pub fn release_stack(&self, frames: &mut MemoryFrameAllocator)
        requires
            old(frames).wf(),
            self.stack_bottom == 0 || self.stack_bottom >= FRAME_SIZE,
        ensures
            final(frames).wf(),
            final(frames)@ == (if self.stack_bottom != 0 {
                mark_free(mark_free(old(frames)@, self.stack_bottom as int / FRAME_SIZE as int),
                    (self.stack_bottom - FRAME_SIZE) as int / FRAME_SIZE as int)
            } else {
                old(frames)@
            }),
    {
        if self.stack_bottom != 0 {
            frames.deallocate_frame(self.stack_bottom);
            frames.deallocate_frame(self.stack_bottom - FRAME_SIZE);
        }
    }
}

/// The value of a boxed thread.
pub open spec fn boxed_view(t: Box<Thread>) -> ThreadView {
    (*t)@
}

impl Scheduler {
    /// The ready threads, in turn order.
    pub open spec fn queue(&self) -> Seq<ThreadView> {
        self.ready_queue@.map_values(|t: Box<Thread>| boxed_view(t))
    }

    /// The running thread, if any.
    pub open spec fn current(&self) -> Option<ThreadView> {
        match self.current_thread {
            Some(t) => Some((*t)@),
            None => None,
        }
    }

    /// No thread yet; the first thread spawned gets id 1, id 0 being the
    /// boot thread's.
    pub fn new() -> (s: Self)
        ensures
            s.queue() == Seq::<ThreadView>::empty(),
            s.current() is None,
            s.next_id == 1,
    {
        let s = Scheduler { ready_queue: VecDeque::new(), current_thread: None, next_id: 1 };
        proof {
            assert(s.queue() =~= Seq::<ThreadView>::empty());
        }
        s
    }
}

} // verus!

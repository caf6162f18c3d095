//! The deferred-task queue.
//!
//! A block's own update runs while the caller already holds a reference into
//! the world, so instead of mutating neighbors on the spot, update logic
//! enqueues a task naming what to do and where. The driver drains the whole
//! queue once per tick and runs each task with exclusive access to the world,
//! in the order scheduled.

use vstd::prelude::*;
use crate::world::ChunkBlockMetadata;

verus! {

/// Which world-update routine a task runs.
#[derive(Clone, Copy, Debug, PartialEq, Eq, Structural)]
pub enum BlockUpdateFn {
    ExtractorUpdate,
    ConveyorUpdate,
    SplitterDetermineDirection,
    SplitterDispatch,
    TunnelUpdate,
    TunnelReverseOrientation,
}

/// One deferred task: a world-mutating block update at a position, or a
/// harmless no-op (appended each tick so a driver can detect that the tick
/// ran).
#[derive(Clone, Copy, Debug, PartialEq, Eq, Structural)]
pub enum Task {
    WorldUpdateBlock(BlockUpdateFn, ChunkBlockMetadata),
    Noop,
}

/// The FIFO task queue, drained whole once per tick.
pub struct TaskQueue {
    tasks: Vec<Task>,
}

impl View for TaskQueue {
    type V = Seq<Task>;

    closed spec fn view(&self) -> Seq<Task> {
        self.tasks@
    }
}

impl TaskQueue {
    pub fn new() -> (r: Self)
        ensures
            r@ == Seq::<Task>::empty(),
    {
        let r = TaskQueue { tasks: Vec::new() };
        proof {
            assert(r@ =~= Seq::<Task>::empty());
        }
        r
    }

    pub fn len(&self) -> (r: usize)
        ensures
            r == self@.len(),
    {
        self.tasks.len()
    }

    /// Enqueue one task at the back.
    pub fn schedule_task(&mut self, task: Task)
        ensures
            final(self)@ == old(self)@.push(task),
    {
        self.tasks.push(task);
    }

    /// Take every pending task, in the order scheduled, leaving the queue
    /// empty.
    pub fn get_tasks(&mut self) -> (r: Vec<Task>)
        ensures
            r@ == old(self)@,
            final(self)@ == Seq::<Task>::empty(),
    {
        let mut out: Vec<Task> = Vec::new();
        core::mem::swap(&mut self.tasks, &mut out);
        proof {
            assert(self@ =~= Seq::<Task>::empty());
        }
        out
    }
}

} // verus!

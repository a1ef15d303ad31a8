//! What the kernel keeps of a task while it is not running.

use vstd::prelude::*;

verus! {

/// Life cycle of a task slot. `Exited` is final.
#[derive(Clone, Copy, Debug, PartialEq, Eq, Structural)]
pub enum TaskStatus {
    UnInit,
    Ready,
    Running,
    Exited,
}

impl Default for TaskStatus {
    fn default() -> (status: Self)
        ensures
            status == TaskStatus::UnInit,
    {
        TaskStatus::UnInit
    }
}

/// Kernel registers that survive a context switch: the return address, the
/// stack pointer and the twelve callee-saved registers.
#[derive(Clone, Copy, Debug)]
pub struct TaskContext {
    pub ra: usize,
    pub sp: usize,
    pub s0_11: [usize; 12],
}

impl TaskContext {
    /// Context of a task that has never run.
    pub open spec fn zeroed() -> TaskContext {
        TaskContext::resuming_at(0, 0)
    }

    /// Context that resumes at address `ra` on the stack `sp`, with all
    /// callee-saved registers zero.
    pub open spec fn resuming_at(ra: usize, sp: usize) -> TaskContext {
        TaskContext { ra, sp, s0_11: zero_registers() }
    }

    /// Builds the context that resumes at address `ra` on the stack `sp`.
    pub fn goto(ra: usize, sp: usize) -> (cx: Self)
        ensures
            cx == TaskContext::resuming_at(ra, sp),
    {
        TaskContext { ra, sp, s0_11: [0usize; 12] }
    }
}

/// Twelve registers that all hold zero.
pub open spec fn zero_registers() -> [usize; 12] {
    vstd::array::spec_array_fill_for_copy_type::<usize, 12>(0usize)
}

impl Default for TaskContext {
    fn default() -> (cx: Self)
        ensures
            cx == TaskContext::zeroed(),
    {
        TaskContext::goto(0, 0)
    }
}

/// One task slot: its status and its saved kernel context.
#[derive(Clone, Copy, Debug)]
pub struct TaskControlBlock {
    pub status: TaskStatus,
    pub cx: TaskContext,
}

impl TaskControlBlock {
    /// The slot with another status and the same context.
    pub open spec fn with_status(self, status: TaskStatus) -> TaskControlBlock {
        TaskControlBlock { status, ..self }
    }

    /// An unused slot.
    pub open spec fn unused() -> TaskControlBlock {
        TaskControlBlock { status: TaskStatus::UnInit, cx: TaskContext::zeroed() }
    }
}

impl Default for TaskControlBlock {
    fn default() -> (tcb: Self)
        ensures
            tcb == TaskControlBlock::unused(),
    {
        TaskControlBlock { status: TaskStatus::UnInit, cx: TaskContext::goto(0, 0) }
    }
}

} // verus!

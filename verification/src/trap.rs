//! What the kernel does with a trap, as far as the task manager decides it.

use vstd::prelude::*;
use crate::model::{Dispatch, ManagerView, SchedEvent};
use crate::task::{exit_and_run_next, record_syscall, run_next_task, TaskManager};

verus! {

/// Why the running task has trapped into the kernel.
#[derive(Clone, Copy, Debug, PartialEq, Eq, Structural)]
pub enum TrapCause {
    /// It asks for the system call with this number.
    Syscall(usize),
    /// Its time slice is over.
    Timer,
    /// It has done something that cannot be recovered from.
    Fault,
}

/// What the kernel has to do to leave the trap.
#[derive(Clone, Copy, Debug, PartialEq, Eq, Structural)]
pub enum TrapAction {
    /// Carry out the system call with this number, store its result,
    /// step over the calling instruction and return to the same task.
    Serve(usize),
    /// Carry out the scheduling decision.
    Reschedule(Dispatch),
}

impl TrapCause {
    /// The event that a trap for this cause at time `now` is.
    pub open spec fn event(self, now: nat) -> SchedEvent {
        match self {
            TrapCause::Syscall(syscall) => SchedEvent::Syscall(syscall as nat),
            TrapCause::Timer => SchedEvent::Tick(now),
            TrapCause::Fault => SchedEvent::Exit(now),
        }
    }
}

impl ManagerView {
    /// What leaves a trap for `cause` taken in this state at time `now`.
    pub open spec fn trap_action(self, cause: TrapCause, now: nat, clock_freq: nat) -> TrapAction {
        match cause {
            TrapCause::Syscall(syscall) => TrapAction::Serve(syscall),
            TrapCause::Timer => TrapAction::Reschedule(self.dispatch(now, clock_freq)),
            TrapCause::Fault => TrapAction::Reschedule(self.exited().dispatch(now, clock_freq)),
        }
    }
}

/// Handles a trap taken at time `now`: a system call is counted and left to
/// be served, a timer tick makes the next task run, and a fault ends the
/// current task and makes the next one run.
pub fn handle_trap(task_mgr: &mut TaskManager, cause: TrapCause, now: usize, clock_freq: usize)
    -> (action: TrapAction)
    requires
        old(task_mgr)@.wf(),
        old(task_mgr)@.admits(cause.event(now as nat), clock_freq as nat),
    ensures
        final(task_mgr)@ == old(task_mgr)@.step(cause.event(now as nat)),
        final(task_mgr)@.wf(),
        action == old(task_mgr)@.trap_action(cause, now as nat, clock_freq as nat),
{
    match cause {
        TrapCause::Syscall(syscall) => {
            record_syscall(task_mgr, syscall);
            TrapAction::Serve(syscall)
        },
        TrapCause::Timer => TrapAction::Reschedule(run_next_task(task_mgr, now, clock_freq)),
        TrapCause::Fault => TrapAction::Reschedule(exit_and_run_next(task_mgr, now, clock_freq)),
    }
}

} // verus!

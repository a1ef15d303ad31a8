//! Mathematical model of the task manager and of its transitions.

use vstd::prelude::*;
use crate::config::{
    APP_BASE_ADDR, MAX_APP_SIZE, MAX_SYSCALL_NUM, MAX_TASK_NUM, TICKS_PER_SEC,
};
use crate::context::{TaskContext, TaskControlBlock, TaskStatus};
use crate::stat::StatView;

verus! {

/// Where an image lies in the linked-in blob and where it has to be copied.
#[derive(Clone, Copy, Debug, PartialEq, Eq, Structural)]
pub struct ImageLoad {
    /// Address of the first byte of the image.
    pub src: usize,
    /// Address the image is copied to.
    pub dst: usize,
    /// Number of bytes.
    pub len: usize,
}

/// What the kernel has to do after a scheduling decision.
#[derive(Clone, Copy, Debug, PartialEq, Eq, Structural)]
pub enum Dispatch {
    /// Enter task `to` for the first time, from a context that is thrown
    /// away, after programming the timer for `deadline`.
    Start { to: usize, deadline: usize },
    /// Save the kernel context into slot `from` and resume slot `to`, after
    /// programming the timer for `deadline`.
    Switch { from: usize, to: usize, deadline: usize },
    /// No task is left to run: report completion and power off.
    Shutdown,
}

/// Outcome of looking for the next task.
#[derive(Clone, Copy, Debug, PartialEq, Eq, Structural)]
pub enum Decision {
    /// The task in this slot runs next.
    Run(usize),
    /// No task is left to run: report completion and power off.
    Shutdown,
}

/// Why the task manager cannot be set up.
#[derive(Clone, Copy, Debug, PartialEq, Eq, Structural)]
pub enum BootError {
    /// The image table has no entry at all, not even the end marker.
    EmptyTable,
    /// The image table names more tasks than there are slots.
    TooManyTasks,
}

/// Address at which the image of task `task_id` is placed.
pub open spec fn task_base(task_id: nat) -> nat {
    APP_BASE_ADDR as nat + task_id * MAX_APP_SIZE as nat
}

/// Timer deadline one quantum after `now`, on a clock with `clock_freq`
/// ticks per second.
pub open spec fn next_trigger(now: nat, clock_freq: nat) -> nat {
    now + clock_freq / TICKS_PER_SEC as nat
}

/// Something that makes the task manager act.
pub enum SchedEvent {
    /// The timer fires at the given time.
    Tick(nat),
    /// The current task ends, by its own wish or by a fault, at the given
    /// time.
    Exit(nat),
    /// The current task invokes the system call with the given number.
    Syscall(nat),
}

/// The state of the task manager.
pub struct ManagerView {
    /// Start addresses of the images, followed by the end of the last one.
    pub app_starts: Seq<usize>,
    /// Number of tasks.
    pub num_app: nat,
    /// Slot of the task that runs, or ran last.
    pub current_task: nat,
    /// Status and saved context of every slot.
    pub tcbs: Seq<TaskControlBlock>,
    /// Statistics of every slot.
    pub stats: Seq<StatView>,
}

impl ManagerView {
    /// Status of slot `task`.
    pub open spec fn status(self, task: int) -> TaskStatus {
        self.tcbs[task].status
    }

    /// The invariant of the manager: all slots exist, the table has one
    /// entry per task and one for the end, the current slot is a task's,
    /// slots beyond the tasks are untouched, and only the current task can
    /// be running.
    pub open spec fn wf(self) -> bool {
        &&& self.tcbs.len() == MAX_TASK_NUM
        &&& self.stats.len() == MAX_TASK_NUM
        &&& self.num_app <= MAX_TASK_NUM
        &&& self.app_starts.len() == self.num_app + 1
        &&& self.current_task < self.num_app || (self.num_app == 0 && self.current_task == 0)
        &&& forall|task: int| 0 <= task < MAX_TASK_NUM ==> (#[trigger] self.stats[task]).wf()
        &&& forall|task: int|
            self.num_app <= task < MAX_TASK_NUM ==> #[trigger] self.status(task)
                == TaskStatus::UnInit
        &&& forall|task: int|
            0 <= task < MAX_TASK_NUM && #[trigger] self.status(task) == TaskStatus::Running
                ==> task == self.current_task
    }

    /// The state right after boot for the image table `app_starts`: every
    /// task is ready and will resume at `entry` on its own kernel stack, no
    /// statistics have been gathered, and slot 0 is current.
    pub open spec fn booted(app_starts: Seq<usize>, kernel_sp: Seq<usize>, entry: usize)
        -> ManagerView {
        let num_app = (app_starts.len() - 1) as nat;
        ManagerView {
            app_starts,
            num_app,
            current_task: 0,
            tcbs: Seq::new(
                MAX_TASK_NUM as nat,
                |task: int|
                    if task < num_app {
                        TaskControlBlock {
                            status: TaskStatus::Ready,
                            cx: TaskContext::resuming_at(entry, kernel_sp[task]),
                        }
                    } else {
                        TaskControlBlock::unused()
                    },
            ),
            stats: Seq::new(MAX_TASK_NUM as nat, |task: int| StatView::fresh()),
        }
    }

    /// The state with another status in slot `task`.
    pub open spec fn with_status(self, task: int, status: TaskStatus) -> ManagerView {
        ManagerView { tcbs: self.tcbs.update(task, self.tcbs[task].with_status(status)), ..self }
    }

    /// The state with other statistics in slot `task`.
    pub open spec fn with_stat(self, task: int, stat: StatView) -> ManagerView {
        ManagerView { stats: self.stats.update(task, stat), ..self }
    }

    /// Source, destination and size of the image of task `task`. An end
    /// that lies before the start gives an empty image.
    pub open spec fn image(self, task: int) -> ImageLoad {
        let start = self.app_starts[task];
        let end = self.app_starts[task + 1];
        ImageLoad {
            src: start,
            dst: task_base(task as nat) as usize,
            len: if start <= end { (end - start) as usize } else { 0 },
        }
    }

    /// The state after the image of task `task` is in place.
    pub open spec fn loaded(self, task: int) -> ManagerView {
        self.with_status(task, TaskStatus::Ready)
    }

    /// The slot that lies `offset` places after the current one, going
    /// round the tasks.
    pub open spec fn slot_after(self, offset: nat) -> nat {
        (self.current_task + offset) % self.num_app
    }

    /// No slot at an offset from `from` up to but not including `to` is
    /// ready.
    pub open spec fn none_ready_between(self, from: nat, to: nat) -> bool {
        forall|offset: nat|
            from <= offset < to ==> self.status(#[trigger] self.slot_after(offset) as int)
                != TaskStatus::Ready
    }

    /// The first ready slot at an offset of at least `offset` and at most
    /// the number of tasks, if there is one.
    pub open spec fn scan(self, offset: nat) -> Option<nat>
        decreases self.num_app + 1 - offset,
    {
        if offset > self.num_app {
            None
        } else if self.status(self.slot_after(offset) as int) == TaskStatus::Ready {
            Some(self.slot_after(offset))
        } else {
            self.scan(offset + 1)
        }
    }

    /// The scheduling decision: the first ready task after the current one,
    /// going round once; failing that the current task, if it is still
    /// running; failing that nothing.
    pub open spec fn next_task(self) -> Option<nat> {
        match self.scan(1) {
            Some(task) => Some(task),
            None => if self.status(self.current_task as int) == TaskStatus::Running {
                Some(self.current_task)
            } else {
                None
            },
        }
    }

    /// Slot `next` can be switched to: it is ready, or it is the running
    /// task itself.
    pub open spec fn can_move_to(self, next: nat) -> bool {
        &&& next < MAX_TASK_NUM
        &&& self.status(next as int) == TaskStatus::Ready || (next == self.current_task
            && self.status(next as int) == TaskStatus::Running)
    }

    /// The window of the current task can be closed at time `now`: the
    /// clock has not gone backward and the total still fits.
    pub open spec fn can_close_window(self, now: nat) -> bool {
        let stat = self.stats[self.current_task as int];
        &&& stat.can_end(now)
        &&& stat.cpu_clocks + stat.window(now) <= usize::MAX
    }

    /// The state after the current task gives way to `next` at time `now`:
    /// a running current task becomes ready again and its window is closed,
    /// then `next` becomes the running current task and its window opens.
    pub open spec fn moved_to(self, next: nat, now: nat) -> ManagerView {
        let current = self.current_task as int;
        let demoted = if self.status(current) == TaskStatus::Running {
            self.with_status(current, TaskStatus::Ready)
        } else {
            self
        };
        let closed = demoted.with_stat(current, demoted.stats[current].ended(now));
        let promoted = closed.with_status(next as int, TaskStatus::Running);
        let opened = promoted.with_stat(next as int, promoted.stats[next as int].begun(now));
        ManagerView { current_task: next, ..opened }
    }

    /// The state after the current task has exited.
    pub open spec fn exited(self) -> ManagerView {
        self.with_status(self.current_task as int, TaskStatus::Exited)
    }

    /// The state after the current task has invoked system call `syscall`.
    pub open spec fn counted(self, syscall: nat) -> ManagerView {
        let current = self.current_task as int;
        self.with_stat(current, self.stats[current].counted(syscall))
    }

    /// The state after a scheduling decision at time `now`: the chosen task
    /// runs, or nothing changes because the system shuts down.
    pub open spec fn rescheduled(self, now: nat) -> ManagerView {
        match self.next_task() {
            Some(next) => self.moved_to(next, now),
            None => self,
        }
    }

    /// A scheduling decision at time `now` stays within the machine's
    /// limits: if a task is chosen, the current window can be closed and the
    /// next deadline fits.
    pub open spec fn can_reschedule(self, now: nat, clock_freq: nat) -> bool {
        self.next_task() is Some ==> {
            &&& self.can_close_window(now)
            &&& next_trigger(now, clock_freq) <= usize::MAX
        }
    }

    /// The outcome of looking for the next task.
    pub open spec fn decision(self) -> Decision {
        match self.next_task() {
            Some(next) => Decision::Run(next as usize),
            None => Decision::Shutdown,
        }
    }

    /// The state after one event. Where there is no task, none can exit.
    pub open spec fn step(self, event: SchedEvent) -> ManagerView {
        match event {
            SchedEvent::Tick(now) => self.rescheduled(now),
            SchedEvent::Exit(now) => if self.num_app > 0 {
                self.exited().rescheduled(now)
            } else {
                self
            },
            SchedEvent::Syscall(syscall) => self.counted(syscall),
        }
    }

    /// The state after a sequence of events, oldest first.
    pub open spec fn run(self, events: Seq<SchedEvent>) -> ManagerView
        decreases events.len(),
    {
        if events.len() == 0 {
            self
        } else {
            self.run(events.drop_last()).step(events.last())
        }
    }

    /// The event stays within the machine's limits and within the tracked
    /// system-call numbers: the counter and the scheduled time do not
    /// overflow, the clock has not gone backward, and a task exists that can
    /// exit.
    pub open spec fn admits(self, event: SchedEvent, clock_freq: nat) -> bool {
        match event {
            SchedEvent::Tick(now) => self.can_reschedule(now, clock_freq),
            SchedEvent::Exit(now) => self.num_app > 0 && self.exited().can_reschedule(
                now,
                clock_freq,
            ),
            SchedEvent::Syscall(syscall) => {
                &&& syscall < MAX_SYSCALL_NUM
                &&& self.stats[self.current_task as int].syscall_times[syscall as int] < u32::MAX
            },
        }
    }

    /// What a scheduling decision at time `now` asks of the kernel.
    pub open spec fn dispatch(self, now: nat, clock_freq: nat) -> Dispatch {
        match self.next_task() {
            Some(next) => Dispatch::Switch {
                from: self.current_task as usize,
                to: next as usize,
                deadline: next_trigger(now, clock_freq) as usize,
            },
            None => Dispatch::Shutdown,
        }
    }
}

/// Going round `n` slots, the slot after the one at offset `offset` from
/// `start` is the one at offset `offset + 1`.
pub proof fn lemma_slot_step(start: nat, offset: nat, n: nat)
    requires
        n > 0,
    ensures
        (((start + offset) % n) + 1) % n == (start + offset + 1) % n,
{
    vstd::arithmetic::div_mod::lemma_add_mod_noop((start + offset) as int, 1, n as int);
    vstd::arithmetic::div_mod::lemma_mod_twice((start + offset) as int, n as int);
    vstd::arithmetic::div_mod::lemma_add_mod_noop(
        ((start + offset) % n) as int,
        1,
        n as int,
    );
}

impl ManagerView {
    /// What `scan` finds is a ready task, the first at its offset or later.
    pub proof fn lemma_scan(self, offset: nat)
        requires
            self.num_app > 0,
            offset >= 1,
        ensures
            match self.scan(offset) {
                Some(task) => exists|found: nat|
                    {
                        &&& offset <= found <= self.num_app
                        &&& task == #[trigger] self.slot_after(found)
                        &&& self.status(task as int) == TaskStatus::Ready
                        &&& self.none_ready_between(offset, found)
                    },
                None => self.none_ready_between(offset, self.num_app + 1),
            },
        decreases self.num_app + 1 - offset,
    {
        if offset > self.num_app {
        } else if self.status(self.slot_after(offset) as int) == TaskStatus::Ready {
            assert(self.none_ready_between(offset, offset));
        } else {
            self.lemma_scan(offset + 1);
            match self.scan(offset) {
                Some(task) => {
                    let found = choose|found: nat|
                        {
                            &&& offset + 1 <= found <= self.num_app
                            &&& task == #[trigger] self.slot_after(found)
                            &&& self.status(task as int) == TaskStatus::Ready
                            &&& self.none_ready_between(offset + 1, found)
                        };
                    assert(self.none_ready_between(offset, found));
                },
                None => {},
            }
        }
    }

    /// Loading a task keeps the invariant.
    pub proof fn lemma_loaded_wf(self, task: int)
        requires
            self.wf(),
            0 <= task < self.num_app,
        ensures
            self.loaded(task).wf(),
    {
        let after = self.loaded(task);
        assert forall|other: int| 0 <= other < MAX_TASK_NUM implies (#[trigger] after.stats[other]).wf() by {
            assert(self.stats[other].wf());
        }
        assert forall|other: int| self.num_app <= other < MAX_TASK_NUM implies #[trigger] after.status(other) == TaskStatus::UnInit by {
            assert(self.status(other) == TaskStatus::UnInit);
        }
        assert forall|other: int| 0 <= other < MAX_TASK_NUM && #[trigger] after.status(other) == TaskStatus::Running implies other == after.current_task by {
            assert(self.status(other) == TaskStatus::Running);
        }
    }

    /// The state right after boot meets the invariant.
    pub proof fn lemma_booted_wf(app_starts: Seq<usize>, kernel_sp: Seq<usize>, entry: usize)
        requires
            1 <= app_starts.len() <= MAX_TASK_NUM + 1,
        ensures
            ManagerView::booted(app_starts, kernel_sp, entry).wf(),
    {
    }

    /// Switching to a task that can be switched to keeps the invariant.
    pub proof fn lemma_moved_to_wf(self, next: nat, now: nat)
        requires
            self.wf(),
            self.can_move_to(next),
        ensures
            self.moved_to(next, now).wf(),
    {
        let after = self.moved_to(next, now);
        let current = self.current_task as int;
        assert(self.status(next as int) != TaskStatus::UnInit);
        assert(next < self.num_app);
        assert(self.stats[current].wf());
        assert(self.stats[next as int].wf());
        assert forall|other: int| 0 <= other < MAX_TASK_NUM implies (#[trigger] after.stats[other]).wf() by {
            assert(self.stats[other].wf());
        }
        assert forall|other: int| self.num_app <= other < MAX_TASK_NUM implies #[trigger] after.status(other) == TaskStatus::UnInit by {
            assert(self.status(other) == TaskStatus::UnInit);
        }
        assert forall|other: int| 0 <= other < MAX_TASK_NUM && #[trigger] after.status(other) == TaskStatus::Running implies other == after.current_task by {
            if other != next {
                assert(self.status(other) == TaskStatus::Running);
            }
        }
    }

    /// The exit of the current task keeps the invariant.
    pub proof fn lemma_exited_wf(self)
        requires
            self.wf(),
            self.current_task < self.num_app,
        ensures
            self.exited().wf(),
    {
        let after = self.exited();
        assert forall|other: int| 0 <= other < MAX_TASK_NUM implies (#[trigger] after.stats[other]).wf() by {
            assert(self.stats[other].wf());
        }
        assert forall|other: int| self.num_app <= other < MAX_TASK_NUM implies #[trigger] after.status(other) == TaskStatus::UnInit by {
            assert(self.status(other) == TaskStatus::UnInit);
        }
        assert forall|other: int| 0 <= other < MAX_TASK_NUM && #[trigger] after.status(other) == TaskStatus::Running implies other == after.current_task by {
            assert(self.status(other) == TaskStatus::Running);
        }
    }

    /// Counting a system call keeps the invariant.
    pub proof fn lemma_counted_wf(self, syscall: nat)
        requires
            self.wf(),
        ensures
            self.counted(syscall).wf(),
    {
        let after = self.counted(syscall);
        assert(self.stats[self.current_task as int].wf());
        assert forall|other: int| 0 <= other < MAX_TASK_NUM implies (#[trigger] after.stats[other]).wf() by {
            assert(self.stats[other].wf());
        }
        assert forall|other: int| self.num_app <= other < MAX_TASK_NUM implies #[trigger] after.status(other) == TaskStatus::UnInit by {
            assert(self.status(other) == TaskStatus::UnInit);
        }
        assert forall|other: int| 0 <= other < MAX_TASK_NUM && #[trigger] after.status(other) == TaskStatus::Running implies other == after.current_task by {
            assert(self.status(other) == TaskStatus::Running);
        }
    }

    /// A task that the scheduling decision names can be switched to; in
    /// particular it has not exited.
    pub proof fn lemma_next_task_can_run(self)
        requires
            self.wf(),
        ensures
            self.next_task() matches Some(next) ==> self.can_move_to(next) && next < self.num_app,
    {
        if self.num_app > 0 {
            self.lemma_scan(1);
            if let Some(task) = self.scan(1) {
                let found = choose|found: nat|
                    {
                        &&& 1 <= found <= self.num_app
                        &&& task == #[trigger] self.slot_after(found)
                        &&& self.status(task as int) == TaskStatus::Ready
                        &&& self.none_ready_between(1, found)
                    };
                assert(task < self.num_app) by {
                    vstd::arithmetic::div_mod::lemma_mod_bound(
                        (self.current_task + found) as int,
                        self.num_app as int,
                    );
                }
            }
        } else {
            assert(self.scan(1) is None) by {
                reveal_with_fuel(ManagerView::scan, 2);
            }
            assert(self.status(0) == TaskStatus::UnInit);
        }
    }

    /// Every task lies at some offset between one and the number of tasks
    /// from the current one.
    pub proof fn lemma_every_task_has_offset(self, task: nat)
        requires
            self.current_task < self.num_app,
            task < self.num_app,
        ensures
            exists|offset: nat| 1 <= offset <= self.num_app && task == #[trigger] self.slot_after(offset),
    {
        let n = self.num_app as int;
        let c = self.current_task as int;
        let offset: nat = if task > c { (task - c) as nat } else { (task + n - c) as nat };
        if task > c {
            vstd::arithmetic::div_mod::lemma_small_mod(task, n as nat);
        } else {
            vstd::arithmetic::div_mod::lemma_mod_add_multiples_vanish(task as int, n);
            vstd::arithmetic::div_mod::lemma_small_mod(task, n as nat);
        }
        assert(task == self.slot_after(offset));
    }
}

} // verus!

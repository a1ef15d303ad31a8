//! What holds of the task manager along every course of events.

use vstd::prelude::*;
use crate::config::MAX_TASK_NUM;
use crate::context::TaskStatus;
use crate::model::{lemma_slot_step, Decision, Dispatch, ManagerView, SchedEvent};

verus! {

impl ManagerView {
    /// No task is ready and the current one is not running.
    pub open spec fn nothing_runnable(self) -> bool {
        &&& forall|task: int|
            0 <= task < self.num_app ==> #[trigger] self.status(task) != TaskStatus::Ready
        &&& self.status(self.current_task as int) != TaskStatus::Running
    }

    /// Every task takes part in the rotation: the current one is running
    /// and all the others are ready.
    pub open spec fn all_in_rotation(self) -> bool {
        &&& self.num_app > 0
        &&& self.status(self.current_task as int) == TaskStatus::Running
        &&& forall|task: int|
            0 <= task < self.num_app && task != self.current_task ==> #[trigger] self.status(task)
                == TaskStatus::Ready
    }

    /// A scheduling decision keeps the invariant.
    pub proof fn lemma_rescheduled_wf(self, now: nat)
        requires
            self.wf(),
        ensures
            self.rescheduled(now).wf(),
    {
        self.lemma_next_task_can_run();
        if let Some(next) = self.next_task() {
            self.lemma_moved_to_wf(next, now);
        }
    }

    /// Every event keeps the invariant.
    pub proof fn lemma_step_wf(self, event: SchedEvent)
        requires
            self.wf(),
        ensures
            self.step(event).wf(),
    {
        match event {
            SchedEvent::Tick(now) => {
                self.lemma_rescheduled_wf(now);
            },
            SchedEvent::Exit(now) => {
                if self.num_app > 0 {
                    self.lemma_exited_wf();
                    self.exited().lemma_rescheduled_wf(now);
                }
            },
            SchedEvent::Syscall(syscall) => {
                self.lemma_counted_wf(syscall);
            },
        }
    }

    /// The invariant holds after every course of events.
    pub proof fn lemma_run_wf(self, events: Seq<SchedEvent>)
        requires
            self.wf(),
        ensures
            self.run(events).wf(),
        decreases events.len(),
    {
        if events.len() > 0 {
            self.lemma_run_wf(events.drop_last());
            self.run(events.drop_last()).lemma_step_wf(events.last());
        }
    }

    /// At most one task is running, whatever has happened: two slots that
    /// are both running after a course of events are the same slot.
    pub proof fn lemma_at_most_one_running(self, events: Seq<SchedEvent>, a: int, b: int)
        requires
            self.wf(),
            0 <= a < MAX_TASK_NUM,
            0 <= b < MAX_TASK_NUM,
            self.run(events).status(a) == TaskStatus::Running,
            self.run(events).status(b) == TaskStatus::Running,
        ensures
            a == b,
    {
        self.lemma_run_wf(events);
    }

    /// A scheduling decision never picks a task that has exited.
    pub proof fn lemma_exited_never_chosen(self, task: nat)
        requires
            self.wf(),
            task < MAX_TASK_NUM,
            self.status(task as int) == TaskStatus::Exited,
        ensures
            self.next_task() != Some(task),
    {
        self.lemma_next_task_can_run();
    }

    /// No event brings an exited task back.
    pub proof fn lemma_step_keeps_exited(self, event: SchedEvent, task: int)
        requires
            self.wf(),
            0 <= task < MAX_TASK_NUM,
            self.status(task) == TaskStatus::Exited,
        ensures
            self.step(event).status(task) == TaskStatus::Exited,
    {
        match event {
            SchedEvent::Tick(now) => {
                self.lemma_next_task_can_run();
            },
            SchedEvent::Exit(now) => {
                if self.num_app > 0 {
                    self.lemma_exited_wf();
                    self.exited().lemma_next_task_can_run();
                }
            },
            SchedEvent::Syscall(syscall) => {},
        }
    }

    /// An exited task stays exited, whatever happens afterwards.
    pub proof fn lemma_exited_is_final(self, events: Seq<SchedEvent>, task: int)
        requires
            self.wf(),
            0 <= task < MAX_TASK_NUM,
            self.status(task) == TaskStatus::Exited,
        ensures
            self.run(events).status(task) == TaskStatus::Exited,
        decreases events.len(),
    {
        if events.len() > 0 {
            self.lemma_exited_is_final(events.drop_last(), task);
            self.lemma_run_wf(events.drop_last());
            self.run(events.drop_last()).lemma_step_keeps_exited(events.last(), task);
        }
    }

    /// The system shuts down exactly when nothing can run: the decision
    /// names no task if and only if no task is ready and the current one is
    /// not running.
    pub proof fn lemma_shutdown_iff_nothing_runnable(self)
        requires
            self.wf(),
        ensures
            self.next_task() is None <==> self.nothing_runnable(),
    {
        if self.num_app > 0 {
            self.lemma_scan(1);
            match self.scan(1) {
                Some(task) => {
                    self.lemma_next_task_can_run();
                    assert(self.status(task as int) == TaskStatus::Ready);
                },
                None => {
                    assert forall|task: int| 0 <= task < self.num_app implies #[trigger] self.status(
                        task,
                    ) != TaskStatus::Ready by {
                        self.lemma_every_task_has_offset(task as nat);
                        let offset = choose|offset: nat|
                            1 <= offset <= self.num_app && task as nat
                                == #[trigger] self.slot_after(offset);
                        assert(self.status(self.slot_after(offset) as int) != TaskStatus::Ready);
                    }
                },
            }
        } else {
            assert(self.scan(1) is None);
        }
    }

    /// The scheduling decision, said without the scan: a chosen task is the
    /// first ready one after the current task in round-robin order, or it is
    /// the running current task while no task is ready; and no task is
    /// chosen exactly when nothing can run.
    pub proof fn lemma_next_task_is_first_ready(self)
        requires
            self.wf(),
            self.num_app > 0,
        ensures
            match self.next_task() {
                Some(task) => {
                    ||| exists|found: nat|
                        {
                            &&& 1 <= found <= self.num_app
                            &&& task == #[trigger] self.slot_after(found)
                            &&& self.status(task as int) == TaskStatus::Ready
                            &&& self.none_ready_between(1, found)
                        }
                    ||| {
                        &&& self.none_ready_between(1, self.num_app + 1)
                        &&& task == self.current_task
                        &&& self.status(task as int) == TaskStatus::Running
                    }
                },
                None => self.nothing_runnable(),
            },
    {
        self.lemma_scan(1);
        self.lemma_shutdown_iff_nothing_runnable();
    }

    /// What a switch does to the slots: the new task runs and is current, a
    /// current task that was running is ready again, and every other slot
    /// keeps its status. Saved contexts are not touched.
    pub proof fn lemma_moved_to_statuses(self, next: nat, now: nat, task: int)
        requires
            self.wf(),
            self.can_move_to(next),
            0 <= task < MAX_TASK_NUM,
        ensures
            self.moved_to(next, now).current_task == next,
            self.moved_to(next, now).num_app == self.num_app,
            self.moved_to(next, now).app_starts == self.app_starts,
            self.moved_to(next, now).tcbs[task].cx == self.tcbs[task].cx,
            self.moved_to(next, now).status(task) == if task == next {
                TaskStatus::Running
            } else if task == self.current_task && self.status(task) == TaskStatus::Running {
                TaskStatus::Ready
            } else {
                self.status(task)
            },
    {
    }

    /// Once every task has exited, the next scheduling decision is to shut
    /// down: no task is chosen and no state changes.
    pub proof fn lemma_all_exited_means_shutdown(self, now: nat, clock_freq: nat)
        requires
            self.wf(),
            forall|task: int|
                0 <= task < self.num_app ==> #[trigger] self.status(task) == TaskStatus::Exited,
        ensures
            self.next_task() is None,
            self.decision() == Decision::Shutdown,
            self.dispatch(now, clock_freq) == Dispatch::Shutdown,
            self.rescheduled(now) == self,
    {
        assert(self.nothing_runnable()) by {
            if self.num_app == 0 {
                assert(self.status(0) == TaskStatus::UnInit);
            } else {
                assert(self.status(self.current_task as int) == TaskStatus::Exited);
            }
        }
        self.lemma_shutdown_iff_nothing_runnable();
    }

    /// With every task in the rotation, the decision is the slot after the
    /// current one, going round, and the rotation stays complete.
    pub proof fn lemma_rotation_step(self, now: nat)
        requires
            self.wf(),
            self.all_in_rotation(),
        ensures
            self.next_task() == Some(self.slot_after(1)),
            self.rescheduled(now).current_task == self.slot_after(1),
            self.rescheduled(now).all_in_rotation(),
            self.rescheduled(now).num_app == self.num_app,
    {
        let n = self.num_app;
        let current = self.current_task;
        let next = self.slot_after(1);
        if n == 1 {
            assert(next == 0);
            assert(self.scan(1) is None) by {
                reveal_with_fuel(ManagerView::scan, 3);
            }
        } else {
            if current + 1 < n {
                vstd::arithmetic::div_mod::lemma_small_mod(current + 1, n);
            } else {
                vstd::arithmetic::div_mod::lemma_mod_self_0(n as int);
            }
            assert(next != current && next < n);
            assert(self.status(next as int) == TaskStatus::Ready);
        }
        let after = self.rescheduled(now);
        assert forall|task: int| 0 <= task < after.num_app && task != after.current_task implies #[trigger] after.status(
            task,
        ) == TaskStatus::Ready by {
            if task != current {
                assert(self.status(task) == TaskStatus::Ready);
            }
        }
    }
}

impl SchedEvent {
    /// The clock reading that the event carries, if it carries one.
    pub open spec fn time(self) -> Option<nat> {
        match self {
            SchedEvent::Tick(now) => Some(now),
            SchedEvent::Exit(now) => Some(now),
            SchedEvent::Syscall(_) => None,
        }
    }
}

impl ManagerView {
    /// The first and the latest scheduling time of every slot are in order.
    pub open spec fn stats_ordered(self) -> bool {
        forall|task: int| 0 <= task < MAX_TASK_NUM ==> (#[trigger] self.stats[task]).ordered()
    }

    /// No scheduling window was opened after time `now`.
    pub open spec fn not_after(self, now: nat) -> bool {
        forall|task: int|
            0 <= task < MAX_TASK_NUM ==> ((#[trigger] self.stats[task]).last_scheduled matches Some(
                last,
            ) ==> last <= now)
    }

    /// The clock never goes backward along the events.
    pub open spec fn in_time(self, events: Seq<SchedEvent>) -> bool
        decreases events.len(),
    {
        events.len() > 0 ==> {
            &&& self.in_time(events.drop_last())
            &&& events.last().time() matches Some(now) ==> self.run(events.drop_last()).not_after(
                now,
            )
        }
    }

    /// A switch at a time that is not before any window keeps the scheduling
    /// times of every slot in order and never lowers a scheduled time.
    pub proof fn lemma_moved_to_stats(self, next: nat, now: nat, task: int)
        requires
            self.wf(),
            self.can_move_to(next),
            0 <= task < MAX_TASK_NUM,
        ensures
            self.moved_to(next, now).stats[task].cpu_clocks >= self.stats[task].cpu_clocks,
            self.moved_to(next, now).stats[task].syscall_times == self.stats[task].syscall_times,
            self.stats[task].ordered() && self.not_after(now) ==> self.moved_to(
                next,
                now,
            ).stats[task].ordered(),
    {
        if self.not_after(now) {
            assert(self.stats[task].last_scheduled matches Some(last) ==> last <= now);
        }
    }

    /// An event changes the system-call counters of one slot at most: a
    /// system call adds one to its own counter of the current task, and
    /// every other counter of every task stays as it is.
    pub proof fn lemma_step_counters(self, event: SchedEvent, task: int)
        requires
            self.wf(),
            0 <= task < MAX_TASK_NUM,
        ensures
            self.step(event).stats[task].syscall_times == (match event {
                SchedEvent::Syscall(syscall) => if task == self.current_task {
                    self.stats[task].counted(syscall).syscall_times
                } else {
                    self.stats[task].syscall_times
                },
                _ => self.stats[task].syscall_times,
            }),
    {
        assert(self.stats[task].wf());
        match event {
            SchedEvent::Tick(now) => {
                self.lemma_next_task_can_run();
                if let Some(next) = self.next_task() {
                    self.lemma_moved_to_stats(next, now, task);
                }
            },
            SchedEvent::Exit(now) => {
                if self.num_app > 0 {
                    self.lemma_exited_wf();
                    let gone = self.exited();
                    gone.lemma_next_task_can_run();
                    if let Some(next) = gone.next_task() {
                        gone.lemma_moved_to_stats(next, now, task);
                    }
                }
            },
            SchedEvent::Syscall(syscall) => {},
        }
    }

    /// Scheduled time never shrinks: after any course of events the
    /// `cpu_clocks` of every task is at least what it was.
    pub proof fn lemma_run_cpu_clocks_never_decrease(self, events: Seq<SchedEvent>, task: int)
        requires
            self.wf(),
            0 <= task < MAX_TASK_NUM,
        ensures
            self.run(events).stats[task].cpu_clocks >= self.stats[task].cpu_clocks,
        decreases events.len(),
    {
        if events.len() > 0 {
            self.lemma_run_cpu_clocks_never_decrease(events.drop_last(), task);
            self.lemma_run_wf(events.drop_last());
            let before = self.run(events.drop_last());
            match events.last() {
                SchedEvent::Tick(now) => {
                    before.lemma_next_task_can_run();
                    if let Some(next) = before.next_task() {
                        before.lemma_moved_to_stats(next, now, task);
                    }
                },
                SchedEvent::Exit(now) => {
                    if before.num_app > 0 {
                        before.lemma_exited_wf();
                        let gone = before.exited();
                        gone.lemma_next_task_can_run();
                        if let Some(next) = gone.next_task() {
                            gone.lemma_moved_to_stats(next, now, task);
                        }
                    }
                },
                SchedEvent::Syscall(syscall) => {},
            }
        }
    }

    /// With a clock that never goes backward, the first scheduling time of
    /// every task stays at or before its latest one.
    pub proof fn lemma_run_stats_ordered(self, events: Seq<SchedEvent>)
        requires
            self.wf(),
            self.stats_ordered(),
            self.in_time(events),
        ensures
            self.run(events).stats_ordered(),
        decreases events.len(),
    {
        if events.len() > 0 {
            self.lemma_run_stats_ordered(events.drop_last());
            self.lemma_run_wf(events.drop_last());
            let before = self.run(events.drop_last());
            let after = self.run(events);
            assert forall|task: int| 0 <= task < MAX_TASK_NUM implies (#[trigger] after.stats[task]).ordered() by {
                assert(before.stats[task].ordered());
                match events.last() {
                    SchedEvent::Tick(now) => {
                        before.lemma_next_task_can_run();
                        if let Some(next) = before.next_task() {
                            before.lemma_moved_to_stats(next, now, task);
                        }
                    },
                    SchedEvent::Exit(now) => {
                        if before.num_app > 0 {
                            before.lemma_exited_wf();
                            let gone = before.exited();
                            gone.lemma_next_task_can_run();
                            assert(gone.stats == before.stats);
                            if let Some(next) = gone.next_task() {
                                gone.lemma_moved_to_stats(next, now, task);
                            }
                        }
                    },
                    SchedEvent::Syscall(syscall) => {},
                }
            }
        }
    }
}

/// The events of timer ticks at the given times and nothing else.
pub open spec fn ticks(times: Seq<nat>) -> Seq<SchedEvent> {
    Seq::new(times.len(), |i: int| SchedEvent::Tick(times[i]))
}

/// Round-robin order: with `n` tasks that are all in the rotation and none
/// of which exits, after `k` timer ticks the running task is the one `k`
/// slots after the task that ran at the start, going round.
pub proof fn lemma_round_robin(start: ManagerView, times: Seq<nat>)
    requires
        start.wf(),
        start.all_in_rotation(),
    ensures
        start.run(ticks(times)).current_task == (start.current_task + times.len())
            % start.num_app,
        start.run(ticks(times)).all_in_rotation(),
        start.run(ticks(times)).num_app == start.num_app,
        start.run(ticks(times)).wf(),
    decreases times.len(),
{
    let n = start.num_app;
    start.lemma_run_wf(ticks(times));
    if times.len() == 0 {
        vstd::arithmetic::div_mod::lemma_small_mod(start.current_task, n);
    } else {
        let before = times.drop_last();
        lemma_round_robin(start, before);
        assert(ticks(times).drop_last() =~= ticks(before));
        let middle = start.run(ticks(before));
        middle.lemma_rotation_step(times.last());
        lemma_slot_step(start.current_task, before.len(), n);
    }
}

/// The sequence of scheduled tasks under round-robin: the task that runs
/// after the `j`-th of the ticks is the one `j` slots after the task that
/// ran at the start, going round, for every `j` up to the number of ticks.
pub proof fn lemma_round_robin_sequence(start: ManagerView, times: Seq<nat>)
    requires
        start.wf(),
        start.all_in_rotation(),
    ensures
        forall|j: int|
            0 <= j <= times.len() ==> (#[trigger] start.run(ticks(times.take(j)))).current_task
                == (start.current_task + j) % (start.num_app as int),
{
    assert forall|j: int| 0 <= j <= times.len() implies (#[trigger] start.run(
        ticks(times.take(j)),
    )).current_task == (start.current_task + j) % (start.num_app as int) by {
        lemma_round_robin(start, times.take(j));
    }
}

} // verus!

//! The task manager: the slots, the round-robin choice and the switch
//! bookkeeping.

use vstd::prelude::*;
use crate::config::{APP_BASE_ADDR, MAX_APP_SIZE, MAX_SYSCALL_NUM, MAX_TASK_NUM, TICKS_PER_SEC};
use crate::context::{TaskContext, TaskControlBlock, TaskStatus};
use crate::model::{
    lemma_slot_step, next_trigger, task_base, BootError, Decision, Dispatch, ImageLoad,
    ManagerView,
};
use crate::stat::TaskStat;

verus! {

/// Owner of all task slots and of their statistics.
#[derive(Clone)]
pub struct TaskManager {
    app_starts: &'static [usize],
    num_app: usize,
    current_task: usize,
    tcbs: [TaskControlBlock; MAX_TASK_NUM],
    stats: [TaskStat; MAX_TASK_NUM],
}

impl View for TaskManager {
    type V = ManagerView;

    closed spec fn view(&self) -> ManagerView {
        ManagerView {
            app_starts: self.app_starts@,
            num_app: self.num_app as nat,
            current_task: self.current_task as nat,
            tcbs: self.tcbs@,
            stats: Seq::new(MAX_TASK_NUM as nat, |task: int| self.stats[task]@),
        }
    }
}

/// Address at which the image of task `task_id` is placed.
pub fn get_task_base(task_id: usize) -> (base: usize)
    requires
        task_base(task_id as nat) <= usize::MAX,
    ensures
        base == task_base(task_id as nat),
{
    assert(task_id * MAX_APP_SIZE <= usize::MAX) by (nonlinear_arith)
        requires
            APP_BASE_ADDR + task_id * MAX_APP_SIZE <= usize::MAX,
    ;
    APP_BASE_ADDR + task_id * MAX_APP_SIZE
}

/// Timer deadline one quantum after `now`, on a clock with `clock_freq`
/// ticks per second.
pub fn set_next_trigger(now: usize, clock_freq: usize) -> (deadline: usize)
    requires
        next_trigger(now as nat, clock_freq as nat) <= usize::MAX,
    ensures
        deadline == next_trigger(now as nat, clock_freq as nat),
{
    let delta: usize = clock_freq / TICKS_PER_SEC;
    now + delta
}

impl TaskManager {
    /// Sets up the manager for the image table `app_starts`, which holds the
    /// start of every image and, last, the end of the final one. Task `i`
    /// will resume at `entry` on the kernel stack `kernel_sp[i]`. Returns
    /// the manager together with the copies that bring the images in place.
    pub fn new(
        app_starts: &'static [usize],
        kernel_sp: &[usize; MAX_TASK_NUM],
        entry: usize,
    ) -> (booted: Result<(TaskManager, Vec<ImageLoad>), BootError>)
        ensures
            match booted {
                Ok((manager, images)) => {
                    &&& 1 <= app_starts@.len() <= MAX_TASK_NUM + 1
                    &&& manager@ == ManagerView::booted(app_starts@, kernel_sp@, entry)
                    &&& manager@.wf()
                    &&& images@.len() == manager@.num_app
                    &&& forall|task: int|
                        0 <= task < images@.len() ==> images@[task] == manager@.image(task)
                },
                Err(BootError::EmptyTable) => app_starts@.len() == 0,
                Err(BootError::TooManyTasks) => app_starts@.len() > MAX_TASK_NUM + 1,
            },
    {
        if app_starts.len() == 0 {
            return Err(BootError::EmptyTable);
        }
        let num_app: usize = app_starts.len() - 1;
        if num_app > MAX_TASK_NUM {
            return Err(BootError::TooManyTasks);
        }
        let unused = TaskControlBlock::default();
        let fresh = TaskStat::default();
        let mut tcbs: [TaskControlBlock; MAX_TASK_NUM] = [unused; MAX_TASK_NUM];
        let stats: [TaskStat; MAX_TASK_NUM] = [fresh; MAX_TASK_NUM];
        let mut primed: usize = 0;
        while primed < num_app
            invariant
                primed <= num_app <= MAX_TASK_NUM,
                forall|task: int|
                    0 <= task < primed ==> tcbs@[task] == (TaskControlBlock {
                        status: TaskStatus::UnInit,
                        cx: TaskContext::resuming_at(entry, kernel_sp@[task]),
                    }),
                forall|task: int|
                    primed <= task < MAX_TASK_NUM ==> tcbs@[task] == TaskControlBlock::unused(),
            decreases num_app - primed,
        {
            tcbs[primed] = TaskControlBlock {
                status: TaskStatus::UnInit,
                cx: TaskContext::goto(entry, kernel_sp[primed]),
            };
            primed += 1;
        }
        let mut manager = Self { app_starts, num_app, current_task: 0, tcbs, stats };
        let ghost target = ManagerView::booted(app_starts@, kernel_sp@, entry);
        proof {
            ManagerView::lemma_booted_wf(app_starts@, kernel_sp@, entry);
            assert(manager@.stats =~= target.stats);
        }
        let mut images: Vec<ImageLoad> = Vec::new();
        let mut loaded: usize = 0;
        while loaded < num_app
            invariant
                loaded <= num_app <= MAX_TASK_NUM,
                num_app == app_starts@.len() - 1,
                target == ManagerView::booted(app_starts@, kernel_sp@, entry),
                manager@.wf(),
                manager@.app_starts == target.app_starts,
                manager@.num_app == target.num_app,
                manager@.current_task == target.current_task,
                manager@.stats == target.stats,
                manager@.tcbs.len() == MAX_TASK_NUM,
                forall|task: int| 0 <= task < loaded ==> manager@.tcbs[task] == target.tcbs[task],
                forall|task: int|
                    loaded <= task < MAX_TASK_NUM ==> manager@.tcbs[task]
                        == target.tcbs[task].with_status(TaskStatus::UnInit),
                images@.len() == loaded,
                forall|task: int| 0 <= task < loaded ==> images@[task] == manager@.image(task),
            decreases num_app - loaded,
        {
            let image = manager.load_task(loaded);
            images.push(image);
            loaded += 1;
        }
        proof {
            assert(manager@.tcbs =~= target.tcbs);
        }
        Ok((manager, images))
    }

    /// Marks task `task_id` ready and says which bytes have to be copied
    /// where for it.
    pub fn load_task(&mut self, task_id: usize) -> (image: ImageLoad)
        requires
            old(self)@.wf(),
            task_id < old(self)@.num_app,
            old(self)@.status(task_id as int) == TaskStatus::UnInit,
        ensures
            final(self)@ == old(self)@.loaded(task_id as int),
            final(self)@.wf(),
            image == old(self)@.image(task_id as int),
    {
        let task_start: usize = self.app_starts[task_id];
        let task_end: usize = self.app_starts[task_id + 1];
        let task_size: usize = if task_start <= task_end {
            task_end - task_start
        } else {
            0
        };
        assert(task_base(task_id as nat) <= 0xffff_ffff) by (nonlinear_arith)
            requires
                task_id < MAX_TASK_NUM,
                task_base(task_id as nat) == APP_BASE_ADDR as nat + task_id as nat
                    * MAX_APP_SIZE as nat,
        ;
        let load_to: usize = get_task_base(task_id);
        self.tcbs[task_id].status = TaskStatus::Ready;
        proof {
            assert(self@.tcbs =~= old(self)@.loaded(task_id as int).tcbs);
            assert(self@.stats =~= old(self)@.stats);
            old(self)@.lemma_loaded_wf(task_id as int);
        }
        ImageLoad { src: task_start, dst: load_to, len: task_size }
    }

    /// Makes `next_task` the running task at time `now`. A running current
    /// task becomes ready again; its scheduling window is closed and the
    /// one of `next_task` is opened. Returns the slot whose context has to
    /// be saved and the slot whose context has to be resumed.
    pub fn move_to_next_task(&mut self, next_task: usize, now: usize) -> (switch: (usize, usize))
        requires
            old(self)@.wf(),
            old(self)@.can_move_to(next_task as nat),
            old(self)@.can_close_window(now as nat),
        ensures
            final(self)@ == old(self)@.moved_to(next_task as nat, now as nat),
            final(self)@.wf(),
            switch == (old(self)@.current_task as usize, next_task),
    {
        let current_task: usize = self.current_task;
        if self.tcbs[current_task].status == TaskStatus::Running {
            self.tcbs[current_task].status = TaskStatus::Ready;
        }
        self.stats[current_task].record_schedule_end(now);
        self.tcbs[next_task].status = TaskStatus::Running;
        self.stats[next_task].record_schedule_begin(now);
        self.current_task = next_task;
        proof {
            let after = old(self)@.moved_to(next_task as nat, now as nat);
            assert(self@.tcbs =~= after.tcbs);
            assert(self@.stats =~= after.stats);
            old(self)@.lemma_moved_to_wf(next_task as nat, now as nat);
        }
        (current_task, next_task)
    }

    /// The scheduling decision: the first ready task after the current one,
    /// going round all tasks once; failing that the current task if it is
    /// still running; failing that `None`.
    pub fn find_next_task(&self) -> (next: Option<usize>)
        requires
            self@.wf(),
        ensures
            match next {
                Some(task) => self@.next_task() == Some(task as nat),
                None => self@.next_task() is None,
            },
    {
        let num_app: usize = self.num_app;
        if num_app > 0 {
            let mut idx: usize = (self.current_task + 1) % num_app;
            let mut tried: usize = 0;
            while tried < num_app
                invariant
                    self@.wf(),
                    num_app == self@.num_app,
                    num_app > 0,
                    tried <= num_app,
                    idx == self@.slot_after((tried + 1) as nat),
                    self@.scan(1) == self@.scan((tried + 1) as nat),
                decreases num_app - tried,
            {
                if self.tcbs[idx].status == TaskStatus::Ready {
                    return Some(idx);
                }
                proof {
                    lemma_slot_step(self@.current_task, (tried + 1) as nat, num_app as nat);
                }
                idx = (idx + 1) % num_app;
                tried += 1;
            }
        } else {
            assert(self@.scan(1) is None);
        }
        if self.tcbs[self.current_task].status == TaskStatus::Running {
            return Some(self.current_task);
        }
        None
    }

    /// The scheduling decision, with the end of all tasks as an outcome of
    /// its own.
    pub fn find_next_task_or_exit(&self) -> (decision: Decision)
        requires
            self@.wf(),
        ensures
            decision == self@.decision(),
    {
        proof {
            self@.lemma_next_task_can_run();
        }
        match self.find_next_task() {
            Some(task) => Decision::Run(task),
            None => Decision::Shutdown,
        }
    }

    /// Slot of the task that runs, or ran last.
    pub fn current_task(&self) -> (task: usize)
        ensures
            task == self@.current_task,
    {
        self.current_task
    }

    /// Number of tasks.
    pub fn num_app(&self) -> (count: usize)
        ensures
            count == self@.num_app,
    {
        self.num_app
    }

    /// Statistics of the current task.
    pub fn current_stat(&self) -> (stat: &TaskStat)
        requires
            self@.wf(),
        ensures
            stat@ == self@.stats[self@.current_task as int],
    {
        &self.stats[self.current_task]
    }

    /// Status and saved context of the current task.
    pub fn current_tcb(&self) -> (tcb: &TaskControlBlock)
        requires
            self@.wf(),
        ensures
            *tcb == self@.tcbs[self@.current_task as int],
    {
        &self.tcbs[self.current_task]
    }

    /// Status and saved context of slot `task_id`.
    pub fn tcb(&self, task_id: usize) -> (tcb: &TaskControlBlock)
        requires
            task_id < MAX_TASK_NUM,
        ensures
            *tcb == self@.tcbs[task_id as int],
    {
        &self.tcbs[task_id]
    }

    /// Statistics of slot `task_id`.
    pub fn stat(&self, task_id: usize) -> (stat: &TaskStat)
        requires
            task_id < MAX_TASK_NUM,
        ensures
            stat@ == self@.stats[task_id as int],
    {
        &self.stats[task_id]
    }

    /// Marks the current task as exited, for good.
    pub fn mark_current_exited(&mut self)
        requires
            old(self)@.wf(),
            old(self)@.num_app > 0,
        ensures
            final(self)@ == old(self)@.exited(),
            final(self)@.wf(),
    {
        let current_task: usize = self.current_task;
        self.tcbs[current_task].status = TaskStatus::Exited;
        proof {
            assert(self@.tcbs =~= old(self)@.exited().tcbs);
            assert(self@.stats =~= old(self)@.stats);
            old(self)@.lemma_exited_wf();
        }
    }
}

/// Where a task that runs for the first time enters user mode.
#[derive(Clone, Copy, Debug, PartialEq, Eq, Structural)]
pub struct UserEntry {
    /// Address of the first instruction.
    pub entry: usize,
    /// Initial user stack pointer.
    pub sp: usize,
}

/// Entry point and user stack of the current task, for its first entry into
/// user mode. `user_sp[i]` is the top of the user stack of task `i`.
pub fn start_task(task_mgr: &TaskManager, user_sp: &[usize; MAX_TASK_NUM]) -> (start: UserEntry)
    requires
        task_mgr@.wf(),
    ensures
        start.entry == task_base(task_mgr@.current_task),
        start.sp == user_sp@[task_mgr@.current_task as int],
{
    let current_task: usize = task_mgr.current_task;
    assert(task_base(current_task as nat) <= 0xffff_ffff) by (nonlinear_arith)
        requires
            current_task < MAX_TASK_NUM,
            task_base(current_task as nat) == APP_BASE_ADDR as nat + current_task as nat
                * MAX_APP_SIZE as nat,
    ;
    let task_entry: usize = get_task_base(current_task);
    UserEntry { entry: task_entry, sp: user_sp[current_task] }
}

/// Ends the current task at time `now` and decides what runs next.
pub fn exit_and_run_next(task_mgr: &mut TaskManager, now: usize, clock_freq: usize) -> (action:
    Dispatch)
    requires
        old(task_mgr)@.wf(),
        old(task_mgr)@.num_app > 0,
        old(task_mgr)@.exited().can_reschedule(now as nat, clock_freq as nat),
    ensures
        final(task_mgr)@ == old(task_mgr)@.exited().rescheduled(now as nat),
        final(task_mgr)@.wf(),
        action == old(task_mgr)@.exited().dispatch(now as nat, clock_freq as nat),
{
    task_mgr.mark_current_exited();
    run_next_task(task_mgr, now, clock_freq)
}

/// Starts the first task at time `now`, or shuts down where there is no
/// task at all.
pub fn run_first_task(task_mgr: &mut TaskManager, now: usize, clock_freq: usize) -> (action:
    Dispatch)
    requires
        old(task_mgr)@.wf(),
        old(task_mgr)@.num_app > 0 ==> {
            &&& old(task_mgr)@.can_move_to(0)
            &&& old(task_mgr)@.can_close_window(now as nat)
            &&& next_trigger(now as nat, clock_freq as nat) <= usize::MAX
        },
    ensures
        final(task_mgr)@.wf(),
        old(task_mgr)@.num_app == 0 ==> final(task_mgr)@ == old(task_mgr)@ && action
            == Dispatch::Shutdown,
        old(task_mgr)@.num_app > 0 ==> final(task_mgr)@ == old(task_mgr)@.moved_to(0, now as nat)
            && action == (Dispatch::Start {
            to: 0,
            deadline: next_trigger(now as nat, clock_freq as nat) as usize,
        }),
{
    if task_mgr.num_app > 0 {
        let (_, first_task) = task_mgr.move_to_next_task(0, now);
        let deadline: usize = set_next_trigger(now, clock_freq);
        Dispatch::Start { to: first_task, deadline }
    } else {
        Dispatch::Shutdown
    }
}

/// Decides at time `now` which task runs next and makes it the running
/// one, or finds that all tasks are done.
pub fn run_next_task(task_mgr: &mut TaskManager, now: usize, clock_freq: usize) -> (action:
    Dispatch)
    requires
        old(task_mgr)@.wf(),
        old(task_mgr)@.can_reschedule(now as nat, clock_freq as nat),
    ensures
        final(task_mgr)@ == old(task_mgr)@.rescheduled(now as nat),
        final(task_mgr)@.wf(),
        action == old(task_mgr)@.dispatch(now as nat, clock_freq as nat),
{
    proof {
        task_mgr@.lemma_next_task_can_run();
    }
    match task_mgr.find_next_task_or_exit() {
        Decision::Run(next_task) => {
            let (from, to) = task_mgr.move_to_next_task(next_task, now);
            let deadline: usize = set_next_trigger(now, clock_freq);
            Dispatch::Switch { from, to, deadline }
        },
        Decision::Shutdown => Dispatch::Shutdown,
    }
}

/// Counts one invocation of system call `syscall` by the current task.
pub fn record_syscall(task_mgr: &mut TaskManager, syscall: usize)
    requires
        old(task_mgr)@.wf(),
        syscall < MAX_SYSCALL_NUM,
        old(task_mgr)@.stats[old(task_mgr)@.current_task as int].syscall_times[syscall as int]
            < u32::MAX,
    ensures
        final(task_mgr)@ == old(task_mgr)@.counted(syscall as nat),
        final(task_mgr)@.wf(),
{
    let current_task: usize = task_mgr.current_task;
    task_mgr.stats[current_task].record_syscall(syscall);
    proof {
        assert(task_mgr@.stats =~= old(task_mgr)@.counted(syscall as nat).stats);
        old(task_mgr)@.lemma_counted_wf(syscall as nat);
    }
}

} // verus!

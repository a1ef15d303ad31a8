//! Per-task accounting: scheduled time and system-call counts.

use vstd::prelude::*;
use crate::config::MAX_SYSCALL_NUM;

verus! {

/// Mathematical model of one task's statistics.
pub struct StatView {
    /// Total clock ticks spent in closed scheduling windows.
    pub cpu_clocks: nat,
    /// Time at which the task was scheduled for the first time.
    pub first_scheduled: Option<nat>,
    /// Time at which the most recent scheduling window was opened.
    pub last_scheduled: Option<nat>,
    /// Number of invocations, indexed by system-call number.
    pub syscall_times: Seq<nat>,
}

/// Something that happens to the statistics of one task.
pub enum StatEvent {
    /// A scheduling window opens at the given time.
    Begin(nat),
    /// The open scheduling window is closed at the given time.
    End(nat),
    /// The task invokes the system call with the given number.
    Syscall(nat),
}

impl StatView {
    /// Statistics of a task that has not run yet.
    pub open spec fn fresh() -> StatView {
        StatView {
            cpu_clocks: 0,
            first_scheduled: None,
            last_scheduled: None,
            syscall_times: Seq::new(MAX_SYSCALL_NUM as nat, |i: int| 0nat),
        }
    }

    /// There is one counter per tracked system-call number.
    pub open spec fn wf(self) -> bool {
        self.syscall_times.len() == MAX_SYSCALL_NUM
    }

    /// The first scheduling time, once set, is not after the latest one, and
    /// both are set together.
    pub open spec fn ordered(self) -> bool {
        match (self.first_scheduled, self.last_scheduled) {
            (Some(first), Some(last)) => first <= last,
            (None, None) => true,
            _ => false,
        }
    }

    /// Statistics after a scheduling window is opened at time `now`.
    pub open spec fn begun(self, now: nat) -> StatView {
        if self.last_scheduled is None {
            StatView { first_scheduled: Some(now), last_scheduled: Some(now), ..self }
        } else {
            StatView { last_scheduled: Some(now), ..self }
        }
    }

    /// The clock reading `now` is not before the start of the latest window.
    pub open spec fn can_end(self, now: nat) -> bool {
        self.last_scheduled matches Some(last) ==> last <= now
    }

    /// Ticks that closing the window at time `now` adds to `cpu_clocks`.
    pub open spec fn window(self, now: nat) -> nat {
        match self.last_scheduled {
            Some(last) => if last <= now { (now - last) as nat } else { 0 },
            None => 0,
        }
    }

    /// Statistics after the scheduling window is closed at time `now`.
    pub open spec fn ended(self, now: nat) -> StatView {
        StatView { cpu_clocks: self.cpu_clocks + self.window(now), ..self }
    }

    /// Statistics after one more invocation of system call `syscall`.
    pub open spec fn counted(self, syscall: nat) -> StatView {
        if syscall < self.syscall_times.len() {
            StatView {
                syscall_times: self.syscall_times.update(
                    syscall as int,
                    self.syscall_times[syscall as int] + 1,
                ),
                ..self
            }
        } else {
            self
        }
    }

    /// Ticks elapsed at time `now` since the task was first scheduled.
    pub open spec fn real_time(self, now: nat) -> nat {
        match self.first_scheduled {
            Some(first) => if first <= now { (now - first) as nat } else { 0 },
            None => 0,
        }
    }

    /// The event is one that a running system produces in this state: the
    /// clock has not gone backward and the system-call number is tracked.
    pub open spec fn admits(self, event: StatEvent) -> bool {
        match event {
            StatEvent::Begin(now) => {
                &&& self.first_scheduled matches Some(first) ==> first <= now
                &&& self.last_scheduled matches Some(last) ==> last <= now
            },
            StatEvent::End(now) => self.can_end(now),
            StatEvent::Syscall(syscall) => syscall < self.syscall_times.len(),
        }
    }

    /// Statistics after one event.
    pub open spec fn applied(self, event: StatEvent) -> StatView {
        match event {
            StatEvent::Begin(now) => self.begun(now),
            StatEvent::End(now) => self.ended(now),
            StatEvent::Syscall(syscall) => self.counted(syscall),
        }
    }

    /// Statistics after a sequence of events, oldest first.
    pub open spec fn replayed(self, events: Seq<StatEvent>) -> StatView
        decreases events.len(),
    {
        if events.len() == 0 {
            self
        } else {
            self.replayed(events.drop_last()).applied(events.last())
        }
    }

    /// Every event of the sequence is admitted in the state it meets.
    pub open spec fn admits_all(self, events: Seq<StatEvent>) -> bool
        decreases events.len(),
    {
        events.len() > 0 ==> {
            &&& self.admits_all(events.drop_last())
            &&& self.replayed(events.drop_last()).admits(events.last())
        }
    }
}

/// Number of invocations of system call `syscall` among `events`.
pub open spec fn invocations(events: Seq<StatEvent>, syscall: nat) -> nat
    decreases events.len(),
{
    if events.len() == 0 {
        0
    } else {
        invocations(events.drop_last(), syscall) + if events.last() == StatEvent::Syscall(
            syscall,
        ) {
            1nat
        } else {
            0nat
        }
    }
}

/// The time of a clock reading that may be absent.
pub open spec fn reading(t: Option<usize>) -> Option<nat> {
    match t {
        Some(t) => Some(t as nat),
        None => None,
    }
}

/// Accounting record of one task.
#[derive(Clone, Copy, Debug)]
pub struct TaskStat {
    pub cpu_clocks: usize,
    pub first_scheduled: Option<usize>,
    pub last_scheduled: Option<usize>,
    pub syscall_times: [u32; MAX_SYSCALL_NUM],
}

impl View for TaskStat {
    type V = StatView;

    open spec fn view(&self) -> StatView {
        StatView {
            cpu_clocks: self.cpu_clocks as nat,
            first_scheduled: reading(self.first_scheduled),
            last_scheduled: reading(self.last_scheduled),
            syscall_times: Seq::new(
                MAX_SYSCALL_NUM as nat,
                |i: int| self.syscall_times[i] as nat,
            ),
        }
    }
}

impl TaskStat {
    /// Opens a scheduling window at time `now`. The first call also fixes
    /// the time at which the task was first scheduled.
    pub fn record_schedule_begin(&mut self, now: usize)
        ensures
            final(self)@ == old(self)@.begun(now as nat),
    {
        if self.last_scheduled.is_none() {
            self.first_scheduled = Some(now);
            self.last_scheduled = self.first_scheduled;
        } else {
            self.last_scheduled = Some(now);
        }
    }

    /// Closes the scheduling window at time `now` and adds its length to
    /// `cpu_clocks`. Without an open window nothing changes.
    pub fn record_schedule_end(&mut self, now: usize)
        requires
            old(self)@.can_end(now as nat),
            old(self)@.cpu_clocks + old(self)@.window(now as nat) <= usize::MAX,
        ensures
            final(self)@ == old(self)@.ended(now as nat),
    {
        if let Some(last_scheduled) = self.last_scheduled {
            self.cpu_clocks = self.cpu_clocks + (now - last_scheduled);
        }
    }

    /// Counts one invocation of system call `syscall`.
    pub fn record_syscall(&mut self, syscall: usize)
        requires
            syscall < MAX_SYSCALL_NUM,
            old(self)@.syscall_times[syscall as int] < u32::MAX,
        ensures
            final(self)@ == old(self)@.counted(syscall as nat),
    {
        self.syscall_times[syscall] += 1;
        assert(self@.syscall_times =~= old(self)@.counted(syscall as nat).syscall_times);
    }

    /// Ticks elapsed at time `now` since the task was first scheduled;
    /// zero for a task that has not been scheduled yet.
    pub fn real_time(&self, now: usize) -> (elapsed: usize)
        requires
            self@.first_scheduled matches Some(first) ==> first <= now,
        ensures
            elapsed == self@.real_time(now as nat),
    {
        if let Some(first_scheduled) = self.first_scheduled {
            now - first_scheduled
        } else {
            0
        }
    }
}

impl Default for TaskStat {
    fn default() -> (stat: Self)
        ensures
            stat@ == StatView::fresh(),
    {
        let stat = Self {
            cpu_clocks: 0,
            first_scheduled: None,
            last_scheduled: None,
            syscall_times: [0u32; MAX_SYSCALL_NUM],
        };
        assert(stat@.syscall_times =~= StatView::fresh().syscall_times);
        stat
    }
}

/// Scheduled time never shrinks: whatever events a task sees, its
/// `cpu_clocks` afterwards is at least what it was before.
pub proof fn lemma_cpu_clocks_never_decrease(stat: StatView, events: Seq<StatEvent>)
    ensures
        stat.replayed(events).cpu_clocks >= stat.cpu_clocks,
    decreases events.len(),
{
    if events.len() > 0 {
        lemma_cpu_clocks_never_decrease(stat, events.drop_last());
    }
}

/// Scheduled time grows only when a window is closed: opening a window and
/// counting a system call leave `cpu_clocks` as it is, and closing a window
/// adds exactly the window's length.
pub proof fn lemma_cpu_clocks_change_only_at_end(stat: StatView, event: StatEvent)
    ensures
        !(event is End) ==> stat.applied(event).cpu_clocks == stat.cpu_clocks,
        event matches StatEvent::End(now) ==> stat.applied(event).cpu_clocks == stat.cpu_clocks
            + stat.window(now),
{
}

/// With a clock that does not go backward, the first scheduling time is
/// never after the latest one, from the moment both are set.
pub proof fn lemma_schedule_times_stay_ordered(stat: StatView, events: Seq<StatEvent>)
    requires
        stat.ordered(),
        stat.admits_all(events),
    ensures
        stat.replayed(events).ordered(),
    decreases events.len(),
{
    if events.len() > 0 {
        lemma_schedule_times_stay_ordered(stat, events.drop_last());
    }
}

/// The number of counters never changes.
pub proof fn lemma_replay_keeps_counters(stat: StatView, events: Seq<StatEvent>)
    ensures
        stat.replayed(events).syscall_times.len() == stat.syscall_times.len(),
    decreases events.len(),
{
    if events.len() > 0 {
        lemma_replay_keeps_counters(stat, events.drop_last());
    }
}

/// Each counter grows by exactly the number of invocations of its own
/// system call: after any admitted events, the counter of `syscall` is its
/// old value plus the number of times `syscall` was invoked among them, so
/// invocations of other system calls leave it alone.
pub proof fn lemma_syscall_counts(stat: StatView, events: Seq<StatEvent>, syscall: nat)
    requires
        stat.admits_all(events),
        syscall < stat.syscall_times.len(),
    ensures
        stat.replayed(events).syscall_times[syscall as int] == stat.syscall_times[syscall as int]
            + invocations(events, syscall),
    decreases events.len(),
{
    if events.len() > 0 {
        lemma_syscall_counts(stat, events.drop_last(), syscall);
        lemma_replay_keeps_counters(stat, events.drop_last());
    }
}

/// A sequence that consists of `k` invocations of one system call.
pub open spec fn repeated(syscall: nat, k: nat) -> Seq<StatEvent> {
    Seq::new(k, |i: int| StatEvent::Syscall(syscall))
}

/// Invoking system call `syscall` exactly `k` times on a fresh task leaves
/// its counter at `k` and every other counter at zero.
pub proof fn lemma_k_invocations_count_k(syscall: nat, k: nat, other: nat)
    requires
        syscall < MAX_SYSCALL_NUM,
        other < MAX_SYSCALL_NUM,
        other != syscall,
    ensures
        StatView::fresh().admits_all(repeated(syscall, k)),
        StatView::fresh().replayed(repeated(syscall, k)).syscall_times[syscall as int] == k,
        StatView::fresh().replayed(repeated(syscall, k)).syscall_times[other as int] == 0,
{
    let fresh = StatView::fresh();
    lemma_repeated(fresh, syscall, k, other);
    lemma_syscall_counts(fresh, repeated(syscall, k), syscall);
    lemma_syscall_counts(fresh, repeated(syscall, k), other);
}

proof fn lemma_repeated(stat: StatView, syscall: nat, k: nat, other: nat)
    requires
        syscall < stat.syscall_times.len(),
        other != syscall,
    ensures
        stat.admits_all(repeated(syscall, k)),
        invocations(repeated(syscall, k), syscall) == k,
        invocations(repeated(syscall, k), other) == 0,
    decreases k,
{
    if k > 0 {
        let shorter = (k - 1) as nat;
        lemma_repeated(stat, syscall, shorter, other);
        assert(repeated(syscall, k).drop_last() =~= repeated(syscall, shorter));
        lemma_replay_keeps_counters(stat, repeated(syscall, shorter));
    }
}

} // verus!

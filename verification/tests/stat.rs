use os3::config::MAX_SYSCALL_NUM;
use os3::stat::TaskStat;

#[test]
fn default_stat_is_empty() {
    let stat = TaskStat::default();
    assert_eq!(stat.cpu_clocks, 0);
    assert_eq!(stat.first_scheduled, None);
    assert_eq!(stat.last_scheduled, None);
    assert_eq!(stat.syscall_times.len(), MAX_SYSCALL_NUM);
    assert!(stat.syscall_times.iter().all(|count| *count == 0));
}

#[test]
fn first_begin_sets_first_and_last() {
    let mut stat = TaskStat::default();
    stat.record_schedule_begin(10);
    assert_eq!(stat.first_scheduled, Some(10));
    assert_eq!(stat.last_scheduled, Some(10));
    assert_eq!(stat.cpu_clocks, 0);
}

#[test]
fn later_begin_moves_last_only() {
    let mut stat = TaskStat::default();
    stat.record_schedule_begin(10);
    stat.record_schedule_begin(30);
    assert_eq!(stat.first_scheduled, Some(10));
    assert_eq!(stat.last_scheduled, Some(30));
}

#[test]
fn end_adds_the_window() {
    let mut stat = TaskStat::default();
    stat.record_schedule_begin(10);
    stat.record_schedule_end(25);
    assert_eq!(stat.cpu_clocks, 15);
    assert_eq!(stat.last_scheduled, Some(10));
    stat.record_schedule_begin(30);
    stat.record_schedule_end(42);
    assert_eq!(stat.cpu_clocks, 27);
    assert_eq!(stat.first_scheduled, Some(10));
    assert_eq!(stat.last_scheduled, Some(30));
}

#[test]
fn end_at_the_same_tick_adds_nothing() {
    let mut stat = TaskStat::default();
    stat.record_schedule_begin(7);
    stat.record_schedule_end(7);
    assert_eq!(stat.cpu_clocks, 0);
}

#[test]
fn end_without_window_changes_nothing() {
    let mut stat = TaskStat::default();
    stat.record_schedule_end(99);
    assert_eq!(stat.cpu_clocks, 0);
    assert_eq!(stat.first_scheduled, None);
    assert_eq!(stat.last_scheduled, None);
}

#[test]
fn real_time_counts_from_first_schedule() {
    let mut stat = TaskStat::default();
    assert_eq!(stat.real_time(1234), 0);
    stat.record_schedule_begin(10);
    stat.record_schedule_end(20);
    stat.record_schedule_begin(35);
    assert_eq!(stat.real_time(40), 30);
    assert_eq!(stat.real_time(10), 0);
}

#[test]
fn syscall_invoked_k_times_reads_k() {
    let mut stat = TaskStat::default();
    for _ in 0..5 {
        stat.record_syscall(64);
    }
    for (number, count) in stat.syscall_times.iter().enumerate() {
        assert_eq!(*count, if number == 64 { 5 } else { 0 });
    }
    assert_eq!(stat.cpu_clocks, 0);
    assert_eq!(stat.first_scheduled, None);
}

#[test]
fn syscall_counters_are_independent() {
    let mut stat = TaskStat::default();
    stat.record_syscall(0);
    stat.record_syscall(MAX_SYSCALL_NUM - 1);
    stat.record_syscall(MAX_SYSCALL_NUM - 1);
    assert_eq!(stat.syscall_times[0], 1);
    assert_eq!(stat.syscall_times[MAX_SYSCALL_NUM - 1], 2);
    assert_eq!(stat.syscall_times[1], 0);
}

#[test]
fn cpu_clocks_never_decrease() {
    let mut stat = TaskStat::default();
    let mut seen = stat.cpu_clocks;
    let mut now = 100;
    for round in 0..20 {
        stat.record_schedule_begin(now);
        assert_eq!(stat.cpu_clocks, seen);
        stat.record_syscall(round);
        assert_eq!(stat.cpu_clocks, seen);
        now += round * 3;
        stat.record_schedule_end(now);
        assert_eq!(stat.cpu_clocks, seen + round * 3);
        assert!(stat.cpu_clocks >= seen);
        seen = stat.cpu_clocks;
        now += 11;
    }
    assert_eq!(seen, 570);
}

#[test]
fn first_schedule_is_never_after_last() {
    let mut stat = TaskStat::default();
    for now in [5, 5, 9, 100, 1000] {
        stat.record_schedule_begin(now);
        assert!(stat.first_scheduled.unwrap() <= stat.last_scheduled.unwrap());
        stat.record_schedule_end(now + 1);
        assert!(stat.first_scheduled.unwrap() <= stat.last_scheduled.unwrap());
    }
    assert_eq!(stat.first_scheduled, Some(5));
    assert_eq!(stat.last_scheduled, Some(1000));
}

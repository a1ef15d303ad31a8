use os3::config::MAX_TASK_NUM;
use os3::context::TaskStatus;
use os3::model::{Decision, Dispatch};
use os3::task::{
    exit_and_run_next, record_syscall, run_first_task, run_next_task, set_next_trigger,
    TaskManager,
};

const FREQ: usize = 12_500_000;
const QUANTUM: usize = 125_000;

fn kernel_stacks() -> [usize; MAX_TASK_NUM] {
    let mut sp = [0usize; MAX_TASK_NUM];
    for (task, top) in sp.iter_mut().enumerate() {
        *top = 0x9000_0000 + (task + 1) * 0x2000;
    }
    sp
}

fn manager_of(table: &'static [usize]) -> TaskManager {
    TaskManager::new(table, &kernel_stacks(), 0x8020_0000).unwrap().0
}

fn running(manager: &TaskManager) -> usize {
    (0..MAX_TASK_NUM).filter(|task| manager.tcb(*task).status == TaskStatus::Running).count()
}

fn switched_to(action: Dispatch) -> usize {
    match action {
        Dispatch::Switch { to, .. } => to,
        other => panic!("no switch: {:?}", other),
    }
}

#[test]
fn three_tasks_rotate_and_an_exited_one_is_skipped() {
    let mut manager = manager_of(&[0x1000, 0x2000, 0x3000, 0x4000]);
    assert_eq!(manager.current_task(), 0);
    assert_eq!(manager.find_next_task(), Some(1));
    assert_eq!(run_first_task(&mut manager, 0, FREQ), Dispatch::Start { to: 0, deadline: QUANTUM });
    let mut now = 0;
    for expected in [1, 2, 0, 1, 2, 0, 1] {
        now += 10;
        assert_eq!(manager.find_next_task(), Some(expected));
        assert_eq!(switched_to(run_next_task(&mut manager, now, FREQ)), expected);
        assert_eq!(manager.current_task(), expected);
    }
    now += 10;
    assert_eq!(
        exit_and_run_next(&mut manager, now, FREQ),
        Dispatch::Switch { from: 1, to: 2, deadline: now + QUANTUM }
    );
    now += 10;
    assert_eq!(switched_to(run_next_task(&mut manager, now, FREQ)), 0);
    assert_eq!(manager.current_task(), 0);
    for expected in [2, 0, 2, 0] {
        now += 10;
        assert_eq!(manager.find_next_task(), Some(expected));
        assert_eq!(switched_to(run_next_task(&mut manager, now, FREQ)), expected);
        assert_eq!(manager.tcb(1).status, TaskStatus::Exited);
    }
}

#[test]
fn single_running_task_keeps_running() {
    let mut manager = manager_of(&[0x1000, 0x2000]);
    run_first_task(&mut manager, 3, FREQ);
    assert_eq!(manager.current_task(), 0);
    assert_eq!(manager.current_tcb().status, TaskStatus::Running);
    assert_eq!(manager.find_next_task(), Some(0));
    assert_eq!(manager.find_next_task_or_exit(), Decision::Run(0));
    assert_eq!(
        run_next_task(&mut manager, 50, FREQ),
        Dispatch::Switch { from: 0, to: 0, deadline: 50 + QUANTUM }
    );
    assert_eq!(manager.current_tcb().status, TaskStatus::Running);
    assert_eq!(manager.current_stat().cpu_clocks, 47);
    assert_eq!(manager.current_stat().first_scheduled, Some(3));
    assert_eq!(manager.current_stat().last_scheduled, Some(50));
}

#[test]
fn all_tasks_exited_means_shutdown() {
    let mut manager = manager_of(&[0x1000, 0x2000, 0x3000]);
    run_first_task(&mut manager, 0, FREQ);
    assert_eq!(switched_to(exit_and_run_next(&mut manager, 5, FREQ)), 1);
    assert_eq!(exit_and_run_next(&mut manager, 9, FREQ), Dispatch::Shutdown);
    assert_eq!(manager.tcb(0).status, TaskStatus::Exited);
    assert_eq!(manager.tcb(1).status, TaskStatus::Exited);
    assert_eq!(manager.find_next_task(), None);
    assert_eq!(manager.find_next_task_or_exit(), Decision::Shutdown);
    assert_eq!(run_next_task(&mut manager, 20, FREQ), Dispatch::Shutdown);
    assert_eq!(manager.current_task(), 1);
    assert_eq!(manager.stat(1).cpu_clocks, 0);
}

#[test]
fn no_task_at_all_means_shutdown() {
    let mut manager = manager_of(&[0x1000]);
    assert_eq!(manager.num_app(), 0);
    assert_eq!(manager.find_next_task(), None);
    assert_eq!(manager.find_next_task_or_exit(), Decision::Shutdown);
    assert_eq!(run_first_task(&mut manager, 0, FREQ), Dispatch::Shutdown);
    assert_eq!(run_next_task(&mut manager, 1, FREQ), Dispatch::Shutdown);
    assert_eq!(manager.tcb(0).status, TaskStatus::UnInit);
}

#[test]
fn round_robin_visits_every_task_in_turn() {
    let mut manager = manager_of(&[10, 20, 30, 40, 50, 60]);
    let n = 5;
    run_first_task(&mut manager, 0, FREQ);
    let start = manager.current_task();
    for k in 1..=23 {
        let to = switched_to(run_next_task(&mut manager, k, FREQ));
        assert_eq!(to, (start + k) % n);
    }
}

#[test]
fn at_most_one_task_runs() {
    let mut manager = manager_of(&[1, 2, 3, 4, 5]);
    assert_eq!(running(&manager), 0);
    run_first_task(&mut manager, 0, FREQ);
    assert_eq!(running(&manager), 1);
    for now in 1..10 {
        run_next_task(&mut manager, now, FREQ);
        assert_eq!(running(&manager), 1);
        assert_eq!(manager.current_tcb().status, TaskStatus::Running);
    }
    exit_and_run_next(&mut manager, 10, FREQ);
    assert_eq!(running(&manager), 1);
    manager.mark_current_exited();
    assert_eq!(running(&manager), 0);
    run_next_task(&mut manager, 11, FREQ);
    assert_eq!(running(&manager), 1);
    exit_and_run_next(&mut manager, 12, FREQ);
    assert_eq!(exit_and_run_next(&mut manager, 13, FREQ), Dispatch::Shutdown);
    assert_eq!(running(&manager), 0);
}

#[test]
fn exited_task_stays_exited() {
    let mut manager = manager_of(&[1, 2, 3, 4]);
    run_first_task(&mut manager, 0, FREQ);
    exit_and_run_next(&mut manager, 1, FREQ);
    assert_eq!(manager.tcb(0).status, TaskStatus::Exited);
    for now in 2..12 {
        let to = switched_to(run_next_task(&mut manager, now, FREQ));
        assert_ne!(to, 0);
        record_syscall(&mut manager, 7);
        assert_eq!(manager.tcb(0).status, TaskStatus::Exited);
    }
    assert_eq!(manager.stat(0).cpu_clocks, 1);
}

#[test]
fn move_to_next_task_keeps_the_books() {
    let mut manager = manager_of(&[1, 2, 3]);
    assert_eq!(manager.move_to_next_task(0, 100), (0, 0));
    assert_eq!(manager.tcb(0).status, TaskStatus::Running);
    assert_eq!(manager.stat(0).first_scheduled, Some(100));
    assert_eq!(manager.stat(0).cpu_clocks, 0);
    assert_eq!(manager.move_to_next_task(1, 130), (0, 1));
    assert_eq!(manager.current_task(), 1);
    assert_eq!(manager.tcb(0).status, TaskStatus::Ready);
    assert_eq!(manager.tcb(1).status, TaskStatus::Running);
    assert_eq!(manager.stat(0).cpu_clocks, 30);
    assert_eq!(manager.stat(0).last_scheduled, Some(100));
    assert_eq!(manager.stat(1).first_scheduled, Some(130));
    assert_eq!(manager.stat(1).last_scheduled, Some(130));
    assert_eq!(manager.stat(1).cpu_clocks, 0);
    manager.mark_current_exited();
    assert_eq!(manager.move_to_next_task(0, 150), (1, 0));
    assert_eq!(manager.tcb(1).status, TaskStatus::Exited);
    assert_eq!(manager.stat(1).cpu_clocks, 20);
    assert_eq!(manager.stat(0).first_scheduled, Some(100));
    assert_eq!(manager.stat(0).last_scheduled, Some(150));
}

#[test]
fn syscalls_are_counted_for_the_current_task_only() {
    let mut manager = manager_of(&[1, 2, 3]);
    run_first_task(&mut manager, 0, FREQ);
    for _ in 0..4 {
        record_syscall(&mut manager, 93);
    }
    run_next_task(&mut manager, 1, FREQ);
    record_syscall(&mut manager, 64);
    assert_eq!(manager.stat(0).syscall_times[93], 4);
    assert_eq!(manager.stat(0).syscall_times[64], 0);
    assert_eq!(manager.stat(1).syscall_times[93], 0);
    assert_eq!(manager.stat(1).syscall_times[64], 1);
    assert_eq!(manager.current_stat().syscall_times[64], 1);
    let total: u32 = (0..MAX_TASK_NUM)
        .map(|task| manager.stat(task).syscall_times.iter().sum::<u32>())
        .sum();
    assert_eq!(total, 5);
}

#[test]
fn next_trigger_is_one_quantum_ahead() {
    assert_eq!(set_next_trigger(1000, 12_500_000), 126_000);
    assert_eq!(set_next_trigger(0, 99), 0);
    assert_eq!(set_next_trigger(7, 250), 9);
    assert_eq!(set_next_trigger(usize::MAX - 1, 100), usize::MAX);
}

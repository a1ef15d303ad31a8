use os3::config::MAX_TASK_NUM;
use os3::context::TaskStatus;
use os3::model::Dispatch;
use os3::task::{run_first_task, TaskManager};
use os3::trap::{handle_trap, TrapAction, TrapCause};

fn booted(table: &'static [usize]) -> TaskManager {
    let mut manager = TaskManager::new(table, &[0usize; MAX_TASK_NUM], 0).unwrap().0;
    run_first_task(&mut manager, 0, 1000);
    manager
}

#[test]
fn syscall_trap_counts_and_stays() {
    let mut manager = booted(&[1, 2, 3]);
    assert_eq!(handle_trap(&mut manager, TrapCause::Syscall(169), 5, 1000), TrapAction::Serve(169));
    assert_eq!(handle_trap(&mut manager, TrapCause::Syscall(169), 6, 1000), TrapAction::Serve(169));
    assert_eq!(manager.current_task(), 0);
    assert_eq!(manager.current_tcb().status, TaskStatus::Running);
    assert_eq!(manager.current_stat().syscall_times[169], 2);
    assert_eq!(manager.current_stat().cpu_clocks, 0);
}

#[test]
fn timer_trap_switches_to_the_next_task() {
    let mut manager = booted(&[1, 2, 3]);
    assert_eq!(
        handle_trap(&mut manager, TrapCause::Timer, 40, 1000),
        TrapAction::Reschedule(Dispatch::Switch { from: 0, to: 1, deadline: 50 })
    );
    assert_eq!(manager.tcb(0).status, TaskStatus::Ready);
    assert_eq!(manager.tcb(1).status, TaskStatus::Running);
    assert_eq!(manager.stat(0).cpu_clocks, 40);
}

#[test]
fn fault_trap_ends_the_task() {
    let mut manager = booted(&[1, 2, 3]);
    assert_eq!(
        handle_trap(&mut manager, TrapCause::Fault, 40, 1000),
        TrapAction::Reschedule(Dispatch::Switch { from: 0, to: 1, deadline: 50 })
    );
    assert_eq!(manager.tcb(0).status, TaskStatus::Exited);
    assert_eq!(
        handle_trap(&mut manager, TrapCause::Timer, 60, 1000),
        TrapAction::Reschedule(Dispatch::Switch { from: 1, to: 1, deadline: 70 })
    );
    assert_eq!(
        handle_trap(&mut manager, TrapCause::Fault, 80, 1000),
        TrapAction::Reschedule(Dispatch::Shutdown)
    );
    assert_eq!(manager.tcb(1).status, TaskStatus::Exited);
}

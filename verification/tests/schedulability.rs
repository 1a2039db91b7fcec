use rtsched::scheduler::edf_scheduler::EDFScheduler;
use rtsched::scheduler::lst_scheduler::LSTScheduler;
use rtsched::scheduler::rm_scheduler::RMScheduler;
use rtsched::scheduler::scheduler::Scheduler;
use rtsched::structs::task::PeriodicTask;

fn ptask(task_id: usize, phase: usize, period: usize, deadline: usize, wcet: usize) -> PeriodicTask {
    PeriodicTask {
        task_id,
        phase,
        period,
        worst_case_execution_time: wcet,
        relative_deadline: deadline,
    }
}

#[test]
fn rm_accepts_low_utilization() {
    // U = 1/4 + 2/6 = 7/12, below the two-task bound 2*(sqrt(2)-1).
    let tasks = vec![ptask(1, 0, 4, 4, 1), ptask(2, 0, 6, 6, 2)];
    assert_eq!(RMScheduler.schedulability_test(&tasks), Some(true));
}

#[test]
fn rm_rejects_just_above_bound() {
    // U = 3 * 13/50 = 0.78, just above the three-task bound ~0.7798.
    let tasks = vec![
        ptask(1, 0, 50, 50, 13),
        ptask(2, 0, 50, 50, 13),
        ptask(3, 0, 50, 50, 13),
    ];
    assert_eq!(RMScheduler.schedulability_test(&tasks), Some(false));
}

#[test]
fn rm_accepts_just_below_bound() {
    // U = 3 * 12/50 = 0.72, below the three-task bound ~0.7798.
    let tasks = vec![
        ptask(1, 0, 50, 50, 12),
        ptask(2, 0, 50, 50, 12),
        ptask(3, 0, 50, 50, 12),
    ];
    assert_eq!(RMScheduler.schedulability_test(&tasks), Some(true));
}

#[test]
fn rm_single_task_bound_is_one() {
    // For one task the Liu-Layland bound is exactly 1.
    assert_eq!(
        RMScheduler.schedulability_test(&vec![ptask(1, 0, 4, 4, 4)]),
        Some(true)
    );
    assert_eq!(
        RMScheduler.schedulability_test(&vec![ptask(1, 0, 4, 4, 5)]),
        Some(false)
    );
}

#[test]
fn rm_uses_min_of_period_and_deadline() {
    // One task, wcet 3: against min(5, 3) = 3 the utilization is exactly 1.
    assert_eq!(
        RMScheduler.schedulability_test(&vec![ptask(1, 0, 5, 3, 3)]),
        Some(true)
    );
    // wcet 4 makes it 4/3 > 1.
    assert_eq!(
        RMScheduler.schedulability_test(&vec![ptask(1, 0, 5, 3, 4)]),
        Some(false)
    );
}

#[test]
fn edf_accepts_utilization_exactly_one() {
    let tasks = vec![ptask(1, 0, 2, 2, 1), ptask(2, 0, 2, 2, 1)];
    assert_eq!(EDFScheduler.schedulability_test(&tasks), Some(true));
}

#[test]
fn edf_rejects_utilization_above_one() {
    // U = 1/2 + 1/2 + 1/4 = 1.25: the sum must gate the verdict.
    let tasks = vec![ptask(1, 0, 2, 2, 1), ptask(2, 0, 2, 2, 1), ptask(3, 0, 4, 4, 1)];
    assert_eq!(EDFScheduler.schedulability_test(&tasks), Some(false));
}

#[test]
fn edf_uses_min_of_period_and_deadline() {
    // Deadline 2 is stricter than period 10: U = 2/2 = 1 passes,
    // U = 3/2 fails even though 3/10 would pass.
    assert_eq!(
        EDFScheduler.schedulability_test(&vec![ptask(1, 0, 10, 2, 2)]),
        Some(true)
    );
    assert_eq!(
        EDFScheduler.schedulability_test(&vec![ptask(1, 0, 10, 2, 3)]),
        Some(false)
    );
}

#[test]
fn lst_has_no_static_test() {
    // Least-slack-time admits even a grossly overloaded set.
    let tasks = vec![ptask(1, 0, 2, 2, 2), ptask(2, 0, 2, 2, 2)];
    assert_eq!(LSTScheduler.schedulability_test(&tasks), Some(true));
}

#[test]
fn scheduler_names() {
    assert_eq!(RMScheduler.name(), "RMScheduler");
    assert_eq!(EDFScheduler.name(), "EDFScheduler");
    assert_eq!(LSTScheduler.name(), "LSTScheduler");
}

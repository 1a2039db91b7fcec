use rtsched::structs::job::{job_slack, Job};
use rtsched::structs::task::{
    get_aperiodic_tasks, get_periodic_tasks, AperiodicTask, PeriodicTask, Task, TaskTrait,
};
use rtsched::structs::tick_info::TickInfo;
use rtsched::utils::{gcd, lcm, lcm_of_periods, max_phase};

fn period_task(task_id: usize, phase: usize, period: usize) -> PeriodicTask {
    PeriodicTask {
        task_id,
        phase,
        period,
        worst_case_execution_time: 1,
        relative_deadline: period,
    }
}

#[test]
fn gcd_values() {
    assert_eq!(gcd(12, 18), 6);
    assert_eq!(gcd(18, 12), 6);
    assert_eq!(gcd(7, 13), 1);
    assert_eq!(gcd(0, 5), 5);
    assert_eq!(gcd(5, 0), 5);
    assert_eq!(gcd(42, 42), 42);
}

#[test]
fn lcm_values() {
    assert_eq!(lcm(4, 6), 12);
    assert_eq!(lcm(1, 9), 9);
    assert_eq!(lcm(0, 3), 0);
    assert_eq!(lcm(5, 7), 35);
}

#[test]
fn max_phase_values() {
    assert_eq!(max_phase(&Vec::new()), 0);
    let tasks = vec![period_task(1, 3, 4), period_task(2, 0, 6), period_task(3, 2, 8)];
    assert_eq!(max_phase(&tasks), 3);
}

#[test]
fn lcm_of_periods_values() {
    let tasks = vec![period_task(1, 0, 4), period_task(2, 0, 6), period_task(3, 0, 10)];
    assert_eq!(lcm_of_periods(&tasks), 60);
    assert_eq!(lcm_of_periods(&Vec::new()), 1);
}

#[test]
fn slack_can_be_negative() {
    let job = Job {
        release_time: 0,
        remaining_execution_time: 4,
        absolute_deadline: 3,
        task_id: 1,
    };
    assert_eq!(job_slack(&job, 0), -1);
    let job2 = Job {
        release_time: 0,
        remaining_execution_time: 1,
        absolute_deadline: 5,
        task_id: 1,
    };
    assert_eq!(job_slack(&job2, 2), 2);
}

#[test]
fn task_trait_accessors() {
    let p = PeriodicTask {
        task_id: 3,
        phase: 1,
        period: 8,
        worst_case_execution_time: 2,
        relative_deadline: 6,
    };
    assert_eq!(p.task_id(), 3);
    assert_eq!(p.worst_case_execution_time(), 2);
    assert_eq!(p.relative_deadline(), 6);
    assert!(!p.is_aperiodic());

    let a = AperiodicTask {
        task_id: 4,
        arrival_time: 9,
        worst_case_execution_time: 3,
        relative_deadline: 5,
    };
    assert_eq!(a.task_id(), 4);
    assert_eq!(a.worst_case_execution_time(), 3);
    assert_eq!(a.relative_deadline(), 5);
    assert!(a.is_aperiodic());
}

#[test]
fn splitting_a_mixed_task_set() {
    let p1 = period_task(1, 0, 4);
    let p2 = period_task(3, 1, 6);
    let a1 = AperiodicTask {
        task_id: 2,
        arrival_time: 5,
        worst_case_execution_time: 1,
        relative_deadline: 1,
    };
    let mixed = vec![Task::Periodic(p1), Task::Aperiodic(a1), Task::Periodic(p2)];
    assert_eq!(get_periodic_tasks(mixed.clone()), vec![p1, p2]);
    assert_eq!(get_aperiodic_tasks(mixed), vec![a1]);
}

#[test]
fn tick_info_equality() {
    let a = TickInfo { t: 1, running: Some(2), arrival: vec![2], dead: vec![] };
    let b = TickInfo { t: 1, running: Some(2), arrival: vec![2], dead: vec![] };
    let c = TickInfo { t: 1, running: None, arrival: vec![2], dead: vec![] };
    assert_eq!(a, b);
    assert_ne!(a, c);
}

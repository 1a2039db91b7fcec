use rtsched::engine::{simulate, simulate_scheduler, ConfigError};
use rtsched::scheduler::rm_scheduler::RMScheduler;
use rtsched::scheduler::scheduler::Policy;
use rtsched::structs::task::PeriodicTask;

fn mk_task(task_id: usize, phase: usize, period: usize, deadline: usize, wcet: usize) -> PeriodicTask {
    PeriodicTask {
        task_id,
        phase,
        period,
        worst_case_execution_time: wcet,
        relative_deadline: deadline,
    }
}

#[test]
fn rm_two_task_hyperperiod_scenario() {
    // T1 = (phase 0, period 4, deadline 4, wcet 1),
    // T2 = (phase 0, period 6, deadline 6, wcet 2); horizon lcm(4,6) = 12.
    let tasks = vec![mk_task(1, 0, 4, 4, 1), mk_task(2, 0, 6, 6, 2)];
    let run = simulate(Policy::RateMonotonic, &tasks).unwrap();
    assert!(run.schedulable);
    assert_eq!(run.trace.len(), 12);
    let running: Vec<Option<usize>> = run.trace.iter().map(|t| t.running).collect();
    // T1 preempts T2 on every shared arrival tick (0, 4, 8).
    assert_eq!(
        running,
        vec![
            Some(1),
            Some(2),
            Some(2),
            None,
            Some(1),
            None,
            Some(2),
            Some(2),
            Some(1),
            None,
            None,
            None
        ]
    );
    assert_eq!(run.trace[0].arrival, vec![1, 2]);
    assert_eq!(run.trace[4].arrival, vec![1]);
    assert_eq!(run.trace[6].arrival, vec![2]);
    assert_eq!(run.trace[8].arrival, vec![1]);
    for tick in &run.trace {
        assert_eq!(tick.dead, Vec::<usize>::new());
    }
    for (i, tick) in run.trace.iter().enumerate() {
        assert_eq!(tick.t, i);
    }
    assert_eq!(run.total_jobs, 5);
    assert_eq!(run.missed_jobs, 0);
}

#[test]
fn edf_overload_reports_unschedulable_with_empty_trace() {
    // U = 1.25 > 1: no simulation, empty trace, zero jobs.
    let tasks = vec![
        mk_task(1, 0, 2, 2, 1),
        mk_task(2, 0, 2, 2, 1),
        mk_task(3, 0, 4, 4, 1),
    ];
    let run = simulate(Policy::EarliestDeadlineFirst, &tasks).unwrap();
    assert!(!run.schedulable);
    assert_eq!(run.trace.len(), 0);
    assert_eq!(run.total_jobs, 0);
    assert_eq!(run.missed_jobs, 0);
}

#[test]
fn single_infeasible_task_misses_first_instance() {
    // wcet 4 exceeds deadline 3: the first job is doomed. Only
    // least-slack-time simulates (the static tests of the other two policies
    // already reject the set), and it records the miss on tick 1.
    let tasks = vec![mk_task(1, 0, 5, 3, 4)];
    let run = simulate(Policy::LeastSlackTime, &tasks).unwrap();
    assert!(run.schedulable);
    assert_eq!(run.trace.len(), 5);
    assert_eq!(run.trace[0].running, Some(1));
    assert_eq!(run.trace[0].arrival, vec![1]);
    assert_eq!(run.trace[1].running, None);
    assert_eq!(run.trace[1].dead, vec![1]);
    assert_eq!(run.trace[2].running, None);
    assert_eq!(run.trace[3].running, None);
    assert_eq!(run.trace[4].running, None);
    assert_eq!(run.total_jobs, 1);
    assert_eq!(run.missed_jobs, 1);

    let rm_run = simulate(Policy::RateMonotonic, &tasks).unwrap();
    assert!(!rm_run.schedulable);
    let edf_run = simulate(Policy::EarliestDeadlineFirst, &tasks).unwrap();
    assert!(!edf_run.schedulable);
}

#[test]
fn rerun_is_deterministic() {
    let tasks = vec![mk_task(1, 0, 4, 4, 2), mk_task(2, 1, 6, 5, 2)];
    for policy in [
        Policy::RateMonotonic,
        Policy::EarliestDeadlineFirst,
        Policy::LeastSlackTime,
    ] {
        let first = simulate(policy, &tasks);
        let second = simulate(policy, &tasks);
        assert_eq!(first, second);
    }
}

#[test]
fn rm_tie_on_period_broken_by_task_id() {
    // Equal periods: the smaller task id runs first.
    let tasks = vec![mk_task(1, 0, 4, 4, 1), mk_task(2, 0, 4, 4, 1)];
    let run = simulate(Policy::RateMonotonic, &tasks).unwrap();
    assert_eq!(run.trace[0].running, Some(1));
    assert_eq!(run.trace[1].running, Some(2));
    assert_eq!(run.missed_jobs, 0);
}

#[test]
fn edf_orders_by_absolute_deadline() {
    // The later task id has the earlier deadline and runs first.
    let tasks = vec![mk_task(1, 0, 8, 8, 1), mk_task(2, 0, 4, 4, 1)];
    let run = simulate(Policy::EarliestDeadlineFirst, &tasks).unwrap();
    assert_eq!(run.trace[0].running, Some(2));
    assert_eq!(run.trace[1].running, Some(1));
}

#[test]
fn lst_orders_by_slack() {
    // Slacks at tick 0: task 1 has 10 - 5 = 5, task 2 has 6 - 2 = 4.
    let tasks = vec![mk_task(1, 0, 10, 10, 5), mk_task(2, 0, 10, 6, 2)];
    let run = simulate(Policy::LeastSlackTime, &tasks).unwrap();
    assert_eq!(run.trace[0].running, Some(2));
    assert_eq!(run.missed_jobs, 0);
}

#[test]
fn phase_delays_first_release() {
    let tasks = vec![mk_task(1, 2, 4, 4, 1)];
    let run = simulate(Policy::RateMonotonic, &tasks).unwrap();
    // Horizon is lcm + max phase = 4 + 2 = 6; the only release is at tick 2.
    assert_eq!(run.trace.len(), 6);
    let running: Vec<Option<usize>> = run.trace.iter().map(|t| t.running).collect();
    assert_eq!(running, vec![None, None, Some(1), None, None, None]);
    assert_eq!(run.trace[2].arrival, vec![1]);
    assert_eq!(run.total_jobs, 1);
}

#[test]
fn empty_task_set_is_a_configuration_error() {
    let tasks: Vec<PeriodicTask> = Vec::new();
    assert_eq!(
        simulate(Policy::RateMonotonic, &tasks),
        Err(ConfigError::EmptyTaskSet)
    );
}

#[test]
fn zero_period_is_a_configuration_error() {
    let tasks = vec![mk_task(1, 0, 0, 4, 1)];
    assert_eq!(
        simulate(Policy::RateMonotonic, &tasks),
        Err(ConfigError::InvalidTask)
    );
}

#[test]
fn zero_execution_time_is_a_configuration_error() {
    let tasks = vec![mk_task(1, 0, 4, 4, 0)];
    assert_eq!(
        simulate(Policy::EarliestDeadlineFirst, &tasks),
        Err(ConfigError::InvalidTask)
    );
}

#[test]
fn zero_deadline_is_a_configuration_error() {
    let tasks = vec![mk_task(1, 0, 4, 0, 1)];
    assert_eq!(
        simulate(Policy::LeastSlackTime, &tasks),
        Err(ConfigError::InvalidTask)
    );
}

#[test]
fn non_positional_task_id_is_a_configuration_error() {
    let tasks = vec![mk_task(7, 0, 4, 4, 1)];
    assert_eq!(
        simulate(Policy::RateMonotonic, &tasks),
        Err(ConfigError::InvalidTask)
    );
}

#[test]
fn hyperperiod_overflow_is_reported() {
    let tasks = vec![
        mk_task(1, 0, usize::MAX, 1, 1),
        mk_task(2, 0, usize::MAX - 1, 1, 1),
    ];
    assert_eq!(
        simulate(Policy::LeastSlackTime, &tasks),
        Err(ConfigError::ArithmeticOverflow)
    );
}

#[test]
fn horizon_overflow_is_reported() {
    // lcm is 1 but the phase pushes the horizon past usize::MAX.
    let tasks = vec![mk_task(1, usize::MAX, 1, 1, 1)];
    assert_eq!(
        simulate(Policy::LeastSlackTime, &tasks),
        Err(ConfigError::ArithmeticOverflow)
    );
}

#[test]
fn simulate_scheduler_matches_simulate() {
    let tasks = vec![mk_task(1, 0, 4, 4, 1), mk_task(2, 0, 6, 6, 2)];
    assert_eq!(
        simulate_scheduler(&RMScheduler, &tasks),
        simulate(Policy::RateMonotonic, &tasks)
    );
}

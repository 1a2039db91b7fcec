use vstd::prelude::*;

use crate::scheduler::ordering::sort_ready_queue_by;
use crate::scheduler::scheduler::{Policy, Scheduler};
use crate::scheduler::utilization::edf_schedulability_test;
use crate::structs::job::Job;
use crate::structs::task::PeriodicTask;

verus! {

/// Earliest-deadline-first scheduling: dynamic priorities by absolute job
/// deadline, with total utilization at most 1 as the static test.
pub struct EDFScheduler;

impl Scheduler for EDFScheduler {
    open spec fn policy(&self) -> Policy {
        Policy::EarliestDeadlineFirst
    }

    fn policy_id(&self) -> (p: Policy) {
        Policy::EarliestDeadlineFirst
    }

    fn name(&self) -> (r: &'static str) {
        "EDFScheduler"
    }

    fn schedulability_test(&self, tasks: &Vec<PeriodicTask>) -> (r: Option<bool>) {
        edf_schedulability_test(tasks)
    }

    fn sort_ready_queue(&self, queue: &mut Vec<Job>, tasks: &Vec<PeriodicTask>, current_time: usize) {
        sort_ready_queue_by(Policy::EarliestDeadlineFirst, queue, tasks, current_time)
    }
}

} // verus!

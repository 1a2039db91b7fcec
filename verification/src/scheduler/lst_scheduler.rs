use vstd::prelude::*;

use crate::scheduler::ordering::sort_ready_queue_by;
use crate::scheduler::scheduler::{Policy, Scheduler};
use crate::structs::job::Job;
use crate::structs::task::PeriodicTask;

verus! {

/// Least-slack-time scheduling: dynamic priorities by slack. There is no
/// static test; every task set is admitted and misses show up dynamically.
pub struct LSTScheduler;

impl Scheduler for LSTScheduler {
    open spec fn policy(&self) -> Policy {
        Policy::LeastSlackTime
    }

    fn policy_id(&self) -> (p: Policy) {
        Policy::LeastSlackTime
    }

    fn name(&self) -> (r: &'static str) {
        "LSTScheduler"
    }

    fn schedulability_test(&self, tasks: &Vec<PeriodicTask>) -> (r: Option<bool>) {
        Some(true)
    }

    fn sort_ready_queue(&self, queue: &mut Vec<Job>, tasks: &Vec<PeriodicTask>, current_time: usize) {
        sort_ready_queue_by(Policy::LeastSlackTime, queue, tasks, current_time)
    }
}

} // verus!

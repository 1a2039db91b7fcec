use vstd::prelude::*;

use crate::scheduler::ordering::sort_ready_queue_by;
use crate::scheduler::scheduler::{Policy, Scheduler};
use crate::scheduler::utilization::rm_schedulability_test;
use crate::structs::job::Job;
use crate::structs::task::PeriodicTask;

verus! {

/// Rate-monotonic scheduling: static priorities by task period, with the
/// Liu–Layland utilization bound `n * (2^(1/n) - 1)` as the static test.
pub struct RMScheduler;

impl Scheduler for RMScheduler {
    open spec fn policy(&self) -> Policy {
        Policy::RateMonotonic
    }

    fn policy_id(&self) -> (p: Policy) {
        Policy::RateMonotonic
    }

    fn name(&self) -> (r: &'static str) {
        "RMScheduler"
    }

    fn schedulability_test(&self, tasks: &Vec<PeriodicTask>) -> (r: Option<bool>) {
        rm_schedulability_test(tasks)
    }

    fn sort_ready_queue(&self, queue: &mut Vec<Job>, tasks: &Vec<PeriodicTask>, current_time: usize) {
        sort_ready_queue_by(Policy::RateMonotonic, queue, tasks, current_time)
    }
}

} // verus!

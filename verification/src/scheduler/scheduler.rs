use vstd::prelude::*;

use crate::scheduler::ordering::{job_before, sort_jobs_spec};
use crate::scheduler::utilization::{
    edf_schedulable, rm_fits, rm_schedulable, util_fits,
};
use crate::structs::job::Job;
use crate::structs::task::PeriodicTask;

verus! {

/// The three supported scheduling policies.
#[derive(Clone, Copy, PartialEq, Eq, Structural, Debug)]
pub enum Policy {
    RateMonotonic,
    EarliestDeadlineFirst,
    LeastSlackTime,
}

/// The display name of a policy.
pub open spec fn policy_name(p: Policy) -> Seq<char> {
    match p {
        Policy::RateMonotonic => "RMScheduler"@,
        Policy::EarliestDeadlineFirst => "EDFScheduler"@,
        Policy::LeastSlackTime => "LSTScheduler"@,
    }
}

/// Whether a policy's static schedulability test accepts the task set.
/// Least-slack-time performs no static test and accepts every set.
pub open spec fn policy_schedulable(p: Policy, tasks: Seq<PeriodicTask>) -> bool {
    match p {
        Policy::RateMonotonic => rm_schedulable(tasks),
        Policy::EarliestDeadlineFirst => edf_schedulable(tasks),
        Policy::LeastSlackTime => true,
    }
}

/// Whether a policy's static test is machine-computable on the given task
/// set, that is, its exact intermediate values fit in `u128`.
pub open spec fn test_fits(p: Policy, tasks: Seq<PeriodicTask>) -> bool {
    match p {
        Policy::RateMonotonic => rm_fits(tasks),
        Policy::EarliestDeadlineFirst => util_fits(tasks),
        Policy::LeastSlackTime => true,
    }
}

/// A scheduling policy: a static schedulability test and a total order on
/// the ready queue. The head of the sorted queue runs for the current tick.
pub trait Scheduler: Sized {
    /// Which of the three policies this scheduler implements.
    spec fn policy(&self) -> Policy;

    /// The policy as a value, for dispatch.
    fn policy_id(&self) -> (p: Policy)
        ensures
            p == self.policy(),
    ;

    /// The scheduler's display name.
    fn name(&self) -> (r: &'static str)
        ensures
            r@ == policy_name(self.policy()),
    ;

    /// Decides, before any simulation, whether the task set passes the
    /// policy's schedulability condition. Returns `None` when the exact
    /// arithmetic of the test exceeds the machine's integer width.
    fn schedulability_test(&self, tasks: &Vec<PeriodicTask>) -> (r: Option<bool>)
        requires
            forall|i: int| 0 <= i < tasks@.len() ==> (#[trigger] tasks@[i]).wf(),
        ensures
            r is Some <==> test_fits(self.policy(), tasks@),
            r matches Some(b) ==> b == policy_schedulable(self.policy(), tasks@),
    ;

    /// Reorders the ready queue into the policy's priority order: ascending
    /// key, ties broken by task identifier, then by release time.
    fn sort_ready_queue(&self, queue: &mut Vec<Job>, tasks: &Vec<PeriodicTask>, current_time: usize)
        requires
            self.policy() is RateMonotonic ==> forall|k: int|
                0 <= k < old(queue)@.len() ==> 1 <= (#[trigger] old(queue)@[k]).task_id
                    <= tasks@.len(),
        ensures
            final(queue)@ == sort_jobs_spec(self.policy(), tasks@, current_time, old(queue)@),
    ;
}

/// In the policy order, a tie in the primary key is broken in favour of the
/// smaller task identifier.
pub proof fn lemma_tie_smaller_id_first(
    p: Policy,
    tasks: Seq<PeriodicTask>,
    now: usize,
    a: Job,
    b: Job,
)
    requires
        crate::scheduler::ordering::job_key(p, tasks, now, a) == crate::scheduler::ordering::job_key(
            p,
            tasks,
            now,
            b,
        ),
        a.task_id < b.task_id,
    ensures
        job_before(p, tasks, now, a, b),
        !job_before(p, tasks, now, b, a),
{
}

} // verus!

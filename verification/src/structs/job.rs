use vstd::prelude::*;

verus! {

/// One runtime instance of a task, tracked while it sits in the ready queue.
#[derive(Clone, Copy, PartialEq, Eq, Structural, Debug)]
pub struct Job {
    pub release_time: usize,
    pub remaining_execution_time: usize,
    pub absolute_deadline: usize,
    pub task_id: usize,
}

impl Job {
    /// Time to spare at instant `now`: how long the job could still wait and
    /// meet its deadline. Negative slack means the deadline is unreachable.
    pub open spec fn slack(self, now: usize) -> int {
        self.absolute_deadline - now - self.remaining_execution_time
    }

    /// A job has irrecoverably missed its deadline at `now` when even running
    /// without interruption from `now` on would finish past the deadline.
    pub open spec fn expired(self, now: usize) -> bool {
        self.slack(now) < 0
    }
}

/// Executable slack computation; `i128` is wide enough that the subtraction
/// can never wrap for any `usize` operands.
pub fn job_slack(job: &Job, now: usize) -> (r: i128)
    ensures
        r == job.slack(now),
{
    job.absolute_deadline as i128 - now as i128 - job.remaining_execution_time as i128
}

} // verus!

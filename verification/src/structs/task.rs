use vstd::prelude::*;

verus! {

/// Common read-only interface of the two task shapes.
pub trait TaskTrait {
    spec fn spec_task_id(&self) -> usize;

    spec fn spec_worst_case_execution_time(&self) -> usize;

    spec fn spec_relative_deadline(&self) -> usize;

    spec fn spec_is_aperiodic(&self) -> bool;

    fn task_id(&self) -> (r: usize)
        ensures
            r == self.spec_task_id(),
    ;

    fn worst_case_execution_time(&self) -> (r: usize)
        ensures
            r == self.spec_worst_case_execution_time(),
    ;

    fn relative_deadline(&self) -> (r: usize)
        ensures
            r == self.spec_relative_deadline(),
    ;

    fn is_aperiodic(&self) -> (r: bool)
        ensures
            r == self.spec_is_aperiodic(),
    ;
}

/// A workload released exactly once, at `arrival_time`.
#[derive(Clone, Copy, PartialEq, Eq, Structural, Debug)]
pub struct AperiodicTask {
    pub task_id: usize,
    pub arrival_time: usize,
    pub worst_case_execution_time: usize,
    pub relative_deadline: usize,
}

impl AperiodicTask {
    /// Structural validity: identifier and timing parameters are positive.
    pub open spec fn wf(self) -> bool {
        &&& self.task_id >= 1
        &&& self.worst_case_execution_time >= 1
        &&& self.relative_deadline >= 1
    }
}

impl TaskTrait for AperiodicTask {
    open spec fn spec_task_id(&self) -> usize {
        self.task_id
    }

    open spec fn spec_worst_case_execution_time(&self) -> usize {
        self.worst_case_execution_time
    }

    open spec fn spec_relative_deadline(&self) -> usize {
        self.relative_deadline
    }

    open spec fn spec_is_aperiodic(&self) -> bool {
        true
    }

    fn task_id(&self) -> (r: usize) {
        self.task_id
    }

    fn worst_case_execution_time(&self) -> (r: usize) {
        self.worst_case_execution_time
    }

    fn relative_deadline(&self) -> (r: usize) {
        self.relative_deadline
    }

    fn is_aperiodic(&self) -> (r: bool) {
        true
    }
}

/// A workload released every `period` ticks, starting at `phase`.
#[derive(Clone, Copy, PartialEq, Eq, Structural, Debug)]
pub struct PeriodicTask {
    pub task_id: usize,
    pub phase: usize,
    pub period: usize,
    pub worst_case_execution_time: usize,
    pub relative_deadline: usize,
}

impl PeriodicTask {
    /// Structural validity: identifier and timing parameters are positive.
    pub open spec fn wf(self) -> bool {
        &&& self.task_id >= 1
        &&& self.period >= 1
        &&& self.worst_case_execution_time >= 1
        &&& self.relative_deadline >= 1
    }

    /// The denominator of a task's utilization: the stricter of period
    /// and relative deadline.
    pub open spec fn min_period_deadline(self) -> int {
        if self.period <= self.relative_deadline {
            self.period as int
        } else {
            self.relative_deadline as int
        }
    }
}

impl TaskTrait for PeriodicTask {
    open spec fn spec_task_id(&self) -> usize {
        self.task_id
    }

    open spec fn spec_worst_case_execution_time(&self) -> usize {
        self.worst_case_execution_time
    }

    open spec fn spec_relative_deadline(&self) -> usize {
        self.relative_deadline
    }

    open spec fn spec_is_aperiodic(&self) -> bool {
        false
    }

    fn task_id(&self) -> (r: usize) {
        self.task_id
    }

    fn worst_case_execution_time(&self) -> (r: usize) {
        self.worst_case_execution_time
    }

    fn relative_deadline(&self) -> (r: usize) {
        self.relative_deadline
    }

    fn is_aperiodic(&self) -> (r: bool) {
        false
    }
}

/// A task set is valid when it is non-empty, every task is well formed, and
/// task identifiers are assigned by position, starting at 1. Uniqueness of
/// the identifiers follows from the positional assignment.
pub open spec fn tasks_valid(tasks: Seq<PeriodicTask>) -> bool {
    &&& tasks.len() > 0
    &&& forall|i: int|
        0 <= i < tasks.len() ==> (#[trigger] tasks[i]).wf() && tasks[i].task_id == i + 1
}

/// A task of either shape, as a closed tagged variant.
#[derive(Clone, Copy, PartialEq, Eq, Structural, Debug)]
pub enum Task {
    Periodic(PeriodicTask),
    Aperiodic(AperiodicTask),
}

/// The periodic tasks of a mixed set, in order.
pub open spec fn periodic_of(tasks: Seq<Task>) -> Seq<PeriodicTask>
    decreases tasks.len(),
{
    if tasks.len() == 0 {
        Seq::empty()
    } else {
        let rest = periodic_of(tasks.drop_last());
        match tasks.last() {
            Task::Periodic(t) => rest.push(t),
            Task::Aperiodic(_) => rest,
        }
    }
}

/// The aperiodic tasks of a mixed set, in order.
pub open spec fn aperiodic_of(tasks: Seq<Task>) -> Seq<AperiodicTask>
    decreases tasks.len(),
{
    if tasks.len() == 0 {
        Seq::empty()
    } else {
        let rest = aperiodic_of(tasks.drop_last());
        match tasks.last() {
            Task::Periodic(_) => rest,
            Task::Aperiodic(t) => rest.push(t),
        }
    }
}

/// Keeps only the periodic tasks of a mixed set.
pub fn get_periodic_tasks(tasks: Vec<Task>) -> (r: Vec<PeriodicTask>)
    ensures
        r@ == periodic_of(tasks@),
{
    let mut out: Vec<PeriodicTask> = Vec::new();
    let mut i: usize = 0;
    while i < tasks.len()
        invariant
            i <= tasks@.len(),
            out@ == periodic_of(tasks@.take(i as int)),
        decreases tasks@.len() - i,
    {
        proof {
            assert(tasks@.take(i + 1).drop_last() =~= tasks@.take(i as int));
            assert(tasks@.take(i + 1).last() == tasks@[i as int]);
        }
        match tasks[i] {
            Task::Periodic(t) => out.push(t),
            Task::Aperiodic(_) => {},
        }
        i += 1;
    }
    proof {
        assert(tasks@.take(tasks@.len() as int) =~= tasks@);
    }
    out
}

/// Keeps only the aperiodic tasks of a mixed set.
pub fn get_aperiodic_tasks(tasks: Vec<Task>) -> (r: Vec<AperiodicTask>)
    ensures
        r@ == aperiodic_of(tasks@),
{
    let mut out: Vec<AperiodicTask> = Vec::new();
    let mut i: usize = 0;
    while i < tasks.len()
        invariant
            i <= tasks@.len(),
            out@ == aperiodic_of(tasks@.take(i as int)),
        decreases tasks@.len() - i,
    {
        proof {
            assert(tasks@.take(i + 1).drop_last() =~= tasks@.take(i as int));
            assert(tasks@.take(i + 1).last() == tasks@[i as int]);
        }
        match tasks[i] {
            Task::Periodic(_) => {},
            Task::Aperiodic(t) => out.push(t),
        }
        i += 1;
    }
    proof {
        assert(tasks@.take(tasks@.len() as int) =~= tasks@);
    }
    out
}

} // verus!

use vstd::prelude::*;

use crate::scheduler::ordering::{
    lemma_sort_contents, lemma_sort_multiset, sort_jobs_spec, sort_ready_queue_by,
};
use crate::scheduler::scheduler::{policy_schedulable, test_fits, Policy, Scheduler};
use crate::scheduler::utilization::{edf_schedulability_test, rm_schedulability_test};
use crate::structs::job::{job_slack, Job};
use crate::structs::task::{tasks_valid, PeriodicTask};
use crate::structs::tick_info::{TickInfo, TickRec};
use crate::utils::{hyperperiod_checked, lcm_fold, lcm_fold_fits, max_phase, max_phase_spec};

verus! {

/// A structurally unusable task set; distinguished from an unschedulable
/// one, which is a normal simulation outcome.
#[derive(Clone, Copy, PartialEq, Eq, Structural, Debug)]
pub enum ConfigError {
    /// The task set is empty: the hyperperiod is undefined.
    EmptyTaskSet,
    /// A task has a zero period, execution time or deadline, or its
    /// identifier is not its 1-based position in the set.
    InvalidTask,
    /// An exact intermediate value (hyperperiod, deadline horizon, job
    /// count, or schedulability-test arithmetic) exceeds the machine's
    /// integer width.
    ArithmeticOverflow,
}

/// The outcome of one complete run of a (task set, policy) pair.
#[derive(Clone, PartialEq, Eq, Debug)]
pub struct RunResult {
    /// The policy the run was made under.
    pub policy: Policy,
    /// The static schedulability verdict. When false, no simulation ran.
    pub schedulable: bool,
    /// One record per tick, from tick 0 up to the hyperperiod horizon.
    pub trace: Vec<TickInfo>,
    /// How many jobs were released over the whole run.
    pub total_jobs: usize,
    /// How many of them missed their deadline.
    pub missed_jobs: usize,
}

/// Whether every task is well formed and identifiers are positional.
pub open spec fn tasks_fields_ok(tasks: Seq<PeriodicTask>) -> bool {
    forall|i: int|
        0 <= i < tasks.len() ==> (#[trigger] tasks[i]).wf() && tasks[i].task_id == i + 1
}

/// The simulation horizon: one full hyperperiod after the last phase offset.
pub open spec fn end_time_spec(tasks: Seq<PeriodicTask>) -> int {
    lcm_fold(tasks) + max_phase_spec(tasks)
}

/// Whether the simulation itself is machine-computable: the horizon, the
/// deadline of every job, and the total job count all fit in `usize`.
pub open spec fn sim_fits(tasks: Seq<PeriodicTask>) -> bool {
    &&& lcm_fold_fits(tasks)
    &&& end_time_spec(tasks) <= usize::MAX
    &&& forall|i: int|
        0 <= i < tasks.len() ==> end_time_spec(tasks) + (#[trigger] tasks[i]).relative_deadline
            <= usize::MAX
    &&& end_time_spec(tasks) * tasks.len() <= usize::MAX
}

/// The jobs of the queue that have not missed their deadline at `now`,
/// keeping their queue order.
pub open spec fn surviving(q: Seq<Job>, now: usize) -> Seq<Job>
    decreases q.len(),
{
    if q.len() == 0 {
        Seq::empty()
    } else if q.last().expired(now) {
        surviving(q.drop_last(), now)
    } else {
        surviving(q.drop_last(), now).push(q.last())
    }
}

/// The task identifiers of the queue's jobs that missed their deadline at
/// `now`, in queue order.
pub open spec fn expired_ids(q: Seq<Job>, now: usize) -> Seq<usize>
    decreases q.len(),
{
    if q.len() == 0 {
        Seq::empty()
    } else if q.last().expired(now) {
        expired_ids(q.drop_last(), now).push(q.last().task_id)
    } else {
        expired_ids(q.drop_last(), now)
    }
}

/// A periodic task releases a job at every tick that is its phase plus a
/// whole number of periods.
pub open spec fn releases_at(t: PeriodicTask, now: usize) -> bool {
    now >= t.phase && (now - t.phase) % (t.period as int) == 0
}

/// The job a task instantiates when it releases at `now`.
pub open spec fn new_job(t: PeriodicTask, now: usize) -> Job {
    Job {
        release_time: now,
        remaining_execution_time: t.worst_case_execution_time,
        absolute_deadline: (now + t.relative_deadline) as usize,
        task_id: t.task_id,
    }
}

/// The jobs released at `now`, in task order.
pub open spec fn arrived_jobs(tasks: Seq<PeriodicTask>, now: usize) -> Seq<Job>
    decreases tasks.len(),
{
    if tasks.len() == 0 {
        Seq::empty()
    } else if releases_at(tasks.last(), now) {
        arrived_jobs(tasks.drop_last(), now).push(new_job(tasks.last(), now))
    } else {
        arrived_jobs(tasks.drop_last(), now)
    }
}

/// The identifiers of the tasks that release at `now`, in task order.
pub open spec fn arrived_ids(tasks: Seq<PeriodicTask>, now: usize) -> Seq<usize>
    decreases tasks.len(),
{
    if tasks.len() == 0 {
        Seq::empty()
    } else if releases_at(tasks.last(), now) {
        arrived_ids(tasks.drop_last(), now).push(tasks.last().task_id)
    } else {
        arrived_ids(tasks.drop_last(), now)
    }
}

/// The head job after one time unit of execution.
pub open spec fn dec_head(j: Job) -> Job {
    Job { remaining_execution_time: (j.remaining_execution_time - 1) as usize, ..j }
}

/// One execution phase: the head of the queue runs for one time unit and is
/// removed on completion. An empty queue means an idle tick.
pub open spec fn run_head(q: Seq<Job>) -> Seq<Job> {
    if q.len() == 0 {
        q
    } else if q[0].remaining_execution_time == 1 {
        q.drop_first()
    } else {
        q.update(0, dec_head(q[0]))
    }
}

/// The task executing this tick: the head of the ordered ready queue.
pub open spec fn running_of(q: Seq<Job>) -> Option<usize> {
    if q.len() == 0 {
        None
    } else {
        Some(q[0].task_id)
    }
}

/// The simulation state between ticks.
pub ghost struct SimState {
    pub queue: Seq<Job>,
    pub released: int,
    pub missed: int,
}

/// The ready queue of tick `now` after eviction, arrivals and ordering:
/// the queue the execution phase acts on.
pub open spec fn ordered_queue(p: Policy, tasks: Seq<PeriodicTask>, s: SimState, now: usize) -> Seq<
    Job,
> {
    sort_jobs_spec(p, tasks, now, surviving(s.queue, now) + arrived_jobs(tasks, now))
}

/// One full tick: evict expired jobs, admit arrivals, order the queue, and
/// execute the head for one time unit.
pub open spec fn step_state(p: Policy, tasks: Seq<PeriodicTask>, s: SimState, now: usize) -> SimState {
    SimState {
        queue: run_head(ordered_queue(p, tasks, s, now)),
        released: s.released + arrived_ids(tasks, now).len(),
        missed: s.missed + expired_ids(s.queue, now).len(),
    }
}

/// The record emitted at tick `now` from state `s`.
pub open spec fn tick_rec(p: Policy, tasks: Seq<PeriodicTask>, s: SimState, now: usize) -> TickRec {
    TickRec {
        t: now,
        running: running_of(ordered_queue(p, tasks, s, now)),
        arrival: arrived_ids(tasks, now),
        dead: expired_ids(s.queue, now),
    }
}

/// The state before tick `k`: tick 0 starts from an empty queue.
pub open spec fn state_at(p: Policy, tasks: Seq<PeriodicTask>, k: usize) -> SimState
    decreases k,
{
    if k == 0 {
        SimState { queue: Seq::empty(), released: 0, missed: 0 }
    } else {
        step_state(p, tasks, state_at(p, tasks, (k - 1) as usize), (k - 1) as usize)
    }
}

/// The record emitted at tick `k`.
pub open spec fn trace_at(p: Policy, tasks: Seq<PeriodicTask>, k: usize) -> TickRec {
    tick_rec(p, tasks, state_at(p, tasks, k), k)
}

/// Every job the simulation can hold in its queue before tick `now` has a
/// valid task reference, work left to do, and was released earlier.
pub open spec fn queue_wf(q: Seq<Job>, tasks: Seq<PeriodicTask>, now: usize) -> bool {
    forall|i: int|
        0 <= i < q.len() ==> {
            let j = #[trigger] q[i];
            &&& 1 <= j.task_id <= tasks.len()
            &&& j.remaining_execution_time >= 1
            &&& j.release_time < now
        }
}

pub proof fn lemma_surviving_props(q: Seq<Job>, now: usize)
    ensures
        surviving(q, now).len() + expired_ids(q, now).len() == q.len(),
        forall|i: int|
            0 <= i < surviving(q, now).len() ==> !(#[trigger] surviving(q, now)[i]).expired(now)
                && q.contains(surviving(q, now)[i]),
    decreases q.len(),
{
    if q.len() > 0 {
        lemma_surviving_props(q.drop_last(), now);
        let s = surviving(q, now);
        assert forall|i: int|
            0 <= i < s.len() implies !(#[trigger] s[i]).expired(now) && q.contains(s[i]) by {
            let s0 = surviving(q.drop_last(), now);
            if i < s0.len() {
                assert(s[i] == s0[i]);
                let w = choose|w: int| 0 <= w < q.drop_last().len() && q.drop_last()[w] == s0[i];
                assert(q[w] == s0[i]);
            } else {
                assert(s[i] == q.last());
                assert(q[q.len() - 1] == q.last());
            }
        }
    }
}

pub proof fn lemma_arrived_props(tasks: Seq<PeriodicTask>, now: usize)
    requires
        tasks_fields_ok(tasks),
    ensures
        arrived_jobs(tasks, now).len() == arrived_ids(tasks, now).len(),
        arrived_ids(tasks, now).len() <= tasks.len(),
        forall|i: int|
            0 <= i < arrived_jobs(tasks, now).len() ==> {
                let j = #[trigger] arrived_jobs(tasks, now)[i];
                &&& 1 <= j.task_id <= tasks.len()
                &&& j.remaining_execution_time >= 1
                &&& j.release_time == now
            },
    decreases tasks.len(),
{
    if tasks.len() > 0 {
        assert(tasks_fields_ok(tasks.drop_last())) by {
            assert forall|i: int|
                0 <= i < tasks.drop_last().len() implies (#[trigger] tasks.drop_last()[i]).wf()
                    && tasks.drop_last()[i].task_id == i + 1 by {
                assert(tasks.drop_last()[i] == tasks[i]);
            }
        }
        lemma_arrived_props(tasks.drop_last(), now);
        assert(tasks.last() == tasks[tasks.len() - 1]);
    }
}

/// The running state invariant: counters stay within their conservation
/// bounds and every queued job is structurally sound.
pub proof fn lemma_state_invariant(p: Policy, tasks: Seq<PeriodicTask>, k: usize)
    requires
        tasks_fields_ok(tasks),
    ensures
        queue_wf(state_at(p, tasks, k).queue, tasks, k),
        state_at(p, tasks, k).released <= k * tasks.len(),
        state_at(p, tasks, k).missed >= 0,
        state_at(p, tasks, k).released >= 0,
        state_at(p, tasks, k).missed + state_at(p, tasks, k).queue.len() <= state_at(
            p,
            tasks,
            k,
        ).released,
    decreases k,
{
    if k > 0 {
        let prev = (k - 1) as usize;
        lemma_state_invariant(p, tasks, prev);
        let s = state_at(p, tasks, prev);
        let kept = surviving(s.queue, prev);
        let arr = arrived_jobs(tasks, prev);
        let q2 = kept + arr;
        let q3 = ordered_queue(p, tasks, s, prev);
        lemma_surviving_props(s.queue, prev);
        lemma_arrived_props(tasks, prev);
        lemma_sort_multiset(p, tasks, prev, q2);
        lemma_sort_contents(p, tasks, prev, q2);
        assert(queue_wf(q3, tasks, k)) by {
            assert forall|i: int|
                0 <= i < q3.len() implies {
                let j = #[trigger] q3[i];
                &&& 1 <= j.task_id <= tasks.len()
                &&& j.remaining_execution_time >= 1
                &&& j.release_time < k
            } by {
                assert(q2.contains(q3[i]));
                let w = choose|w: int| 0 <= w < q2.len() && q2[w] == q3[i];
                if w < kept.len() {
                    assert(kept[w] == q2[w]);
                    let v = choose|v: int| 0 <= v < s.queue.len() && s.queue[v] == kept[w];
                } else {
                    assert(arr[w - kept.len()] == q2[w]);
                }
            }
        }
        let q4 = run_head(q3);
        assert(queue_wf(q4, tasks, k)) by {
            if q3.len() > 0 && q3[0].remaining_execution_time != 1 {
                assert forall|i: int|
                    0 <= i < q4.len() implies {
                    let j = #[trigger] q4[i];
                    &&& 1 <= j.task_id <= tasks.len()
                    &&& j.remaining_execution_time >= 1
                    &&& j.release_time < k
                } by {
                    if i != 0 {
                        assert(q4[i] == q3[i]);
                    }
                }
            } else if q3.len() > 0 {
                assert forall|i: int|
                    0 <= i < q4.len() implies {
                    let j = #[trigger] q4[i];
                    &&& 1 <= j.task_id <= tasks.len()
                    &&& j.remaining_execution_time >= 1
                    &&& j.release_time < k
                } by {
                    assert(q4[i] == q3[i + 1]);
                }
            }
        }
        let n = tasks.len() as int;
        let a = arrived_ids(tasks, prev).len() as int;
        assert(state_at(p, tasks, k).released == s.released + a);
        assert(s.released + a <= (k - 1) * n + n);
        assert((k - 1) * n + n == k * n) by (nonlinear_arith);
    }
}

/// A job never runs past its deadline: whenever the execution phase selects
/// a job, that job either still has non-negative slack or arrived this very
/// tick (a job born infeasible can occupy its first tick before the next
/// deadline check removes it).
pub proof fn lemma_never_runs_expired(p: Policy, tasks: Seq<PeriodicTask>, k: usize)
    ensures
        ({
            let q3 = ordered_queue(p, tasks, state_at(p, tasks, k), k);
            q3.len() > 0 ==> q3[0].slack(k) >= 0 || q3[0].release_time == k
        }),
{
    let s = state_at(p, tasks, k);
    let kept = surviving(s.queue, k);
    let arr = arrived_jobs(tasks, k);
    let q2 = kept + arr;
    let q3 = ordered_queue(p, tasks, s, k);
    lemma_surviving_props(s.queue, k);
    lemma_arrived_release_times(tasks, k);
    lemma_sort_contents(p, tasks, k, q2);
    if q3.len() > 0 {
        assert(q2.contains(q3[0]));
        let w = choose|w: int| 0 <= w < q2.len() && q2[w] == q3[0];
        if w < kept.len() {
            assert(kept[w] == q2[w]);
        } else {
            assert(arr[w - kept.len()] == q2[w]);
        }
    }
}

/// Jobs released at `now` carry `now` as their release time; needs no task
/// set validity.
proof fn lemma_arrived_release_times(tasks: Seq<PeriodicTask>, now: usize)
    ensures
        forall|i: int|
            0 <= i < arrived_jobs(tasks, now).len() ==> (#[trigger] arrived_jobs(tasks, now)[i]).release_time
                == now,
    decreases tasks.len(),
{
    if tasks.len() > 0 {
        lemma_arrived_release_times(tasks.drop_last(), now);
        let rest = arrived_jobs(tasks.drop_last(), now);
        assert forall|i: int|
            0 <= i < arrived_jobs(tasks, now).len() implies (#[trigger] arrived_jobs(
            tasks,
            now,
        )[i]).release_time == now by {
            if i < rest.len() {
                assert(arrived_jobs(tasks, now)[i] == rest[i]);
            }
        }
    }
}

/// Deadline-check phase: removes every job whose slack is negative and
/// reports their task identifiers.
fn evict_expired(queue: &mut Vec<Job>, now: usize) -> (dead: Vec<usize>)
    ensures
        final(queue)@ == surviving(old(queue)@, now),
        dead@ == expired_ids(old(queue)@, now),
{
    let ghost q0 = queue@;
    let mut kept: Vec<Job> = Vec::new();
    let mut dead: Vec<usize> = Vec::new();
    let mut i: usize = 0;
    while i < queue.len()
        invariant
            queue@ == q0,
            i <= q0.len(),
            kept@ == surviving(q0.take(i as int), now),
            dead@ == expired_ids(q0.take(i as int), now),
        decreases q0.len() - i,
    {
        proof {
            assert(q0.take(i + 1).drop_last() =~= q0.take(i as int));
            assert(q0.take(i + 1).last() == q0[i as int]);
        }
        let j = queue[i];
        if job_slack(&j, now) < 0 {
            dead.push(j.task_id);
        } else {
            kept.push(j);
        }
        i += 1;
    }
    proof {
        assert(q0.take(q0.len() as int) =~= q0);
    }
    *queue = kept;
    dead
}

/// Arrival phase: appends a fresh job for every task whose release condition
/// holds at `now` and reports their task identifiers.
fn admit_arrivals(queue: &mut Vec<Job>, tasks: &Vec<PeriodicTask>, now: usize) -> (arrived: Vec<
    usize,
>)
    requires
        forall|i: int| 0 <= i < tasks@.len() ==> (#[trigger] tasks@[i]).wf(),
        forall|i: int|
            0 <= i < tasks@.len() ==> now + (#[trigger] tasks@[i]).relative_deadline <= usize::MAX,
    ensures
        final(queue)@ == old(queue)@ + arrived_jobs(tasks@, now),
        arrived@ == arrived_ids(tasks@, now),
{
    let ghost q0 = queue@;
    let mut arrived: Vec<usize> = Vec::new();
    let mut i: usize = 0;
    proof {
        assert(q0 + arrived_jobs(tasks@.take(0), now) =~= q0);
    }
    while i < tasks.len()
        invariant
            i <= tasks@.len(),
            forall|k: int| 0 <= k < tasks@.len() ==> (#[trigger] tasks@[k]).wf(),
            forall|k: int|
                0 <= k < tasks@.len() ==> now + (#[trigger] tasks@[k]).relative_deadline
                    <= usize::MAX,
            queue@ == q0 + arrived_jobs(tasks@.take(i as int), now),
            arrived@ == arrived_ids(tasks@.take(i as int), now),
        decreases tasks@.len() - i,
    {
        let ghost pre = tasks@.take(i as int);
        let ghost cur = tasks@.take(i + 1);
        proof {
            assert(cur.drop_last() =~= pre);
            assert(cur.last() == tasks@[i as int]);
        }
        let t = tasks[i];
        if now >= t.phase && (now - t.phase) % t.period == 0 {
            let job = Job {
                release_time: now,
                remaining_execution_time: t.worst_case_execution_time,
                absolute_deadline: now + t.relative_deadline,
                task_id: t.task_id,
            };
            proof {
                assert(job == new_job(tasks@[i as int], now));
            }
            queue.push(job);
            arrived.push(t.task_id);
            proof {
                assert(queue@ =~= q0 + arrived_jobs(cur, now));
            }
        } else {
            proof {
                assert(!releases_at(tasks@[i as int], now));
            }
        }
        i += 1;
    }
    proof {
        assert(tasks@.take(tasks@.len() as int) =~= tasks@);
    }
    arrived
}

/// Execution phase: the head job runs for one time unit; on completion it
/// leaves the queue. Returns the identifier of the task that ran.
fn execute_head(queue: &mut Vec<Job>) -> (running: Option<usize>)
    requires
        forall|i: int|
            0 <= i < old(queue)@.len() ==> (#[trigger] old(queue)@[i]).remaining_execution_time
                >= 1,
    ensures
        final(queue)@ == run_head(old(queue)@),
        running == running_of(old(queue)@),
{
    if queue.len() == 0 {
        return None;
    }
    let j = queue.remove(0);
    if j.remaining_execution_time > 1 {
        let nj = Job {
            release_time: j.release_time,
            remaining_execution_time: j.remaining_execution_time - 1,
            absolute_deadline: j.absolute_deadline,
            task_id: j.task_id,
        };
        queue.insert(0, nj);
        proof {
            assert(queue@ =~= old(queue)@.update(0, dec_head(old(queue)@[0])));
        }
    } else {
        proof {
            assert(queue@ =~= old(queue)@.drop_first());
        }
    }
    Some(j.task_id)
}

/// Runs one complete simulation of the task set under the given policy.
///
/// The task set is validated first: it must be non-empty, every task well
/// formed, identifiers positional. The static schedulability test gates the
/// run: an unschedulable set yields an empty trace and zero counters. A
/// schedulable one is simulated tick by tick over one hyperperiod past the
/// last phase; the resulting trace, job total and miss total are exactly
/// the mathematical simulation `trace_at`/`state_at`, so two runs on equal
/// inputs produce identical results.
pub fn simulate(policy: Policy, tasks: &Vec<PeriodicTask>) -> (r: Result<RunResult, ConfigError>)
    ensures
        tasks@.len() == 0 ==> r == Err::<RunResult, ConfigError>(ConfigError::EmptyTaskSet),
        tasks@.len() > 0 && !tasks_fields_ok(tasks@) ==> r == Err::<RunResult, ConfigError>(
            ConfigError::InvalidTask,
        ),
        tasks_valid(tasks@) && !(sim_fits(tasks@) && test_fits(policy, tasks@)) ==> r == Err::<
            RunResult,
            ConfigError,
        >(ConfigError::ArithmeticOverflow),
        tasks_valid(tasks@) && sim_fits(tasks@) && test_fits(policy, tasks@) ==> (r matches Ok(res)
            && res.policy == policy && res.schedulable == policy_schedulable(policy, tasks@) && (!res.schedulable ==> (
        res.trace@.len() == 0 && res.total_jobs == 0 && res.missed_jobs == 0)) && (res.schedulable
            ==> (res.trace@.len() == end_time_spec(tasks@) && (forall|k: int|
            0 <= k < res.trace@.len() ==> (#[trigger] res.trace@[k])@ == trace_at(
                policy,
                tasks@,
                k as usize,
            )) && res.total_jobs == state_at(
            policy,
            tasks@,
            (end_time_spec(tasks@)) as usize,
        ).released && res.missed_jobs == state_at(
            policy,
            tasks@,
            (end_time_spec(tasks@)) as usize,
        ).missed))),
{
    if tasks.len() == 0 {
        return Err(ConfigError::EmptyTaskSet);
    }
    // Validation: well-formed fields and positional identifiers.
    let mut v: usize = 0;
    while v < tasks.len()
        invariant
            v <= tasks@.len(),
            forall|i: int|
                0 <= i < v ==> (#[trigger] tasks@[i]).wf() && tasks@[i].task_id == i + 1,
        decreases tasks@.len() - v,
    {
        let t = tasks[v];
        if !(t.task_id == v + 1 && t.period >= 1 && t.worst_case_execution_time >= 1
            && t.relative_deadline >= 1) {
            return Err(ConfigError::InvalidTask);
        }
        v += 1;
    }
    assert(tasks_fields_ok(tasks@));

    // Horizon: one hyperperiod past the largest phase.
    let lcm_v = match hyperperiod_checked(tasks) {
        Some(x) => x,
        None => {
            return Err(ConfigError::ArithmeticOverflow);
        },
    };
    let mp = max_phase(tasks);
    let end_time = match lcm_v.checked_add(mp) {
        Some(x) => x,
        None => {
            return Err(ConfigError::ArithmeticOverflow);
        },
    };
    // Every job's absolute deadline must fit in `usize`.
    let mut v: usize = 0;
    while v < tasks.len()
        invariant
            v <= tasks@.len(),
            end_time == end_time_spec(tasks@),
            tasks_fields_ok(tasks@),
            forall|i: int|
                0 <= i < v ==> end_time + (#[trigger] tasks@[i]).relative_deadline <= usize::MAX,
        decreases tasks@.len() - v,
    {
        if tasks[v].relative_deadline > usize::MAX - end_time {
            return Err(ConfigError::ArithmeticOverflow);
        }
        v += 1;
    }
    // The total number of released jobs must fit in `usize`.
    if end_time.checked_mul(tasks.len()).is_none() {
        return Err(ConfigError::ArithmeticOverflow);
    }
    assert(sim_fits(tasks@));

    // Static schedulability test; an unschedulable set is not simulated.
    let verdict = match policy {
        Policy::RateMonotonic => rm_schedulability_test(tasks),
        Policy::EarliestDeadlineFirst => edf_schedulability_test(tasks),
        Policy::LeastSlackTime => Some(true),
    };
    let schedulable = match verdict {
        Some(b) => b,
        None => {
            return Err(ConfigError::ArithmeticOverflow);
        },
    };
    if !schedulable {
        return Ok(
            RunResult {
                policy,
                schedulable: false,
                trace: Vec::new(),
                total_jobs: 0,
                missed_jobs: 0,
            },
        );
    }

    let mut queue: Vec<Job> = Vec::new();
    let mut trace: Vec<TickInfo> = Vec::new();
    let mut total_jobs: usize = 0;
    let mut missed_jobs: usize = 0;
    let mut clock: usize = 0;
    while clock < end_time
        invariant
            clock <= end_time,
            end_time == end_time_spec(tasks@),
            tasks_fields_ok(tasks@),
            sim_fits(tasks@),
            queue@ == state_at(policy, tasks@, clock).queue,
            total_jobs == state_at(policy, tasks@, clock).released,
            missed_jobs == state_at(policy, tasks@, clock).missed,
            trace@.len() == clock,
            forall|k: int|
                0 <= k < clock ==> (#[trigger] trace@[k])@ == trace_at(policy, tasks@, k as usize),
        decreases end_time - clock,
    {
        let ghost s = state_at(policy, tasks@, clock);
        proof {
            lemma_state_invariant(policy, tasks@, clock);
            lemma_state_invariant(policy, tasks@, (clock + 1) as usize);
            assert(state_at(policy, tasks@, (clock + 1) as usize) == step_state(
                policy,
                tasks@,
                state_at(policy, tasks@, clock),
                clock,
            ));
        }
        let dead = evict_expired(&mut queue, clock);
        proof {
            lemma_surviving_props(s.queue, clock);
        }
        let arrived = admit_arrivals(&mut queue, tasks, clock);
        proof {
            // Requires of the sort: every queued job references a task.
            lemma_arrived_props(tasks@, clock);
            let kept = surviving(s.queue, clock);
            let arr = arrived_jobs(tasks@, clock);
            assert forall|k: int|
                0 <= k < queue@.len() implies 1 <= (#[trigger] queue@[k]).task_id
                <= tasks@.len() by {
                if k < kept.len() {
                    assert(queue@[k] == kept[k]);
                    let w = choose|w: int| 0 <= w < s.queue.len() && s.queue[w] == kept[k];
                } else {
                    assert(queue@[k] == arr[k - kept.len()]);
                }
            }
        }
        sort_ready_queue_by(policy, &mut queue, tasks, clock);
        let ghost q3 = ordered_queue(policy, tasks@, s, clock);
        proof {
            lemma_sort_contents(policy, tasks@, clock, surviving(s.queue, clock) + arrived_jobs(
                tasks@,
                clock,
            ));
            assert forall|i: int|
                0 <= i < q3.len() implies (#[trigger] q3[i]).remaining_execution_time >= 1 by {
                let q2 = surviving(s.queue, clock) + arrived_jobs(tasks@, clock);
                assert(q2.contains(q3[i]));
                let w = choose|w: int| 0 <= w < q2.len() && q2[w] == q3[i];
                if w < surviving(s.queue, clock).len() {
                    assert(surviving(s.queue, clock)[w] == q2[w]);
                    let v2 = choose|v2: int|
                        0 <= v2 < s.queue.len() && s.queue[v2] == surviving(s.queue, clock)[w];
                } else {
                    assert(arrived_jobs(tasks@, clock)[w - surviving(s.queue, clock).len()]
                        == q2[w]);
                }
            }
        }
        let running = execute_head(&mut queue);
        let ghost snext = state_at(policy, tasks@, (clock + 1) as usize);
        proof {
            // The released/missed counters stay within `usize`.
            assert(snext.released <= (clock + 1) * tasks@.len());
            assert((clock + 1) * tasks@.len() <= end_time_spec(tasks@) * tasks@.len())
                by (nonlinear_arith)
                requires
                    clock + 1 <= end_time_spec(tasks@),
                    tasks@.len() >= 0,
            ;
        }
        total_jobs = total_jobs + arrived.len();
        missed_jobs = missed_jobs + dead.len();
        let info = TickInfo { t: clock, running, arrival: arrived, dead };
        proof {
            assert(info@ == trace_at(policy, tasks@, clock));
        }
        trace.push(info);
        clock += 1;
    }
    Ok(RunResult { policy, schedulable: true, trace, total_jobs, missed_jobs })
}

/// Runs the simulation with a scheduler value instead of a policy tag.
pub fn simulate_scheduler<S: Scheduler>(scheduler: &S, tasks: &Vec<PeriodicTask>) -> (r: Result<
    RunResult,
    ConfigError,
>)
    ensures
        tasks@.len() == 0 ==> r == Err::<RunResult, ConfigError>(ConfigError::EmptyTaskSet),
        tasks@.len() > 0 && !tasks_fields_ok(tasks@) ==> r == Err::<RunResult, ConfigError>(
            ConfigError::InvalidTask,
        ),
        tasks_valid(tasks@) && !(sim_fits(tasks@) && test_fits(scheduler.policy(), tasks@)) ==> r
            == Err::<RunResult, ConfigError>(ConfigError::ArithmeticOverflow),
        tasks_valid(tasks@) && sim_fits(tasks@) && test_fits(scheduler.policy(), tasks@) ==> (r
            matches Ok(res) && res.policy == scheduler.policy() && res.schedulable
            == policy_schedulable(scheduler.policy(), tasks@)),
{
    simulate(scheduler.policy_id(), tasks)
}

} // verus!

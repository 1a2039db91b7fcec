use vstd::prelude::*;

use vstd::multiset::Multiset;
use vstd::seq_lib::group_to_multiset_ensures;

use crate::scheduler::scheduler::Policy;
use crate::structs::job::{job_slack, Job};
use crate::structs::task::PeriodicTask;

verus! {

/// The primary ordering key a policy assigns to a ready job: task period for
/// rate-monotonic, absolute deadline for earliest-deadline-first, slack for
/// least-slack-time. Smaller keys run first.
pub open spec fn job_key(p: Policy, tasks: Seq<PeriodicTask>, now: usize, j: Job) -> int {
    match p {
        Policy::RateMonotonic => tasks[j.task_id - 1].period as int,
        Policy::EarliestDeadlineFirst => j.absolute_deadline as int,
        Policy::LeastSlackTime => j.slack(now),
    }
}

/// The strict total order a policy imposes on the ready queue: by key, then
/// by task identifier, then by release time. Two distinct jobs of one task
/// never share a release time, so the order is total on any ready queue.
pub open spec fn job_before(p: Policy, tasks: Seq<PeriodicTask>, now: usize, a: Job, b: Job) -> bool {
    let ka = job_key(p, tasks, now, a);
    let kb = job_key(p, tasks, now, b);
    ||| ka < kb
    ||| (ka == kb && a.task_id < b.task_id)
    ||| (ka == kb && a.task_id == b.task_id && a.release_time < b.release_time)
}

/// No pair of queue positions is inverted with respect to the policy order.
pub open spec fn sorted_by_policy(p: Policy, tasks: Seq<PeriodicTask>, now: usize, s: Seq<Job>) -> bool {
    forall|i: int, k: int|
        0 <= i < k < s.len() ==> !job_before(p, tasks, now, #[trigger] s[k], #[trigger] s[i])
}

/// Places `j` in front of the first element it precedes.
pub open spec fn insert_job(p: Policy, tasks: Seq<PeriodicTask>, now: usize, s: Seq<Job>, j: Job) -> Seq<Job>
    decreases s.len(),
{
    if s.len() == 0 {
        seq![j]
    } else if job_before(p, tasks, now, j, s[0]) {
        seq![j] + s
    } else {
        seq![s[0]] + insert_job(p, tasks, now, s.drop_first(), j)
    }
}

/// Insertion sort over the policy order, processing the queue left to right.
pub open spec fn sort_jobs_spec(p: Policy, tasks: Seq<PeriodicTask>, now: usize, q: Seq<Job>) -> Seq<Job>
    decreases q.len(),
{
    if q.len() == 0 {
        Seq::empty()
    } else {
        insert_job(p, tasks, now, sort_jobs_spec(p, tasks, now, q.drop_last()), q.last())
    }
}

pub proof fn lemma_before_trans(p: Policy, tasks: Seq<PeriodicTask>, now: usize, a: Job, b: Job, c: Job)
    requires
        job_before(p, tasks, now, a, b),
        job_before(p, tasks, now, b, c),
    ensures
        job_before(p, tasks, now, a, c),
{
}

pub proof fn lemma_before_asym(p: Policy, tasks: Seq<PeriodicTask>, now: usize, a: Job, b: Job)
    requires
        job_before(p, tasks, now, a, b),
    ensures
        !job_before(p, tasks, now, b, a),
{
}

/// Inserting adds exactly the new job to the queue's contents.
pub proof fn lemma_insert_multiset(p: Policy, tasks: Seq<PeriodicTask>, now: usize, s: Seq<Job>, j: Job)
    ensures
        insert_job(p, tasks, now, s, j).to_multiset() =~= s.to_multiset().insert(j),
        insert_job(p, tasks, now, s, j).len() == s.len() + 1,
    decreases s.len(),
{
    broadcast use group_to_multiset_ensures;

    if s.len() == 0 {
        assert(seq![j] =~= Seq::<Job>::empty().push(j));
        assert(Seq::<Job>::empty().to_multiset() =~= Multiset::<Job>::empty());
    } else if job_before(p, tasks, now, j, s[0]) {
        assert(seq![j] + s =~= s.insert(0, j));
        lemma_multiset_of_seq_insert(s, 0, j);
    } else {
        lemma_insert_multiset(p, tasks, now, s.drop_first(), j);
        let t = insert_job(p, tasks, now, s.drop_first(), j);
        assert(seq![s[0]] + t =~= t.insert(0, s[0]));
        lemma_multiset_of_seq_insert(t, 0, s[0]);
        assert(s =~= s.drop_first().insert(0, s[0]));
        lemma_multiset_of_seq_insert(s.drop_first(), 0, s[0]);
    }
}

/// Inserting into a sequence inserts into its multiset of contents.
proof fn lemma_multiset_of_seq_insert(s: Seq<Job>, i: int, j: Job)
    requires
        0 <= i <= s.len(),
    ensures
        s.insert(i, j).to_multiset() =~= s.to_multiset().insert(j),
    decreases s.len(),
{
    broadcast use group_to_multiset_ensures;

    if i == s.len() {
        assert(s.insert(i, j) =~= s.push(j));
    } else {
        // Push the last element, insert into the rest, and re-push.
        let s0 = s.drop_last();
        lemma_multiset_of_seq_insert(s0, i, j);
        assert(s =~= s0.push(s.last()));
        assert(s.insert(i, j) =~= s0.insert(i, j).push(s.last()));
    }
}

/// Sorting permutes the queue: same contents, same length.
pub proof fn lemma_sort_multiset(p: Policy, tasks: Seq<PeriodicTask>, now: usize, q: Seq<Job>)
    ensures
        sort_jobs_spec(p, tasks, now, q).to_multiset() =~= q.to_multiset(),
        sort_jobs_spec(p, tasks, now, q).len() == q.len(),
    decreases q.len(),
{
    broadcast use group_to_multiset_ensures;

    if q.len() > 0 {
        lemma_sort_multiset(p, tasks, now, q.drop_last());
        lemma_insert_multiset(p, tasks, now, sort_jobs_spec(p, tasks, now, q.drop_last()), q.last());
        assert(q =~= q.drop_last().push(q.last()));
    }
}

/// Every element of a sorted-into queue is the new job or one of the old.
pub proof fn lemma_sort_contents(p: Policy, tasks: Seq<PeriodicTask>, now: usize, q: Seq<Job>)
    ensures
        forall|i: int|
            0 <= i < sort_jobs_spec(p, tasks, now, q).len() ==> q.contains(
                #[trigger] sort_jobs_spec(p, tasks, now, q)[i],
            ),
{
    broadcast use group_to_multiset_ensures;

    lemma_sort_multiset(p, tasks, now, q);
    let s = sort_jobs_spec(p, tasks, now, q);
    assert forall|i: int| 0 <= i < s.len() implies q.contains(#[trigger] s[i]) by {
        assert(s.contains(s[i]));
        assert(s.to_multiset().count(s[i]) > 0);
    }
}

/// Inserting into a sorted queue keeps it sorted.
pub proof fn lemma_insert_sorted(p: Policy, tasks: Seq<PeriodicTask>, now: usize, s: Seq<Job>, j: Job)
    requires
        sorted_by_policy(p, tasks, now, s),
    ensures
        sorted_by_policy(p, tasks, now, insert_job(p, tasks, now, s, j)),
    decreases s.len(),
{
    broadcast use group_to_multiset_ensures;

    if s.len() == 0 {
    } else if job_before(p, tasks, now, j, s[0]) {
        let r = seq![j] + s;
        assert forall|i: int, k: int|
            0 <= i < k < r.len() implies !job_before(p, tasks, now, r[k], r[i]) by {
            if i == 0 {
                // r[k] is an element of s; it cannot precede j.
                if job_before(p, tasks, now, r[k], j) {
                    lemma_before_trans(p, tasks, now, r[k], j, s[0]);
                    if k == 1 {
                        lemma_before_asym(p, tasks, now, j, s[0]);
                    } else {
                        assert(r[k] == s[k - 1]);
                        assert(!job_before(p, tasks, now, s[k - 1], s[0]));
                    }
                }
            } else {
                assert(r[i] == s[i - 1] && r[k] == s[k - 1]);
            }
        }
    } else {
        let rest = s.drop_first();
        assert(sorted_by_policy(p, tasks, now, rest)) by {
            assert forall|i: int, k: int|
                0 <= i < k < rest.len() implies !job_before(p, tasks, now, rest[k], rest[i]) by {
                assert(rest[i] == s[i + 1] && rest[k] == s[k + 1]);
            }
        }
        lemma_insert_sorted(p, tasks, now, rest, j);
        let t = insert_job(p, tasks, now, rest, j);
        lemma_insert_multiset(p, tasks, now, rest, j);
        let r = seq![s[0]] + t;
        assert forall|i: int, k: int|
            0 <= i < k < r.len() implies !job_before(p, tasks, now, r[k], r[i]) by {
            if i == 0 {
                // r[k] is j or an element of rest; neither precedes s[0].
                assert(t.contains(t[k - 1]));
                assert(t.to_multiset().count(t[k - 1]) > 0);
                if t[k - 1] == j {
                    assert(!job_before(p, tasks, now, j, s[0]));
                } else {
                    assert(rest.to_multiset().count(t[k - 1]) > 0);
                    assert(rest.contains(t[k - 1]));
                    let w = choose|w: int| 0 <= w < rest.len() && rest[w] == t[k - 1];
                    assert(rest[w] == s[w + 1]);
                    assert(!job_before(p, tasks, now, s[w + 1], s[0]));
                }
            } else {
                assert(r[i] == t[i - 1] && r[k] == t[k - 1]);
            }
        }
    }
}

/// The spec-level sort yields a queue sorted by the policy order.
pub proof fn lemma_sort_sorted(p: Policy, tasks: Seq<PeriodicTask>, now: usize, q: Seq<Job>)
    ensures
        sorted_by_policy(p, tasks, now, sort_jobs_spec(p, tasks, now, q)),
    decreases q.len(),
{
    if q.len() > 0 {
        lemma_sort_sorted(p, tasks, now, q.drop_last());
        lemma_insert_sorted(p, tasks, now, sort_jobs_spec(p, tasks, now, q.drop_last()), q.last());
    }
}

/// Ties in the primary key are broken by the task identifier: among jobs
/// with equal keys, the one with the smaller identifier comes first in the
/// sorted queue, and jobs of one task come in release order.
pub proof fn lemma_ties_ordered_by_task_id(
    p: Policy,
    tasks: Seq<PeriodicTask>,
    now: usize,
    q: Seq<Job>,
    i: int,
    k: int,
)
    requires
        0 <= i < k < sort_jobs_spec(p, tasks, now, q).len(),
        job_key(p, tasks, now, sort_jobs_spec(p, tasks, now, q)[i]) == job_key(
            p,
            tasks,
            now,
            sort_jobs_spec(p, tasks, now, q)[k],
        ),
    ensures
        sort_jobs_spec(p, tasks, now, q)[i].task_id <= sort_jobs_spec(p, tasks, now, q)[k].task_id,
        sort_jobs_spec(p, tasks, now, q)[i].task_id == sort_jobs_spec(p, tasks, now, q)[k].task_id
            ==> sort_jobs_spec(p, tasks, now, q)[i].release_time <= sort_jobs_spec(
            p,
            tasks,
            now,
            q,
        )[k].release_time,
{
    lemma_sort_sorted(p, tasks, now, q);
}

/// Executable policy comparison; mirrors `job_before`.
fn job_before_exec(p: Policy, tasks: &Vec<PeriodicTask>, now: usize, a: &Job, b: &Job) -> (r: bool)
    requires
        p is RateMonotonic ==> 1 <= a.task_id <= tasks@.len() && 1 <= b.task_id <= tasks@.len(),
    ensures
        r == job_before(p, tasks@, now, *a, *b),
{
    let tie = a.task_id < b.task_id || (a.task_id == b.task_id && a.release_time < b.release_time);
    match p {
        Policy::RateMonotonic => {
            let pa = tasks[a.task_id - 1].period;
            let pb = tasks[b.task_id - 1].period;
            pa < pb || (pa == pb && tie)
        },
        Policy::EarliestDeadlineFirst => {
            a.absolute_deadline < b.absolute_deadline || (a.absolute_deadline
                == b.absolute_deadline && tie)
        },
        Policy::LeastSlackTime => {
            let sa = job_slack(a, now);
            let sb = job_slack(b, now);
            sa < sb || (sa == sb && tie)
        },
    }
}

/// The first position in `out` whose job the new job precedes, or the length
/// when it precedes none.
fn find_insert_pos(p: Policy, tasks: &Vec<PeriodicTask>, now: usize, out: &Vec<Job>, j: &Job) -> (pos:
    usize)
    requires
        p is RateMonotonic ==> 1 <= j.task_id <= tasks@.len() && forall|k: int|
            0 <= k < out@.len() ==> 1 <= (#[trigger] out@[k]).task_id <= tasks@.len(),
    ensures
        pos <= out@.len(),
        forall|k: int| 0 <= k < pos ==> !job_before(p, tasks@, now, *j, #[trigger] out@[k]),
        pos < out@.len() ==> job_before(p, tasks@, now, *j, out@[pos as int]),
{
    let mut i: usize = 0;
    while i < out.len()
        invariant
            i <= out@.len(),
            forall|k: int| 0 <= k < i ==> !job_before(p, tasks@, now, *j, #[trigger] out@[k]),
            p is RateMonotonic ==> 1 <= j.task_id <= tasks@.len() && forall|k: int|
                0 <= k < out@.len() ==> 1 <= (#[trigger] out@[k]).task_id <= tasks@.len(),
        decreases out@.len() - i,
    {
        if job_before_exec(p, tasks, now, j, &out[i]) {
            return i;
        }
        i += 1;
    }
    i
}

/// Inserting at the first position the job precedes realizes `insert_job`.
proof fn lemma_insert_at_first_pos(
    p: Policy,
    tasks: Seq<PeriodicTask>,
    now: usize,
    s: Seq<Job>,
    j: Job,
    pos: int,
)
    requires
        0 <= pos <= s.len(),
        forall|k: int| 0 <= k < pos ==> !job_before(p, tasks, now, j, #[trigger] s[k]),
        pos < s.len() ==> job_before(p, tasks, now, j, s[pos]),
    ensures
        insert_job(p, tasks, now, s, j) =~= s.insert(pos, j),
    decreases s.len(),
{
    if s.len() == 0 {
        assert(seq![j] =~= s.insert(0, j));
    } else if job_before(p, tasks, now, j, s[0]) {
        assert(pos == 0);
        assert(seq![j] + s =~= s.insert(0, j));
    } else {
        let rest = s.drop_first();
        assert(forall|k: int|
            0 <= k < pos - 1 ==> !job_before(p, tasks, now, j, #[trigger] rest[k]));
        lemma_insert_at_first_pos(p, tasks, now, rest, j, pos - 1);
        assert(seq![s[0]] + rest.insert(pos - 1, j) =~= s.insert(pos, j));
    }
}

/// Sorts the ready queue by the policy order: ascending key, ties broken by
/// task identifier, then by release time.
pub fn sort_ready_queue_by(p: Policy, queue: &mut Vec<Job>, tasks: &Vec<PeriodicTask>, now: usize)
    requires
        p is RateMonotonic ==> forall|k: int|
            0 <= k < old(queue)@.len() ==> 1 <= (#[trigger] old(queue)@[k]).task_id <= tasks@.len(),
    ensures
        final(queue)@ == sort_jobs_spec(p, tasks@, now, old(queue)@),
{
    let ghost q0 = queue@;
    let mut out: Vec<Job> = Vec::new();
    let mut i: usize = 0;
    while i < queue.len()
        invariant
            i <= q0.len(),
            queue@ == q0,
            out@ == sort_jobs_spec(p, tasks@, now, q0.take(i as int)),
            p is RateMonotonic ==> forall|k: int|
                0 <= k < q0.len() ==> 1 <= (#[trigger] q0[k]).task_id <= tasks@.len(),
        decreases q0.len() - i,
    {
        let ghost pre = q0.take(i as int);
        let ghost cur = q0.take(i + 1);
        proof {
            assert(cur.drop_last() =~= pre);
            assert(cur.last() == q0[i as int]);
            if p is RateMonotonic {
                lemma_sort_contents(p, tasks@, now, pre);
                assert forall|k: int|
                    0 <= k < out@.len() implies 1 <= (#[trigger] out@[k]).task_id
                    <= tasks@.len() by {
                    assert(pre.contains(out@[k]));
                    let w = choose|w: int| 0 <= w < pre.len() && pre[w] == out@[k];
                    assert(pre[w] == q0[w]);
                }
            }
        }
        let j = queue[i];
        let pos = find_insert_pos(p, tasks, now, &out, &j);
        let ghost before_ins = out@;
        out.insert(pos, j);
        proof {
            lemma_insert_at_first_pos(p, tasks@, now, before_ins, j, pos as int);
        }
        i += 1;
    }
    proof {
        assert(q0.take(q0.len() as int) =~= q0);
    }
    *queue = out;
}

} // verus!

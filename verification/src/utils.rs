use vstd::prelude::*;

use crate::structs::task::PeriodicTask;

verus! {

/// Euclid's greatest common divisor.
pub open spec fn gcd_spec(a: nat, b: nat) -> nat
    decreases b,
{
    if b == 0 {
        a
    } else {
        gcd_spec(b, a % b)
    }
}

/// Least common multiple, defined through the gcd. The value for
/// `a == b == 0` is irrelevant: every executable path excludes it.
pub open spec fn lcm_spec(a: nat, b: nat) -> nat {
    if gcd_spec(a, b) == 0 {
        0
    } else {
        ((a * b) / gcd_spec(a, b)) as nat
    }
}

pub proof fn lemma_gcd_pos(a: nat, b: nat)
    requires
        a > 0 || b > 0,
    ensures
        gcd_spec(a, b) > 0,
    decreases b,
{
    if b != 0 {
        lemma_gcd_pos(b, a % b);
    }
}

pub proof fn lemma_gcd_le(a: nat, b: nat)
    requires
        b > 0,
    ensures
        gcd_spec(a, b) <= b,
    decreases b,
{
    if a % b == 0 {
        assert(gcd_spec(a, b) == gcd_spec(b, a % b));
        assert(gcd_spec(b, 0nat) == b);
    } else {
        lemma_gcd_le(b, a % b);
        assert(a % b < b);
    }
}

/// With positive arguments the least common multiple is positive.
pub proof fn lemma_lcm_pos(a: nat, b: nat)
    requires
        a > 0,
        b > 0,
    ensures
        lcm_spec(a, b) >= 1,
{
    lemma_gcd_pos(a, b);
    lemma_gcd_le(a, b);
    let g = gcd_spec(a, b);
    assert(b <= a * b) by (nonlinear_arith)
        requires a >= 1 && b >= 0,
    ;
    assert(g <= a * b);
    assert((a * b) / g >= 1) by (nonlinear_arith)
        requires g >= 1 && g <= a * b,
    ;
}

/// Greatest common divisor of two numbers.
pub fn gcd(a: usize, b: usize) -> (r: usize)
    ensures
        r == gcd_spec(a as nat, b as nat),
    decreases b,
{
    if b == 0 {
        a
    } else {
        gcd(b, a % b)
    }
}

/// Least common multiple of two numbers, at least one of them positive.
pub fn lcm(a: usize, b: usize) -> (r: usize)
    requires
        a > 0 || b > 0,
        a * b <= usize::MAX,
    ensures
        r == lcm_spec(a as nat, b as nat),
{
    proof {
        lemma_gcd_pos(a as nat, b as nat);
    }
    let g = gcd(a, b);
    (a * b) / g
}

/// The largest phase offset in the task set, 0 when the set is empty.
pub open spec fn max_phase_spec(tasks: Seq<PeriodicTask>) -> usize
    decreases tasks.len(),
{
    if tasks.len() == 0 {
        0
    } else {
        let rest = max_phase_spec(tasks.drop_last());
        if tasks.last().phase > rest {
            tasks.last().phase
        } else {
            rest
        }
    }
}

/// Computes the largest phase offset among the tasks.
pub fn max_phase(tasks: &Vec<PeriodicTask>) -> (r: usize)
    ensures
        r == max_phase_spec(tasks@),
{
    let mut best: usize = 0;
    let mut i: usize = 0;
    while i < tasks.len()
        invariant
            i <= tasks.len(),
            best == max_phase_spec(tasks@.take(i as int)),
        decreases tasks.len() - i,
    {
        proof {
            assert(tasks@.take(i + 1).drop_last() =~= tasks@.take(i as int));
            assert(tasks@.take(i + 1).last() == tasks@[i as int]);
        }
        if tasks[i].phase > best {
            best = tasks[i].phase;
        }
        i += 1;
    }
    proof {
        assert(tasks@.take(tasks@.len() as int) =~= tasks@);
    }
    best
}

/// The hyperperiod: folding `lcm` over the task periods, starting at 1.
pub open spec fn lcm_fold(tasks: Seq<PeriodicTask>) -> nat
    decreases tasks.len(),
{
    if tasks.len() == 0 {
        1
    } else {
        lcm_spec(lcm_fold(tasks.drop_last()), tasks.last().period as nat)
    }
}

/// Whether every intermediate product of the hyperperiod fold stays within
/// `usize`, so that the fold is machine-computable.
pub open spec fn lcm_fold_fits(tasks: Seq<PeriodicTask>) -> bool
    decreases tasks.len(),
{
    if tasks.len() == 0 {
        true
    } else {
        lcm_fold_fits(tasks.drop_last()) && lcm_fold(tasks.drop_last()) * tasks.last().period
            <= usize::MAX
    }
}

/// The least common multiple of all task periods, the length of one
/// hyperperiod. Requires that the intermediate products stay within `usize`;
/// `hyperperiod_checked` reports instead of requiring.
pub fn lcm_of_periods(tasks: &Vec<PeriodicTask>) -> (r: usize)
    requires
        forall|i: int| 0 <= i < tasks@.len() ==> (#[trigger] tasks@[i]).period >= 1,
        lcm_fold_fits(tasks@),
    ensures
        r == lcm_fold(tasks@),
{
    match hyperperiod_checked(tasks) {
        Some(v) => v,
        None => {
            // Unreachable: the fold fits by precondition.
            proof {
                assert(false);
            }
            0
        },
    }
}

/// Computes the hyperperiod, or `None` when an intermediate product exceeds
/// `usize`.
pub fn hyperperiod_checked(tasks: &Vec<PeriodicTask>) -> (r: Option<usize>)
    requires
        forall|i: int| 0 <= i < tasks@.len() ==> (#[trigger] tasks@[i]).period >= 1,
    ensures
        match r {
            Some(v) => lcm_fold_fits(tasks@) && v == lcm_fold(tasks@),
            None => !lcm_fold_fits(tasks@),
        },
{
    let mut acc: usize = 1;
    let mut i: usize = 0;
    while i < tasks.len()
        invariant
            i <= tasks.len(),
            forall|k: int| 0 <= k < tasks@.len() ==> (#[trigger] tasks@[k]).period >= 1,
            acc == lcm_fold(tasks@.take(i as int)),
            acc >= 1,
            lcm_fold_fits(tasks@.take(i as int)),
        decreases tasks.len() - i,
    {
        proof {
            assert(tasks@.take(i + 1).drop_last() =~= tasks@.take(i as int));
            assert(tasks@.take(i + 1).last() == tasks@[i as int]);
        }
        let p = tasks[i].period;
        match acc.checked_mul(p) {
            Some(_) => {
                proof {
                    lemma_lcm_pos(acc as nat, p as nat);
                }
                acc = lcm(acc, p);
            },
            None => {
                proof {
                    lemma_fold_fits_prefix_fails(tasks@, i + 1);
                }
                return None;
            },
        }
        i += 1;
    }
    proof {
        assert(tasks@.take(tasks@.len() as int) =~= tasks@);
    }
    Some(acc)
}

/// When a prefix of the fold already overflows, the whole fold overflows.
proof fn lemma_fold_fits_prefix_fails(tasks: Seq<PeriodicTask>, k: int)
    requires
        0 <= k <= tasks.len(),
        !lcm_fold_fits(tasks.take(k)),
    ensures
        !lcm_fold_fits(tasks),
    decreases tasks.len(),
{
    if k < tasks.len() {
        assert(tasks.drop_last().take(k) =~= tasks.take(k));
        lemma_fold_fits_prefix_fails(tasks.drop_last(), k);
    } else {
        assert(tasks.take(k) =~= tasks);
    }
}

} // verus!

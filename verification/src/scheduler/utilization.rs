use vstd::prelude::*;

use vstd::arithmetic::power::{pow, lemma_pow_increases, lemma_pow1, lemma_pow_positive};

use crate::structs::task::PeriodicTask;

verus! {

// The total utilization of a task set is the rational number
// `U = sum over tasks of wcet / min(period, deadline)`.
// It is represented exactly as the fraction `util_num / util_den`, built by
// bringing each summand to the running common denominator:
// the denominator is the product of all `min(period, deadline)` values.

/// Denominator of the exact utilization fraction: the product of every
/// task's `min(period, deadline)`.
pub open spec fn util_den(tasks: Seq<PeriodicTask>) -> int
    decreases tasks.len(),
{
    if tasks.len() == 0 {
        1
    } else {
        util_den(tasks.drop_last()) * tasks.last().min_period_deadline()
    }
}

/// Numerator of the exact utilization fraction over the denominator
/// `util_den`: adding task `t` to a set with fraction `n / d` yields
/// `(n * m + wcet * d) / (d * m)` for `m = min(period, deadline)` of `t`.
pub open spec fn util_num(tasks: Seq<PeriodicTask>) -> int
    decreases tasks.len(),
{
    if tasks.len() == 0 {
        0
    } else {
        util_num(tasks.drop_last()) * tasks.last().min_period_deadline() + (
        tasks.last().worst_case_execution_time as int) * util_den(tasks.drop_last())
    }
}

/// Whether numerator and denominator of every prefix of the fraction stay
/// within `u128`, so the fraction is machine-computable.
pub open spec fn util_fits(tasks: Seq<PeriodicTask>) -> bool
    decreases tasks.len(),
{
    if tasks.len() == 0 {
        true
    } else {
        util_fits(tasks.drop_last()) && util_num(tasks) <= u128::MAX && util_den(tasks)
            <= u128::MAX
    }
}

/// The earliest-deadline-first feasibility condition: total utilization at
/// most 1, that is, the fraction's numerator at most its denominator.
pub open spec fn edf_schedulable(tasks: Seq<PeriodicTask>) -> bool {
    util_num(tasks) <= util_den(tasks)
}

/// The rate-monotonic Liu–Layland condition `U <= n * (2^(1/n) - 1)` for
/// `n` tasks, stated exactly over integers: with `U = p / q`, the condition
/// is equivalent to `(U/n + 1)^n <= 2` (raising both sides of
/// `U/n + 1 <= 2^(1/n)` to the n-th power), which clears to
/// `(p + n*q)^n <= 2 * (n*q)^n`.
pub open spec fn rm_schedulable(tasks: Seq<PeriodicTask>) -> bool {
    let n = tasks.len() as nat;
    let p = util_num(tasks);
    let q = util_den(tasks);
    pow(p + n * q, n) <= 2 * pow(n * q, n)
}

/// Whether the exact rate-monotonic comparison is machine-computable: the
/// fraction fits and the left-hand power stays within `u128`.
pub open spec fn rm_fits(tasks: Seq<PeriodicTask>) -> bool {
    let n = tasks.len() as nat;
    util_fits(tasks) && pow(util_num(tasks) + n * util_den(tasks), n) <= u128::MAX
}

pub proof fn lemma_util_bounds(tasks: Seq<PeriodicTask>)
    requires
        forall|i: int| 0 <= i < tasks.len() ==> (#[trigger] tasks[i]).wf(),
    ensures
        util_den(tasks) >= 1,
        util_num(tasks) >= 0,
    decreases tasks.len(),
{
    if tasks.len() > 0 {
        lemma_util_bounds(tasks.drop_last());
        let d = util_den(tasks.drop_last());
        let p = util_num(tasks.drop_last());
        let m = tasks.last().min_period_deadline();
        let c = tasks.last().worst_case_execution_time as int;
        assert(d * m >= 1) by (nonlinear_arith)
            requires d >= 1 && m >= 1,
        ;
        assert(p * m + c * d >= 0) by (nonlinear_arith)
            requires p >= 0 && m >= 1 && c >= 0 && d >= 1,
        ;
    }
}

/// When a prefix of the fraction already overflows, the whole fails to fit.
proof fn lemma_util_fits_prefix_fails(tasks: Seq<PeriodicTask>, k: int)
    requires
        0 <= k <= tasks.len(),
        !util_fits(tasks.take(k)),
    ensures
        !util_fits(tasks),
    decreases tasks.len(),
{
    if k < tasks.len() {
        assert(tasks.drop_last().take(k) =~= tasks.take(k));
        lemma_util_fits_prefix_fails(tasks.drop_last(), k);
    } else {
        assert(tasks.take(k) =~= tasks);
    }
}

/// Computes the exact utilization fraction `(numerator, denominator)`, or
/// `None` when an intermediate value exceeds `u128`.
pub fn utilization_fraction(tasks: &Vec<PeriodicTask>) -> (r: Option<(u128, u128)>)
    requires
        forall|i: int| 0 <= i < tasks@.len() ==> (#[trigger] tasks@[i]).wf(),
    ensures
        match r {
            Some(f) => util_fits(tasks@) && f.0 == util_num(tasks@) && f.1 == util_den(tasks@),
            None => !util_fits(tasks@),
        },
{
    let mut num: u128 = 0;
    let mut den: u128 = 1;
    let mut i: usize = 0;
    while i < tasks.len()
        invariant
            i <= tasks.len(),
            forall|k: int| 0 <= k < tasks@.len() ==> (#[trigger] tasks@[k]).wf(),
            num == util_num(tasks@.take(i as int)),
            den == util_den(tasks@.take(i as int)),
            util_fits(tasks@.take(i as int)),
        decreases tasks.len() - i,
    {
        let ghost pre = tasks@.take(i as int);
        let ghost cur = tasks@.take(i + 1);
        proof {
            assert(cur.drop_last() =~= pre);
            assert(cur.last() == tasks@[i as int]);
            lemma_util_bounds(pre);
        }
        let t = tasks[i];
        let m: u128 = if t.period <= t.relative_deadline {
            t.period as u128
        } else {
            t.relative_deadline as u128
        };
        let c: u128 = t.worst_case_execution_time as u128;
        let num_scaled = match num.checked_mul(m) {
            Some(v) => v,
            None => {
                proof {
                    let pnew = util_num(cur);
                    assert(pnew == num * m + c * den);
                    assert(c * den >= 0) by (nonlinear_arith)
                        requires c >= 0 && den >= 1,
                    ;
                    assert(pnew > u128::MAX);
                    lemma_util_fits_prefix_fails(tasks@, i + 1);
                }
                return None;
            },
        };
        let add_part = match c.checked_mul(den) {
            Some(v) => v,
            None => {
                proof {
                    assert(util_num(cur) == num * m + c * den);
                    assert(num * m >= 0) by (nonlinear_arith)
                        requires num >= 0 && m >= 1,
                    ;
                    lemma_util_fits_prefix_fails(tasks@, i + 1);
                }
                return None;
            },
        };
        let num_new = match num_scaled.checked_add(add_part) {
            Some(v) => v,
            None => {
                proof {
                    lemma_util_fits_prefix_fails(tasks@, i + 1);
                }
                return None;
            },
        };
        let den_new = match den.checked_mul(m) {
            Some(v) => v,
            None => {
                proof {
                    lemma_util_fits_prefix_fails(tasks@, i + 1);
                }
                return None;
            },
        };
        num = num_new;
        den = den_new;
        i += 1;
    }
    proof {
        assert(tasks@.take(tasks@.len() as int) =~= tasks@);
    }
    Some((num, den))
}

/// Raises `base` to the `exp`-th power, or `None` when the result exceeds
/// `u128`.
fn checked_pow_u128(base: u128, exp: usize) -> (r: Option<u128>)
    ensures
        match r {
            Some(v) => v == pow(base as int, exp as nat) && pow(base as int, exp as nat)
                <= u128::MAX,
            None => pow(base as int, exp as nat) > u128::MAX,
        },
{
    let mut acc: u128 = 1;
    let mut i: usize = 0;
    proof {
        vstd::arithmetic::power::lemma_pow0(base as int);
    }
    while i < exp
        invariant
            i <= exp,
            acc == pow(base as int, i as nat),
        decreases exp - i,
    {
        proof {
            reveal(pow);
            assert(pow(base as int, (i + 1) as nat) == (base as int) * pow(base as int, i as nat));
        }
        match acc.checked_mul(base) {
            Some(v) => {
                proof {
                    assert((acc as int) * (base as int) == (base as int) * (acc as int))
                        by (nonlinear_arith);
                }
                acc = v;
            },
            None => {
                proof {
                    assert((acc as int) * (base as int) == (base as int) * (acc as int))
                        by (nonlinear_arith);
                    assert(base >= 1) by (nonlinear_arith)
                        requires (acc as int) * (base as int) > u128::MAX && base >= 0,
                    ;
                    lemma_pow_increases(base as nat, (i + 1) as nat, exp as nat);
                }
                return None;
            },
        }
        i += 1;
    }
    Some(acc)
}

/// Power of a non-negative base is non-negative.
proof fn lemma_pow_nonneg(b: int, e: nat)
    requires
        b >= 0,
    ensures
        pow(b, e) >= 0,
    decreases e,
{
    reveal(pow);
    if e > 0 {
        lemma_pow_nonneg(b, (e - 1) as nat);
        assert(b * pow(b, (e - 1) as nat) >= 0) by (nonlinear_arith)
            requires b >= 0 && pow(b, (e - 1) as nat) >= 0,
        ;
    }
}

/// Power is monotone in the base for non-negative bases.
proof fn lemma_pow_le_base(b1: int, b2: int, e: nat)
    requires
        0 <= b1 <= b2,
    ensures
        pow(b1, e) <= pow(b2, e),
    decreases e,
{
    reveal(pow);
    if e > 0 {
        lemma_pow_le_base(b1, b2, (e - 1) as nat);
        lemma_pow_nonneg(b1, (e - 1) as nat);
        lemma_pow_nonneg(b2, (e - 1) as nat);
        assert(b1 * pow(b1, (e - 1) as nat) <= b2 * pow(b2, (e - 1) as nat)) by (nonlinear_arith)
            requires
                0 <= b1 <= b2,
                0 <= pow(b1, (e - 1) as nat) <= pow(b2, (e - 1) as nat),
        ;
    }
}

/// The exact earliest-deadline-first test: schedulable iff the total
/// utilization is at most 1. `None` when the exact fraction exceeds `u128`.
pub fn edf_schedulability_test(tasks: &Vec<PeriodicTask>) -> (r: Option<bool>)
    requires
        forall|i: int| 0 <= i < tasks@.len() ==> (#[trigger] tasks@[i]).wf(),
    ensures
        r is Some <==> util_fits(tasks@),
        r matches Some(b) ==> b == edf_schedulable(tasks@),
{
    match utilization_fraction(tasks) {
        Some((num, den)) => Some(num <= den),
        None => None,
    }
}

/// The exact rate-monotonic Liu–Layland test: schedulable iff the total
/// utilization is at most `n * (2^(1/n) - 1)`, decided by the equivalent
/// integer comparison `(p + n*q)^n <= 2 * (n*q)^n`. `None` when the exact
/// values exceed `u128`.
pub fn rm_schedulability_test(tasks: &Vec<PeriodicTask>) -> (r: Option<bool>)
    requires
        forall|i: int| 0 <= i < tasks@.len() ==> (#[trigger] tasks@[i]).wf(),
    ensures
        r is Some <==> rm_fits(tasks@),
        r matches Some(b) ==> b == rm_schedulable(tasks@),
{
    let (num, den) = match utilization_fraction(tasks) {
        Some(f) => f,
        None => {
            return None;
        },
    };
    proof {
        lemma_util_bounds(tasks@);
    }
    let n = tasks.len();
    let ghost nn = tasks@.len() as nat;
    let ghost a_int = util_num(tasks@) + nn * util_den(tasks@);
    if n == 0 {
        proof {
            vstd::arithmetic::power::lemma_pow0(a_int);
            vstd::arithmetic::power::lemma_pow0(nn * util_den(tasks@));
        }
        return Some(true);
    }
    let nd = match (n as u128).checked_mul(den) {
        Some(v) => v,
        None => {
            proof {
                lemma_nd_overflow_means_unfit(tasks@);
            }
            return None;
        },
    };
    let a = match num.checked_add(nd) {
        Some(v) => v,
        None => {
            proof {
                lemma_a_ge_parts(tasks@);
            }
            return None;
        },
    };
    proof {
        assert(a == a_int);
        lemma_a_ge_parts(tasks@);
    }
    let pa = match checked_pow_u128(a, n) {
        Some(v) => v,
        None => {
            return None;
        },
    };
    let pb = match checked_pow_u128(nd, n) {
        Some(v) => v,
        None => {
            // Unreachable: the smaller base's power fits whenever the
            // larger base's power does.
            proof {
                lemma_pow_le_base(nd as int, a as int, nn);
            }
            assert(false);
            return None;
        },
    };
    if pa <= pb {
        proof {
            lemma_pow_positive(nd as int, nn);
        }
        Some(true)
    } else {
        match pb.checked_mul(2) {
            Some(two_pb) => Some(pa <= two_pb),
            None => {
                // 2 * pb exceeds u128::MAX >= pa, so the comparison holds.
                Some(true)
            },
        }
    }
}

/// When `n * q` alone exceeds `u128`, so does the left-hand power.
proof fn lemma_nd_overflow_means_unfit(tasks: Seq<PeriodicTask>)
    requires
        forall|i: int| 0 <= i < tasks.len() ==> (#[trigger] tasks[i]).wf(),
        tasks.len() >= 1,
        tasks.len() * util_den(tasks) > u128::MAX,
    ensures
        !rm_fits(tasks),
{
    lemma_a_ge_parts(tasks);
}

/// The power base `p + n*q` dominates both of its parts, and the power
/// dominates the base.
proof fn lemma_a_ge_parts(tasks: Seq<PeriodicTask>)
    requires
        forall|i: int| 0 <= i < tasks.len() ==> (#[trigger] tasks[i]).wf(),
        tasks.len() >= 1,
    ensures
        util_num(tasks) + tasks.len() * util_den(tasks) >= tasks.len() * util_den(tasks) >= 1,
        util_num(tasks) + tasks.len() * util_den(tasks) >= util_num(tasks),
        pow(util_num(tasks) + tasks.len() * util_den(tasks), tasks.len() as nat) >= util_num(
            tasks,
        ) + tasks.len() * util_den(tasks),
{
    lemma_util_bounds(tasks);
    let n = tasks.len() as int;
    let q = util_den(tasks);
    let p = util_num(tasks);
    assert(n * q >= 1) by (nonlinear_arith)
        requires n >= 1 && q >= 1,
    ;
    let a = p + n * q;
    lemma_pow1(a);
    lemma_pow_increases(a as nat, 1, tasks.len() as nat);
}

} // verus!

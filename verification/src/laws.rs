use vstd::prelude::*;

use crate::decimal::{
    abs_spec, div_of, le_spec, lemma_le_lt_trans, lemma_lt_le_trans, lemma_nonneg_not_lt_nonpos,
    lemma_zero_le_nonneg, lt_spec, one_dec, sub_of, zero_dec, Dec,
};
use crate::solver::{
    ones, row_sum, row_value, run, sweep, sweep_prefix, Equation, ESolveError, SolveOutcome,
};

verus! {

/// Law: the solver is deterministic. Any two results that its contract admits
/// for the same equation are the same result — same success or failure, and on
/// success the same solution values.
pub proof fn lemma_solve_deterministic(
    eq: &Equation,
    r1: Result<Vec<Dec>, ESolveError>,
    r2: Result<Vec<Dec>, ESolveError>,
)
    requires
        eq.solve_post(r1),
        eq.solve_post(r2),
    ensures
        r1 is Ok <==> r2 is Ok,
        r1 is Ok ==> r1->Ok_0@ == r2->Ok_0@,
        r1 is Err ==> r1 == r2,
{
}

/// The largest per-row change a sweep reports never has a negative mantissa:
/// it starts at zero and only ever moves up to an absolute value.
proof fn lemma_sweep_prefix_delta_nonneg(m: Seq<Seq<Dec>>, b: Seq<Dec>, x: Seq<Dec>, i: int)
    requires
        sweep_prefix(m, b, x, i) is Some,
    ensures
        sweep_prefix(m, b, x, i)->Some_0.1.mantissa >= 0,
    decreases i,
{
    if i > 0 {
        lemma_sweep_prefix_delta_nonneg(m, b, x, i - 1);
    }
}

/// A run that converges does so after more sweeps than were already behind it.
proof fn lemma_run_converged_sweeps_min(
    m: Seq<Seq<Dec>>,
    b: Seq<Dec>,
    eps: Dec,
    x: Seq<Dec>,
    done: nat,
    left: nat,
)
    requires
        run(m, b, eps, x, done, left) is Converged,
    ensures
        run(m, b, eps, x, done, left)->Converged_1 > done,
    decreases left,
{
    let sd = sweep(m, b, x)->Some_0;
    if !lt_spec(sd.1, eps) && left > 1 {
        lemma_run_converged_sweeps_min(m, b, eps, sd.0, done + 1, (left - 1) as nat);
    }
}

/// Tightening the tolerance can only postpone convergence: if a run converges
/// under the smaller tolerance, the same run under the larger one converges
/// too, in at most as many sweeps.
proof fn lemma_run_epsilon_monotone(
    m: Seq<Seq<Dec>>,
    b: Seq<Dec>,
    eps1: Dec,
    eps2: Dec,
    x: Seq<Dec>,
    done: nat,
    left: nat,
)
    requires
        le_spec(eps1, eps2),
        run(m, b, eps1, x, done, left) is Converged,
    ensures
        run(m, b, eps2, x, done, left) is Converged,
        run(m, b, eps2, x, done, left)->Converged_1 <= run(m, b, eps1, x, done, left)->Converged_1,
    decreases left,
{
    let sd = sweep(m, b, x)->Some_0;
    if lt_spec(sd.1, eps1) {
        lemma_lt_le_trans(sd.1, eps1, eps2);
    } else if lt_spec(sd.1, eps2) {
        lemma_run_converged_sweeps_min(m, b, eps1, sd.0, done + 1, (left - 1) as nat);
    } else {
        lemma_run_epsilon_monotone(m, b, eps1, eps2, sd.0, done + 1, (left - 1) as nat);
    }
}

/// Law: tolerance monotonicity. Take two equations that agree on the matrix,
/// the right-hand side and the iteration cap, and differ only in the
/// tolerance. If the solve with the smaller tolerance converges, the solve
/// with the larger one converges as well, and needs no more sweeps: a tighter
/// tolerance never takes fewer sweeps.
pub proof fn lemma_tolerance_monotone(eq1: &Equation, eq2: &Equation)
    requires
        eq1.mat() == eq2.mat(),
        eq1.rhs() == eq2.rhs(),
        eq1.max_iterations == eq2.max_iterations,
        le_spec(eq1.epsilon, eq2.epsilon),
        eq1.solve_outcome() is Converged,
    ensures
        eq2.solve_outcome() is Converged,
        eq2.solve_outcome()->Converged_1 <= eq1.solve_outcome()->Converged_1,
{
    lemma_run_epsilon_monotone(
        eq1.mat(),
        eq1.rhs(),
        eq1.epsilon,
        eq2.epsilon,
        ones(eq1.mat().len()),
        0,
        eq1.max_iterations as nat,
    );
}

/// A run that diverges has spent its whole budget, and nothing more: the
/// sweeps it reports are the sweeps already behind it plus the budget it was
/// given (with one sweep always running, budget or none).
proof fn lemma_run_diverged_sweeps(
    m: Seq<Seq<Dec>>,
    b: Seq<Dec>,
    eps: Dec,
    x: Seq<Dec>,
    done: nat,
    left: nat,
)
    requires
        run(m, b, eps, x, done, left) is Diverged,
    ensures
        run(m, b, eps, x, done, left)->Diverged_0 == done + (if left == 0 {
            1nat
        } else {
            left
        }),
    decreases left,
{
    let sd = sweep(m, b, x)->Some_0;
    if !lt_spec(sd.1, eps) && left > 1 {
        lemma_run_diverged_sweeps(m, b, eps, sd.0, done + 1, (left - 1) as nat);
    }
}

/// Law: divergence comes exactly at the cap. A solve that diverges has swept
/// precisely `max_iterations` times — never fewer.
pub proof fn lemma_diverged_at_cap(eq: &Equation)
    requires
        eq.max_iterations >= 1,
        eq.solve_outcome() is Diverged,
    ensures
        eq.solve_outcome()->Diverged_0 == eq.max_iterations,
{
    lemma_run_diverged_sweeps(
        eq.mat(),
        eq.rhs(),
        eq.epsilon,
        ones(eq.mat().len()),
        0,
        eq.max_iterations as nat,
    );
}

/// Under a tolerance no change can beat, every sweep fails the test.
proof fn lemma_run_nonpositive_eps(
    m: Seq<Seq<Dec>>,
    b: Seq<Dec>,
    eps: Dec,
    x: Seq<Dec>,
    done: nat,
    left: nat,
)
    requires
        eps.mantissa <= 0,
        !(run(m, b, eps, x, done, left) is Overflowed),
    ensures
        run(m, b, eps, x, done, left) is Diverged,
    decreases left,
{
    let sd = sweep(m, b, x)->Some_0;
    lemma_sweep_prefix_delta_nonneg(m, b, x, m.len() as int);
    lemma_nonneg_not_lt_nonpos(sd.1, eps);
    if left > 1 {
        lemma_run_nonpositive_eps(m, b, eps, sd.0, done + 1, (left - 1) as nat);
    }
}

/// Law: an impossible tolerance forces divergence at the cap. With a tolerance
/// whose value is at most zero, no sweep can ever pass the convergence test
/// (the largest change is an absolute value), so unless an intermediate
/// decimal overflows, the solve runs all `max_iterations` sweeps and diverges.
pub proof fn lemma_nonpositive_epsilon_diverges(eq: &Equation)
    requires
        eq.max_iterations >= 1,
        eq.epsilon.mantissa <= 0,
        !(eq.solve_outcome() is Overflowed),
    ensures
        eq.solve_outcome() is Diverged,
        eq.solve_outcome()->Diverged_0 == eq.max_iterations,
{
    lemma_run_nonpositive_eps(
        eq.mat(),
        eq.rhs(),
        eq.epsilon,
        ones(eq.mat().len()),
        0,
        eq.max_iterations as nat,
    );
    lemma_diverged_at_cap(eq);
}

/// Law: the single-unknown identity. For a one-by-one system `[[c]] x = [r]`,
/// the first sweep computes exactly `x = (r - 0) / c` — the system's unique
/// solution as the decimal operations give it — and the solver converges at
/// sweep one whenever that value differs from the starting estimate `1` by
/// less than the tolerance.
pub proof fn lemma_single_unknown(m: Seq<Seq<Dec>>, b: Seq<Dec>, eps: Dec, max: nat, x: Dec)
    requires
        m.len() == 1,
        m[0].len() == 1,
        b.len() == 1,
        sub_of(b[0], zero_dec()) is Some,
        div_of(sub_of(b[0], zero_dec())->Some_0, m[0][0]) == Some(x),
        sub_of(x, one_dec()) is Some,
        lt_spec(abs_spec(sub_of(x, one_dec())->Some_0), eps),
    ensures
        run(m, b, eps, ones(1), 0, max) == SolveOutcome::Converged(seq![x], 1nat),
{
    let start = ones(1);
    assert(row_sum(m, start, 0, 0) == Some(zero_dec()));
    assert(row_sum(m, start, 0, 1) == Some(zero_dec()));
    assert(row_value(m, b, start, 0) == Some(x));
    let diff = sub_of(x, start[0])->Some_0;
    let di = abs_spec(diff);
    assert(sweep_prefix(m, b, start, 0) == Some((start, zero_dec())));
    let swept = sweep_prefix(m, b, start, 1)->Some_0;
    assert(swept.0 =~= seq![x]);
    if lt_spec(zero_dec(), di) {
        assert(swept.1 == di);
    } else {
        assert(swept.1 == zero_dec());
        lemma_zero_le_nonneg(di);
        lemma_le_lt_trans(zero_dec(), di, eps);
    }
    assert(lt_spec(swept.1, eps));
}

} // verus!

use vstd::prelude::*;

use crate::decimal::{
    abs_spec, add_of, dec_add, dec_div, dec_lt, dec_mul, dec_sub, div_of, lt_spec, mul_of, one_dec,
    sub_of, zero_dec, Dec,
};

verus! {

/// A validated linear system `Ax = b`, ready to be solved: a square matrix of
/// exact decimals with a non-zero diagonal, a right-hand side of matching
/// length, an iteration cap and a convergence tolerance.
#[derive(Debug)]
pub struct Equation {
    pub input_matrix: Vec<Vec<Dec>>,
    pub expression_rhs: Vec<Dec>,
    pub max_iterations: usize,
    pub epsilon: Dec,
}

/// The one failure the solver reports: the sweep budget ran out without the
/// tolerance being met.
#[derive(Debug)]
pub enum ESolveError {
    Diverge,
}

/// What one run of the solver amounts to, described abstractly: either the
/// estimate converged after some number of sweeps, or the cap was reached, or
/// an intermediate decimal overflowed its representation.
pub enum SolveOutcome {
    Converged(Seq<Dec>, nat),
    Diverged(nat),
    Overflowed,
}

/// The rows of a matrix held as a sequence of sequences.
pub open spec fn mat_view(m: Seq<Vec<Dec>>) -> Seq<Seq<Dec>> {
    m.map_values(|row: Vec<Dec>| row@)
}

/// The off-diagonal part of row `i` folded into a sum, taking columns
/// `0 .. upto` in ascending order and starting from the decimal zero; `None`
/// as soon as one decimal operation overflows.
pub open spec fn row_sum(m: Seq<Seq<Dec>>, x: Seq<Dec>, i: int, upto: int) -> Option<Dec>
    decreases upto,
{
    if upto <= 0 {
        Some(zero_dec())
    } else {
        match row_sum(m, x, i, upto - 1) {
            Option::None => Option::None,
            Option::Some(s) => {
                if upto - 1 == i {
                    Option::Some(s)
                } else {
                    match mul_of(m[i][upto - 1], x[upto - 1]) {
                        Option::None => Option::None,
                        Option::Some(p) => add_of(s, p),
                    }
                }
            },
        }
    }
}

/// The Gauss-Seidel update of row `i` against the estimate `x`:
/// `(b[i] - sum) / m[i][i]`.
pub open spec fn row_value(m: Seq<Seq<Dec>>, b: Seq<Dec>, x: Seq<Dec>, i: int) -> Option<Dec> {
    match row_sum(m, x, i, m.len() as int) {
        Option::None => Option::None,
        Option::Some(s) => match sub_of(b[i], s) {
            Option::None => Option::None,
            Option::Some(t) => div_of(t, m[i][i]),
        },
    }
}

/// The first `i` rows of one sweep, applied to the estimate `x`: each row is
/// updated in place before the next row reads it, and the largest per-row
/// change seen so far rides along, starting from zero.
pub open spec fn sweep_prefix(m: Seq<Seq<Dec>>, b: Seq<Dec>, x: Seq<Dec>, i: int) -> Option<
    (Seq<Dec>, Dec),
>
    decreases i,
{
    if i <= 0 {
        Option::Some((x, zero_dec()))
    } else {
        match sweep_prefix(m, b, x, i - 1) {
            Option::None => Option::None,
            Option::Some(sd) => match row_value(m, b, sd.0, i - 1) {
                Option::None => Option::None,
                Option::Some(xi) => match sub_of(xi, sd.0[i - 1]) {
                    Option::None => Option::None,
                    Option::Some(diff) => {
                        let di = abs_spec(diff);
                        let delta = if lt_spec(sd.1, di) {
                            di
                        } else {
                            sd.1
                        };
                        Option::Some((sd.0.update(i - 1, xi), delta))
                    },
                },
            },
        }
    }
}

/// One full sweep: every row updated once, with the largest change of any row.
pub open spec fn sweep(m: Seq<Seq<Dec>>, b: Seq<Dec>, x: Seq<Dec>) -> Option<(Seq<Dec>, Dec)> {
    sweep_prefix(m, b, x, m.len() as int)
}

/// The iteration from estimate `x` with `done` sweeps already behind it and
/// `left` sweeps of budget: sweep, stop as converged when the largest change
/// falls below `eps`, otherwise continue until the budget is spent. At least
/// one sweep always runs, as the budget is only checked after a sweep.
pub open spec fn run(
    m: Seq<Seq<Dec>>,
    b: Seq<Dec>,
    eps: Dec,
    x: Seq<Dec>,
    done: nat,
    left: nat,
) -> SolveOutcome
    decreases left,
{
    match sweep(m, b, x) {
        Option::None => SolveOutcome::Overflowed,
        Option::Some(sd) => {
            if lt_spec(sd.1, eps) {
                SolveOutcome::Converged(sd.0, done + 1)
            } else if left <= 1 {
                SolveOutcome::Diverged(done + 1)
            } else {
                run(m, b, eps, sd.0, done + 1, (left - 1) as nat)
            }
        },
    }
}

/// The fixed starting estimate: every unknown begins at the decimal one.
pub open spec fn ones(n: nat) -> Seq<Dec> {
    Seq::new(n, |i: int| one_dec())
}

impl Equation {
    /// The coefficient matrix as a sequence of rows.
    pub open spec fn mat(&self) -> Seq<Seq<Dec>> {
        mat_view(self.input_matrix@)
    }

    /// The right-hand side as a sequence.
    pub open spec fn rhs(&self) -> Seq<Dec> {
        self.expression_rhs@
    }

    /// The data-model invariant: the matrix is square, the right-hand side
    /// matches its dimension, every entry is a representable decimal, and
    /// every diagonal entry is non-zero.
    pub open spec fn wf(&self) -> bool {
        let n = self.mat().len();
        &&& forall|i: int| 0 <= i < n ==> (#[trigger] self.mat()[i]).len() == n
        &&& self.rhs().len() == n
        &&& forall|i: int, j: int|
            0 <= i < n && 0 <= j < n ==> (#[trigger] self.mat()[i][j]).wf()
        &&& forall|i: int| 0 <= i < n ==> (#[trigger] self.mat()[i][i]).mantissa != 0
        &&& forall|i: int| 0 <= i < n ==> (#[trigger] self.rhs()[i]).wf()
        &&& self.epsilon.wf()
    }

    /// What this equation's solve comes to.
    pub open spec fn solve_outcome(&self) -> SolveOutcome {
        run(
            self.mat(),
            self.rhs(),
            self.epsilon,
            ones(self.mat().len()),
            0,
            self.max_iterations as nat,
        )
    }

    /// The solver's contract: a converging iteration returns exactly the
    /// converged estimate; a run that exhausts its budget, or overflows an
    /// intermediate decimal, reports divergence.
    pub open spec fn solve_post(&self, r: Result<Vec<Dec>, ESolveError>) -> bool {
        match self.solve_outcome() {
            SolveOutcome::Converged(estimate, sweeps) => r is Ok && r->Ok_0@ == estimate,
            _ => r == Result::<Vec<Dec>, ESolveError>::Err(ESolveError::Diverge),
        }
    }
}

/// A row sum that has overflowed stays overflowed as further columns fold in.
proof fn lemma_row_sum_none(m: Seq<Seq<Dec>>, x: Seq<Dec>, i: int, j1: int, j2: int)
    requires
        row_sum(m, x, i, j1) is None,
        j1 <= j2,
    ensures
        row_sum(m, x, i, j2) is None,
    decreases j2 - j1,
{
    if j1 < j2 {
        lemma_row_sum_none(m, x, i, j1, j2 - 1);
    }
}

/// A sweep that has overflowed on some row stays overflowed for the rest of
/// the sweep.
proof fn lemma_sweep_prefix_none(m: Seq<Seq<Dec>>, b: Seq<Dec>, x: Seq<Dec>, i1: int, i2: int)
    requires
        sweep_prefix(m, b, x, i1) is None,
        i1 <= i2,
    ensures
        sweep_prefix(m, b, x, i2) is None,
    decreases i2 - i1,
{
    if i1 < i2 {
        lemma_sweep_prefix_none(m, b, x, i1, i2 - 1);
    }
}

impl Equation {
    /// Solve the system by Gauss-Seidel iteration: start from the all-ones
    /// estimate and sweep the rows in order, each row reading the values
    /// already updated in the same sweep, until no unknown moves by `epsilon`
    /// or more within one sweep, or the iteration cap is reached.
    pub fn solve(&self) -> (r: Result<Vec<Dec>, ESolveError>)
        requires
            self.wf(),
        ensures
            self.solve_post(r),
    {
        let matrix_size = self.input_matrix.len();
        let ghost m = self.mat();
        let ghost b = self.rhs();
        let ghost eps = self.epsilon;
        let ghost n = matrix_size as nat;

        let mut result_vector: Vec<Dec> = Vec::new();
        while result_vector.len() < matrix_size
            invariant
                result_vector@.len() <= matrix_size,
                forall|t: int|
                    0 <= t < result_vector@.len() ==> result_vector@[t] == one_dec(),
            decreases matrix_size - result_vector.len(),
        {
            result_vector.push(Dec::one());
        }
        proof {
            assert(result_vector@ =~= ones(n));
        }

        let mut k: usize = 1;
        loop
            invariant
                self.wf(),
                m == self.mat(),
                b == self.rhs(),
                eps == self.epsilon,
                n == m.len(),
                matrix_size == n,
                result_vector@.len() == n,
                forall|t: int| 0 <= t < n ==> (#[trigger] result_vector@[t]).wf(),
                1 <= k,
                k <= self.max_iterations || k == 1,
                run(m, b, eps, ones(n), 0, self.max_iterations as nat) == run(
                    m,
                    b,
                    eps,
                    result_vector@,
                    (k - 1) as nat,
                    (self.max_iterations - (k - 1)) as nat,
                ),
            decreases self.max_iterations - k,
        {
            let ghost x0 = result_vector@;
            let ghost done = (k - 1) as nat;
            let ghost left = (self.max_iterations - (k - 1)) as nat;

            let mut delta = Dec::zero();
            let mut i: usize = 0;
            while i < matrix_size
                invariant
                    self.wf(),
                    m == self.mat(),
                    b == self.rhs(),
                    eps == self.epsilon,
                    n == m.len(),
                    matrix_size == n,
                    i <= matrix_size,
                    result_vector@.len() == n,
                    forall|t: int| 0 <= t < n ==> (#[trigger] result_vector@[t]).wf(),
                    delta.wf(),
                    sweep_prefix(m, b, x0, i as int) == Option::Some((result_vector@, delta)),
                    run(m, b, eps, ones(n), 0, self.max_iterations as nat) == run(
                        m,
                        b,
                        eps,
                        x0,
                        done,
                        left,
                    ),
                decreases matrix_size - i,
            {
                let ghost x_row = result_vector@;
                let ghost delta_row = delta;

                let mut s = Dec::zero();
                let mut j: usize = 0;
                while j < matrix_size
                    invariant
                        self.wf(),
                        m == self.mat(),
                        b == self.rhs(),
                        eps == self.epsilon,
                        n == m.len(),
                        matrix_size == n,
                        i < n,
                        j <= matrix_size,
                        result_vector@.len() == n,
                        result_vector@ == x_row,
                        forall|t: int| 0 <= t < n ==> (#[trigger] result_vector@[t]).wf(),
                        s.wf(),
                        row_sum(m, x_row, i as int, j as int) == Option::Some(s),
                        sweep_prefix(m, b, x0, i as int) == Option::Some((x_row, delta_row)),
                        run(m, b, eps, ones(n), 0, self.max_iterations as nat) == run(
                            m,
                            b,
                            eps,
                            x0,
                            done,
                            left,
                        ),
                    decreases matrix_size - j,
                {
                    if j != i {
                        let p = match dec_mul(self.input_matrix[i][j], result_vector[j]) {
                            Option::Some(p) => p,
                            Option::None => {
                                proof {
                                    lemma_row_sum_none(m, x_row, i as int, j as int + 1, n as int);
                                    lemma_sweep_prefix_none(m, b, x0, i as int + 1, n as int);
                                }
                                return Result::Err(ESolveError::Diverge);
                            },
                        };
                        s = match dec_add(s, p) {
                            Option::Some(s2) => s2,
                            Option::None => {
                                proof {
                                    lemma_row_sum_none(m, x_row, i as int, j as int + 1, n as int);
                                    lemma_sweep_prefix_none(m, b, x0, i as int + 1, n as int);
                                }
                                return Result::Err(ESolveError::Diverge);
                            },
                        };
                    }
                    j += 1;
                }

                let t = match dec_sub(self.expression_rhs[i], s) {
                    Option::Some(t) => t,
                    Option::None => {
                        proof {
                            lemma_sweep_prefix_none(m, b, x0, i as int + 1, n as int);
                        }
                        return Result::Err(ESolveError::Diverge);
                    },
                };
                let xi = match dec_div(t, self.input_matrix[i][i]) {
                    Option::Some(v) => v,
                    Option::None => {
                        proof {
                            lemma_sweep_prefix_none(m, b, x0, i as int + 1, n as int);
                        }
                        return Result::Err(ESolveError::Diverge);
                    },
                };
                let diff = match dec_sub(xi, result_vector[i]) {
                    Option::Some(d) => d,
                    Option::None => {
                        proof {
                            lemma_sweep_prefix_none(m, b, x0, i as int + 1, n as int);
                        }
                        return Result::Err(ESolveError::Diverge);
                    },
                };
                let d = diff.abs();
                if dec_lt(delta, d) {
                    delta = d;
                }
                result_vector.set(i, xi);
                i += 1;
            }

            proof {
                assert(sweep(m, b, x0) == Option::Some((result_vector@, delta)));
            }
            if dec_lt(delta, self.epsilon) {
                return Result::Ok(result_vector);
            }
            if k < self.max_iterations {
                k += 1;
            } else {
                return Result::Err(ESolveError::Diverge);
            }
        }
    }
}

} // verus!

use vstd::prelude::*;
use vstd::string::StringExecFns;

use crate::decimal::{dec_parse, parse_of, Dec};
use crate::solver::{mat_view, Equation};

verus! {

/// A size that came out other than expected.
pub struct WrongSize {
    pub actual: usize,
    pub expected: usize,
}

/// The ways the shape of the textual input can be wrong.
pub enum MatrixSizeError {
    WrongRowSize(WrongSize, usize),
    WrongExpressionRightHandSide(WrongSize),
    WrongRowsCount(WrongSize),
    EmptyMatrix,
}

/// A rejected entry, located by row and column, with the reason as text.
pub struct PositionalError {
    pub row: usize,
    pub column: usize,
    pub message: String,
}

/// Everything that can keep a textual problem description from becoming a
/// valid `Equation`.
pub enum NonInteractiveError {
    MatrixSizeError(MatrixSizeError),
    MatrixInputError(PositionalError),
    RightHandSideError(usize, String),
    EpsilonError(String),
    NoInputProvided,
}

impl NonInteractiveError {
    /// Returns `true` if the non interactive error is `NoInputProvided`.
    pub fn is_no_input_provided(&self) -> (r: bool)
        ensures
            r == (self is NoInputProvided),
    {
        matches!(self, NonInteractiveError::NoInputProvided)
    }
}

/// The problem description as text, before any number is parsed: rows of
/// numeric literals, a right-hand side of numeric literals, the iteration cap
/// and the tolerance literal.
pub struct EquationInput {
    pub input_matrix: Vec<Vec<String>>,
    pub expression_rhs: Vec<String>,
    pub max_iterations: usize,
    pub epsilon: String,
}

/// The length of the longest row.
pub open spec fn max_row_len(rows: Seq<Vec<String>>) -> nat
    decreases rows.len(),
{
    if rows.len() == 0 {
        0
    } else {
        let rest = max_row_len(rows.drop_last());
        if rows.last()@.len() > rest {
            rows.last()@.len()
        } else {
            rest
        }
    }
}

/// The first index whose row is not of length `mx`, or the number of rows if
/// every row is.
pub open spec fn first_row_not(rows: Seq<Vec<String>>, mx: nat) -> int
    decreases rows.len(),
{
    if rows.len() == 0 {
        0
    } else if rows[0]@.len() != mx {
        0
    } else {
        1 + first_row_not(rows.skip(1), mx)
    }
}

/// What the shape validation returns: the square dimension, or the first
/// shape error in checking order — an empty matrix, then a row of the wrong
/// length (reported at its one-based position), then a wrong number of rows,
/// then a right-hand side of the wrong length.
pub open spec fn size_check(rows: Seq<Vec<String>>, rhs: Seq<String>) -> Result<
    usize,
    MatrixSizeError,
> {
    let mx = max_row_len(rows);
    let f = first_row_not(rows, mx);
    if rows.len() == 0 {
        Result::Err(MatrixSizeError::EmptyMatrix)
    } else if f < rows.len() {
        Result::Err(
            MatrixSizeError::WrongRowSize(
                WrongSize { actual: rows[f]@.len() as usize, expected: mx as usize },
                (f + 1) as usize,
            ),
        )
    } else if rows.len() != mx {
        Result::Err(
            MatrixSizeError::WrongRowsCount(
                WrongSize { actual: rows.len() as usize, expected: mx as usize },
            ),
        )
    } else if rhs.len() != mx {
        Result::Err(
            MatrixSizeError::WrongExpressionRightHandSide(
                WrongSize { actual: rhs.len() as usize, expected: mx as usize },
            ),
        )
    } else {
        Result::Ok(mx as usize)
    }
}

proof fn lemma_first_row_not(rows: Seq<Vec<String>>, mx: nat)
    ensures
        0 <= first_row_not(rows, mx) <= rows.len(),
        forall|t: int|
            0 <= t < first_row_not(rows, mx) ==> (#[trigger] rows[t])@.len() == mx,
        first_row_not(rows, mx) < rows.len() ==> rows[first_row_not(rows, mx)]@.len() != mx,
    decreases rows.len(),
{
    if rows.len() > 0 && rows[0]@.len() == mx {
        lemma_first_row_not(rows.skip(1), mx);
        assert forall|t: int|
            0 <= t < first_row_not(rows, mx) implies (#[trigger] rows[t])@.len() == mx by {
            if t > 0 {
                assert(rows.skip(1)[t - 1] == rows[t]);
            }
        }
        if first_row_not(rows, mx) < rows.len() {
            assert(rows.skip(1)[first_row_not(rows.skip(1), mx)] == rows[first_row_not(rows, mx)]);
        }
    }
}

/// Infer the square dimension of the system from the matrix text: the longest
/// row sets it, every row and the right-hand side must match it, and so must
/// the number of rows.
pub fn compute_matrix_size(
    input_matrix: &Vec<Vec<String>>,
    expression_rhs: &Vec<String>,
) -> (r: Result<usize, MatrixSizeError>)
    ensures
        r == size_check(input_matrix@, expression_rhs@),
        r is Ok ==> ({
            let n = r->Ok_0;
            &&& n >= 1
            &&& input_matrix@.len() == n
            &&& expression_rhs@.len() == n
            &&& forall|t: int| 0 <= t < n ==> (#[trigger] input_matrix@[t])@.len() == n
        }),
{
    let rows_amount = input_matrix.len();
    let ghost rows = input_matrix@;
    if rows_amount == 0 {
        return Result::Err(MatrixSizeError::EmptyMatrix);
    }
    let mut mx: usize = 0;
    let mut i: usize = 0;
    while i < rows_amount
        invariant
            i <= rows_amount,
            rows == input_matrix@,
            rows_amount == rows.len(),
            mx == max_row_len(rows.take(i as int)),
        decreases rows_amount - i,
    {
        let l = input_matrix[i].len();
        proof {
            assert(rows.take(i + 1).drop_last() =~= rows.take(i as int));
            assert(rows.take(i + 1).last() == rows[i as int]);
        }
        if l > mx {
            mx = l;
        }
        i += 1;
    }
    proof {
        assert(rows.take(rows_amount as int) =~= rows);
        lemma_first_row_not(rows, mx as nat);
    }
    let mut j: usize = 0;
    while j < rows_amount
        invariant
            j <= rows_amount,
            rows == input_matrix@,
            rows_amount == rows.len(),
            mx as nat == max_row_len(rows),
            forall|t: int| 0 <= t < j ==> (#[trigger] rows[t])@.len() == mx,
        decreases rows_amount - j,
    {
        let l = input_matrix[j].len();
        if l != mx {
            proof {
                lemma_first_row_not(rows, mx as nat);
            }
            return Result::Err(
                MatrixSizeError::WrongRowSize(WrongSize { actual: l, expected: mx }, j + 1),
            );
        }
        j += 1;
    }
    proof {
        lemma_first_row_not(rows, mx as nat);
    }
    if rows_amount != mx {
        return Result::Err(
            MatrixSizeError::WrongRowsCount(WrongSize { actual: rows_amount, expected: mx }),
        );
    }
    if expression_rhs.len() != mx {
        return Result::Err(
            MatrixSizeError::WrongExpressionRightHandSide(
                WrongSize { actual: expression_rhs.len(), expected: mx },
            ),
        );
    }
    Result::Ok(mx)
}

/// The message a zero diagonal entry is rejected with.
pub open spec fn zero_diag_msg() -> Seq<char> {
    "Zero on diagonal detected! Expected non-zero value on diagonal!"@
}

/// The first index on the diagonal of `m` holding a zero, looking from `i`
/// up to `n`; `n` if there is none.
pub open spec fn first_zero_diag(m: Seq<Seq<Dec>>, n: int, i: int) -> int
    decreases n - i,
{
    if i < 0 || i >= n {
        i
    } else if m[i][i].mantissa == 0 {
        i
    } else {
        first_zero_diag(m, n, i + 1)
    }
}

proof fn lemma_first_zero_diag(m: Seq<Seq<Dec>>, n: int, i: int)
    requires
        0 <= i <= n,
    ensures
        i <= first_zero_diag(m, n, i) <= n,
        forall|t: int|
            i <= t < first_zero_diag(m, n, i) ==> (#[trigger] m[t][t]).mantissa != 0,
        first_zero_diag(m, n, i) < n ==> m[first_zero_diag(m, n, i)][first_zero_diag(
            m,
            n,
            i,
        )].mantissa == 0,
    decreases n - i,
{
    if i < n && m[i][i].mantissa != 0 {
        lemma_first_zero_diag(m, n, i + 1);
    }
}

/// The Gauss-Seidel method needs a non-zero value on every diagonal entry;
/// reject the first diagonal zero, locating it by its zero-based row and
/// column.
pub fn check_for_zeroes_on_diagonal(matrix: &Vec<Vec<Dec>>, matrix_size: usize) -> (r: Result<
    (),
    PositionalError,
>)
    requires
        matrix@.len() >= matrix_size,
        forall|t: int| 0 <= t < matrix_size ==> (#[trigger] matrix@[t])@.len() >= matrix_size,
    ensures
        r is Ok <==> forall|t: int|
            0 <= t < matrix_size ==> (#[trigger] mat_view(matrix@)[t][t]).mantissa != 0,
        r is Err ==> ({
            let f = first_zero_diag(mat_view(matrix@), matrix_size as int, 0);
            &&& f < matrix_size
            &&& r->Err_0.row == f
            &&& r->Err_0.column == f
            &&& r->Err_0.message@ == zero_diag_msg()
        }),
{
    let ghost m = mat_view(matrix@);
    let mut i: usize = 0;
    while i < matrix_size
        invariant
            i <= matrix_size,
            m == mat_view(matrix@),
            matrix@.len() >= matrix_size,
            forall|t: int| 0 <= t < matrix_size ==> (#[trigger] matrix@[t])@.len() >= matrix_size,
            forall|t: int| 0 <= t < i ==> (#[trigger] m[t][t]).mantissa != 0,
        decreases matrix_size - i,
    {
        if matrix[i][i].is_zero() {
            proof {
                assert(m[i as int] == matrix@[i as int]@);
                assert(m[i as int][i as int].mantissa == 0);
                lemma_first_zero_diag(m, matrix_size as int, 0);
                assert(first_zero_diag(m, matrix_size as int, 0) == i as int);
            }
            return Result::Err(
                PositionalError {
                    row: i,
                    column: i,
                    message: String::from_str(
                        "Zero on diagonal detected! Expected non-zero value on diagonal!",
                    ),
                },
            );
        }
        i += 1;
    }
    Result::Ok(())
}

/// The first index whose literal does not parse as a decimal, looking from
/// `j`; the length if every literal parses.
pub open spec fn first_unparsable(items: Seq<String>, j: int) -> int
    decreases items.len() - j,
{
    if j < 0 || j >= items.len() {
        j
    } else if parse_of(items[j]@) is Err {
        j
    } else {
        first_unparsable(items, j + 1)
    }
}

proof fn lemma_first_unparsable(items: Seq<String>, j: int)
    requires
        0 <= j <= items.len(),
    ensures
        j <= first_unparsable(items, j) <= items.len(),
        forall|t: int|
            j <= t < first_unparsable(items, j) ==> parse_of((#[trigger] items[t])@) is Ok,
        first_unparsable(items, j) < items.len() ==> parse_of(
            items[first_unparsable(items, j)]@,
        ) is Err,
    decreases items.len() - j,
{
    if j < items.len() && !(parse_of(items[j]@) is Err) {
        lemma_first_unparsable(items, j + 1);
    }
}

/// Every literal of the row parses as a decimal.
pub open spec fn row_cells_ok(row: Seq<String>) -> bool {
    forall|t: int| 0 <= t < row.len() ==> parse_of((#[trigger] row[t])@) is Ok
}

/// The first index whose row holds an unparsable literal, looking from `i`;
/// the number of rows if every cell parses.
pub open spec fn first_bad_row(rows: Seq<Vec<String>>, i: int) -> int
    decreases rows.len() - i,
{
    if i < 0 || i >= rows.len() {
        i
    } else if !row_cells_ok(rows[i]@) {
        i
    } else {
        first_bad_row(rows, i + 1)
    }
}

proof fn lemma_first_bad_row(rows: Seq<Vec<String>>, i: int)
    requires
        0 <= i <= rows.len(),
    ensures
        i <= first_bad_row(rows, i) <= rows.len(),
        forall|t: int|
            i <= t < first_bad_row(rows, i) ==> row_cells_ok((#[trigger] rows[t])@),
        first_bad_row(rows, i) < rows.len() ==> !row_cells_ok(rows[first_bad_row(rows, i)]@),
    decreases rows.len() - i,
{
    if i < rows.len() && row_cells_ok(rows[i]@) {
        lemma_first_bad_row(rows, i + 1);
    }
}

/// The first diagonal position whose parsed value is zero, looking from `i`
/// up to `n`; `n` if there is none. Meaningful once every cell parses.
pub open spec fn first_zero_diag_text(rows: Seq<Vec<String>>, n: int, i: int) -> int
    decreases n - i,
{
    if i < 0 || i >= n {
        i
    } else if parse_of(rows[i]@[i]@)->Ok_0.mantissa == 0 {
        i
    } else {
        first_zero_diag_text(rows, n, i + 1)
    }
}

proof fn lemma_first_zero_diag_text(rows: Seq<Vec<String>>, n: int, i: int)
    requires
        0 <= i <= n,
    ensures
        i <= first_zero_diag_text(rows, n, i) <= n,
        forall|t: int|
            i <= t < first_zero_diag_text(rows, n, i) ==> parse_of(
                (#[trigger] rows[t])@[t]@,
            )->Ok_0.mantissa != 0,
        first_zero_diag_text(rows, n, i) < n ==> parse_of(
            rows[first_zero_diag_text(rows, n, i)]@[first_zero_diag_text(rows, n, i)]@,
        )->Ok_0.mantissa == 0,
    decreases n - i,
{
    if i < n && parse_of(rows[i]@[i]@)->Ok_0.mantissa != 0 {
        lemma_first_zero_diag_text(rows, n, i + 1);
    }
}

/// The builder's contract, stage by stage in the order the input is checked:
/// the shape first, then each matrix literal in row-major order, then the
/// diagonal, then each right-hand-side literal, then the tolerance literal;
/// the first failure is reported, and with nothing to fail, the returned
/// equation holds exactly the parsed values.
pub open spec fn build_equation_post(
    input: &EquationInput,
    r: Result<Equation, NonInteractiveError>,
) -> bool {
    let rows = input.input_matrix@;
    let rhs = input.expression_rhs@;
    match size_check(rows, rhs) {
        Result::Err(e) => r == Result::<Equation, NonInteractiveError>::Err(
            NonInteractiveError::MatrixSizeError(e),
        ),
        Result::Ok(nn) => {
            let n = nn as int;
            let fi = first_bad_row(rows, 0);
            let fz = first_zero_diag_text(rows, n, 0);
            let fr = first_unparsable(rhs, 0);
            if fi < n {
                let fj = first_unparsable(rows[fi]@, 0);
                r matches Result::Err(NonInteractiveError::MatrixInputError(p)) && p.row == fi + 1
                    && p.column == fj + 1 && p.message@ == parse_of(rows[fi]@[fj]@)->Err_0
            } else if fz < n {
                r matches Result::Err(NonInteractiveError::MatrixInputError(p)) && p.row == fz
                    && p.column == fz && p.message@ == zero_diag_msg()
            } else if fr < n {
                r matches Result::Err(NonInteractiveError::RightHandSideError(pos, msg)) && pos
                    == fr + 1 && msg@ == parse_of(rhs[fr]@)->Err_0
            } else if parse_of(input.epsilon@) is Err {
                r matches Result::Err(NonInteractiveError::EpsilonError(msg)) && msg@ == parse_of(
                    input.epsilon@,
                )->Err_0
            } else {
                r matches Result::Ok(eq) && ({
                    &&& eq.wf()
                    &&& eq.mat().len() == n
                    &&& forall|a: int, c: int|
                        0 <= a < n && 0 <= c < n ==> #[trigger] eq.mat()[a][c] == parse_of(
                            rows[a]@[c]@,
                        )->Ok_0
                    &&& eq.rhs().len() == n
                    &&& forall|c: int|
                        0 <= c < n ==> #[trigger] eq.rhs()[c] == parse_of(rhs[c]@)->Ok_0
                    &&& eq.max_iterations == input.max_iterations
                    &&& eq.epsilon == parse_of(input.epsilon@)->Ok_0
                })
            }
        },
    }
}

/// Turn a textual problem description into a validated `Equation`: infer and
/// check the shape, parse every literal into an exact decimal, reject a zero
/// on the diagonal, and parse the tolerance.
pub fn build_equation(input: &EquationInput) -> (r: Result<Equation, NonInteractiveError>)
    ensures
        build_equation_post(input, r),
{
    let ghost rows = input.input_matrix@;
    let ghost rhs = input.expression_rhs@;

    let matrix_size = match compute_matrix_size(&input.input_matrix, &input.expression_rhs) {
        Result::Ok(n) => n,
        Result::Err(e) => {
            return Result::Err(NonInteractiveError::MatrixSizeError(e));
        },
    };
    let n = matrix_size;

    let mut matrix: Vec<Vec<Dec>> = Vec::new();
    let mut i: usize = 0;
    while i < n
        invariant
            i <= n,
            rows == input.input_matrix@,
            rhs == input.expression_rhs@,
            rows.len() == n,
            size_check(rows, rhs) == Result::<usize, MatrixSizeError>::Ok(n),
            forall|t: int| 0 <= t < n ==> (#[trigger] rows[t])@.len() == n,
            matrix@.len() == i,
            forall|a: int| 0 <= a < i ==> (#[trigger] matrix@[a])@.len() == n,
            forall|a: int| 0 <= a < i ==> row_cells_ok((#[trigger] rows[a])@),
            forall|a: int, c: int|
                0 <= a < i && 0 <= c < n ==> #[trigger] matrix@[a]@[c] == parse_of(
                    rows[a]@[c]@,
                )->Ok_0,
            forall|a: int, c: int|
                0 <= a < i && 0 <= c < n ==> (#[trigger] matrix@[a]@[c]).wf(),
        decreases n - i,
    {
        let mut row_vals: Vec<Dec> = Vec::new();
        let mut j: usize = 0;
        while j < n
            invariant
                i < n,
                j <= n,
                rows == input.input_matrix@,
                rhs == input.expression_rhs@,
                rows.len() == n,
                size_check(rows, rhs) == Result::<usize, MatrixSizeError>::Ok(n),
                forall|t: int| 0 <= t < n ==> (#[trigger] rows[t])@.len() == n,
                forall|a: int| 0 <= a < i ==> row_cells_ok((#[trigger] rows[a])@),
                row_vals@.len() == j,
                forall|c: int| 0 <= c < j ==> parse_of((#[trigger] rows[i as int]@[c])@) is Ok,
                forall|c: int|
                    0 <= c < j ==> #[trigger] row_vals@[c] == parse_of(rows[i as int]@[c]@)->Ok_0,
                forall|c: int| 0 <= c < j ==> (#[trigger] row_vals@[c]).wf(),
            decreases n - j,
        {
            match dec_parse(input.input_matrix[i][j].as_str()) {
                Result::Ok(d) => {
                    row_vals.push(d);
                },
                Result::Err(message) => {
                    proof {
                        assert(parse_of(rows[i as int]@[j as int]@) is Err);
                        assert(!row_cells_ok(rows[i as int]@));
                        lemma_first_bad_row(rows, 0);
                        assert(first_bad_row(rows, 0) == i as int);
                        lemma_first_unparsable(rows[i as int]@, 0);
                        assert(first_unparsable(rows[i as int]@, 0) == j as int);
                    }
                    return Result::Err(
                        NonInteractiveError::MatrixInputError(
                            PositionalError { row: i + 1, column: j + 1, message },
                        ),
                    );
                },
            }
            j += 1;
        }
        matrix.push(row_vals);
        i += 1;
    }
    proof {
        lemma_first_bad_row(rows, 0);
        assert(first_bad_row(rows, 0) == n as int);
        assert forall|t: int| 0 <= t < n implies #[trigger] mat_view(matrix@)[t][t] == parse_of(
            rows[t]@[t]@,
        )->Ok_0 by {
            assert(mat_view(matrix@)[t] == matrix@[t]@);
        }
    }

    match check_for_zeroes_on_diagonal(&matrix, n) {
        Result::Ok(()) => {},
        Result::Err(err) => {
            proof {
                lemma_first_zero_diag(mat_view(matrix@), n as int, 0);
                lemma_first_zero_diag_text(rows, n as int, 0);
                let f1 = first_zero_diag(mat_view(matrix@), n as int, 0);
                let f2 = first_zero_diag_text(rows, n as int, 0);
                if f1 < n {
                    assert(mat_view(matrix@)[f1][f1] == parse_of(rows[f1]@[f1]@)->Ok_0);
                }
                if f2 < n {
                    assert(mat_view(matrix@)[f2][f2] == parse_of(rows[f2]@[f2]@)->Ok_0);
                }
                assert(f2 == f1);
            }
            return Result::Err(NonInteractiveError::MatrixInputError(err));
        },
    }
    proof {
        lemma_first_zero_diag(mat_view(matrix@), n as int, 0);
        lemma_first_zero_diag_text(rows, n as int, 0);
        let f2 = first_zero_diag_text(rows, n as int, 0);
        if f2 < n {
            assert(mat_view(matrix@)[f2][f2] == parse_of(rows[f2]@[f2]@)->Ok_0);
        }
        assert(f2 == n as int);
    }

    let mut rhs_vals: Vec<Dec> = Vec::new();
    let mut k: usize = 0;
    while k < n
        invariant
            k <= n,
            rows == input.input_matrix@,
            rhs == input.expression_rhs@,
            rhs.len() == n,
            size_check(rows, rhs) == Result::<usize, MatrixSizeError>::Ok(n),
            first_bad_row(rows, 0) == n as int,
            first_zero_diag_text(rows, n as int, 0) == n as int,
            rhs_vals@.len() == k,
            forall|c: int| 0 <= c < k ==> parse_of((#[trigger] rhs[c])@) is Ok,
            forall|c: int| 0 <= c < k ==> #[trigger] rhs_vals@[c] == parse_of(rhs[c]@)->Ok_0,
            forall|c: int| 0 <= c < k ==> (#[trigger] rhs_vals@[c]).wf(),
        decreases n - k,
    {
        match dec_parse(input.expression_rhs[k].as_str()) {
            Result::Ok(d) => {
                rhs_vals.push(d);
            },
            Result::Err(message) => {
                proof {
                    assert(parse_of(rhs[k as int]@) is Err);
                    lemma_first_unparsable(rhs, 0);
                    assert(first_unparsable(rhs, 0) == k as int);
                }
                return Result::Err(NonInteractiveError::RightHandSideError(k + 1, message));
            },
        }
        k += 1;
    }
    proof {
        lemma_first_unparsable(rhs, 0);
        assert(first_unparsable(rhs, 0) == n as int);
    }

    let epsilon = match dec_parse(input.epsilon.as_str()) {
        Result::Ok(e) => e,
        Result::Err(message) => {
            return Result::Err(NonInteractiveError::EpsilonError(message));
        },
    };

    let equation = Equation {
        input_matrix: matrix,
        expression_rhs: rhs_vals,
        max_iterations: input.max_iterations,
        epsilon,
    };
    proof {
        assert(equation.mat().len() == n);
        assert(equation.wf());
    }
    Result::Ok(equation)
}

} // verus!

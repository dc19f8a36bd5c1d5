use gauss_seidel::builder::{
    build_equation, compute_matrix_size, EquationInput, MatrixSizeError, NonInteractiveError,
};
use rust_decimal::Decimal;
use std::str::FromStr;

fn strings(items: Vec<&str>) -> Vec<String> {
    items.into_iter().map(|s| s.to_string()).collect()
}

fn input(
    matrix: Vec<Vec<&str>>,
    rhs: Vec<&str>,
    max_iterations: usize,
    epsilon: &str,
) -> EquationInput {
    EquationInput {
        input_matrix: matrix.into_iter().map(strings).collect(),
        expression_rhs: strings(rhs),
        max_iterations,
        epsilon: epsilon.to_string(),
    }
}

#[test]
fn builds_and_solves_a_valid_system() {
    let inp = input(
        vec![vec!["4", "1"], vec!["2", "3"]],
        vec!["1", "2"],
        50,
        "0.0001",
    );
    let eq = build_equation(&inp).ok().unwrap();
    assert_eq!(eq.max_iterations, 50);
    assert_eq!(eq.input_matrix.len(), 2);
    assert_eq!(eq.input_matrix[0].len(), 2);
    assert_eq!(
        Decimal::from_i128_with_scale(eq.input_matrix[1][0].mantissa, eq.input_matrix[1][0].scale),
        Decimal::from_str("2").unwrap()
    );
    assert_eq!(
        Decimal::from_i128_with_scale(eq.epsilon.mantissa, eq.epsilon.scale),
        Decimal::from_str("0.0001").unwrap()
    );
    assert!(eq.solve().is_ok());
}

#[test]
fn zero_on_diagonal_rejected_at_first_position() {
    // [[0,1],[1,0]] must never reach the solver: the first zero sits at
    // row 0, column 0 and is reported there, zero-based
    let inp = input(
        vec![vec!["0", "1"], vec!["1", "0"]],
        vec!["1", "1"],
        10,
        "0.1",
    );
    match build_equation(&inp) {
        Err(NonInteractiveError::MatrixInputError(p)) => {
            assert_eq!(p.row, 0);
            assert_eq!(p.column, 0);
            assert_eq!(
                p.message,
                "Zero on diagonal detected! Expected non-zero value on diagonal!"
            );
        }
        _ => panic!("expected a positional diagonal error"),
    }
}

#[test]
fn zero_on_diagonal_rejected_at_second_position() {
    let inp = input(
        vec![vec!["1", "1"], vec!["1", "0"]],
        vec!["1", "1"],
        10,
        "0.1",
    );
    match build_equation(&inp) {
        Err(NonInteractiveError::MatrixInputError(p)) => {
            assert_eq!(p.row, 1);
            assert_eq!(p.column, 1);
        }
        _ => panic!("expected a positional diagonal error"),
    }
}

#[test]
fn empty_matrix_rejected() {
    let inp = input(vec![], vec![], 10, "0.1");
    assert!(matches!(
        build_equation(&inp),
        Err(NonInteractiveError::MatrixSizeError(
            MatrixSizeError::EmptyMatrix
        ))
    ));
}

#[test]
fn ragged_row_rejected_with_position() {
    let inp = input(vec![vec!["1", "2"], vec!["3"]], vec!["1", "2"], 10, "0.1");
    match build_equation(&inp) {
        Err(NonInteractiveError::MatrixSizeError(MatrixSizeError::WrongRowSize(size, pos))) => {
            assert_eq!(size.actual, 1);
            assert_eq!(size.expected, 2);
            assert_eq!(pos, 2);
        }
        _ => panic!("expected a wrong row size error"),
    }
}

#[test]
fn wrong_rows_count_rejected() {
    let inp = input(
        vec![vec!["1", "2", "3"], vec!["4", "5", "6"]],
        vec!["1", "2", "3"],
        10,
        "0.1",
    );
    match build_equation(&inp) {
        Err(NonInteractiveError::MatrixSizeError(MatrixSizeError::WrongRowsCount(size))) => {
            assert_eq!(size.actual, 2);
            assert_eq!(size.expected, 3);
        }
        _ => panic!("expected a wrong rows count error"),
    }
}

#[test]
fn wrong_right_hand_side_length_rejected() {
    let inp = input(
        vec![vec!["1", "2"], vec!["3", "4"]],
        vec!["1", "2", "3"],
        10,
        "0.1",
    );
    match build_equation(&inp) {
        Err(NonInteractiveError::MatrixSizeError(
            MatrixSizeError::WrongExpressionRightHandSide(size),
        )) => {
            assert_eq!(size.actual, 3);
            assert_eq!(size.expected, 2);
        }
        _ => panic!("expected a right-hand side length error"),
    }
}

#[test]
fn unparsable_matrix_cell_reported_one_based() {
    let inp = input(
        vec![vec!["1", "abc"], vec!["3", "4"]],
        vec!["1", "2"],
        10,
        "0.1",
    );
    match build_equation(&inp) {
        Err(NonInteractiveError::MatrixInputError(p)) => {
            assert_eq!(p.row, 1);
            assert_eq!(p.column, 2);
            assert!(!p.message.is_empty());
        }
        _ => panic!("expected a positional parse error"),
    }
}

#[test]
fn too_precise_matrix_cell_rejected() {
    // more digits than the 96-bit decimal representation can carry
    let inp = input(
        vec![
            vec!["1", "100000000000000000000000000000000"],
            vec!["3", "4"],
        ],
        vec!["1", "2"],
        10,
        "0.1",
    );
    match build_equation(&inp) {
        Err(NonInteractiveError::MatrixInputError(p)) => {
            assert_eq!(p.row, 1);
            assert_eq!(p.column, 2);
        }
        _ => panic!("expected a positional parse error"),
    }
}

#[test]
fn unparsable_right_hand_side_reported_one_based() {
    let inp = input(
        vec![vec!["1", "2"], vec!["3", "4"]],
        vec!["1", "oops"],
        10,
        "0.1",
    );
    match build_equation(&inp) {
        Err(NonInteractiveError::RightHandSideError(pos, message)) => {
            assert_eq!(pos, 2);
            assert!(!message.is_empty());
        }
        _ => panic!("expected a right-hand side parse error"),
    }
}

#[test]
fn unparsable_epsilon_rejected() {
    let inp = input(
        vec![vec!["1", "2"], vec!["3", "4"]],
        vec!["1", "2"],
        10,
        "not-a-number",
    );
    assert!(matches!(
        build_equation(&inp),
        Err(NonInteractiveError::EpsilonError(_))
    ));
}

#[test]
fn matrix_size_of_square_input() {
    let matrix = vec![strings(vec!["1", "2"]), strings(vec!["3", "4"])];
    let rhs = strings(vec!["1", "2"]);
    assert_eq!(compute_matrix_size(&matrix, &rhs).ok(), Some(2));
}

#[test]
fn no_input_provided_is_recognized() {
    assert!(NonInteractiveError::NoInputProvided.is_no_input_provided());
    assert!(
        !NonInteractiveError::MatrixSizeError(MatrixSizeError::EmptyMatrix)
            .is_no_input_provided()
    );
}

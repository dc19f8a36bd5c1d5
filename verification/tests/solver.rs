use gauss_seidel::decimal::Dec;
use gauss_seidel::solver::{ESolveError, Equation};
use rust_decimal::Decimal;
use std::str::FromStr;

fn d(s: &str) -> Dec {
    let v = Decimal::from_str(s).unwrap();
    Dec {
        mantissa: v.mantissa(),
        scale: v.scale(),
    }
}

fn to_decimal(x: &Dec) -> Decimal {
    Decimal::from_i128_with_scale(x.mantissa, x.scale)
}

fn equation(
    matrix: Vec<Vec<&str>>,
    rhs: Vec<&str>,
    max_iterations: usize,
    epsilon: &str,
) -> Equation {
    Equation {
        input_matrix: matrix
            .into_iter()
            .map(|row| row.into_iter().map(d).collect())
            .collect(),
        expression_rhs: rhs.into_iter().map(d).collect(),
        max_iterations,
        epsilon: d(epsilon),
    }
}

#[test]
fn concrete_two_by_two_converges() {
    // 4x + y = 1, 2x + 3y = 2 has the exact solution (0.1, 0.6)
    let eq = equation(
        vec![vec!["4", "1"], vec!["2", "3"]],
        vec!["1", "2"],
        50,
        "0.0001",
    );
    let solution = eq.solve().ok().unwrap();
    assert_eq!(solution.len(), 2);
    let x = to_decimal(&solution[0]);
    let y = to_decimal(&solution[1]);
    let tol = Decimal::from_str("0.001").unwrap();
    assert!((x - Decimal::from_str("0.1").unwrap()).abs() < tol);
    assert!((y - Decimal::from_str("0.6").unwrap()).abs() < tol);
}

#[test]
fn diagonally_dominant_converges() {
    // strictly diagonally dominant; exact solution is (1, 1, 1)
    let eq = equation(
        vec![
            vec!["10", "1", "1"],
            vec!["2", "10", "1"],
            vec!["2", "2", "10"],
        ],
        vec!["12", "13", "14"],
        100,
        "0.000001",
    );
    let solution = eq.solve().ok().unwrap();
    assert_eq!(solution.len(), 3);
    let tol = Decimal::from_str("0.0001").unwrap();
    for v in &solution {
        assert!((to_decimal(v) - Decimal::ONE).abs() < tol);
    }
}

#[test]
fn single_unknown_solved_in_first_sweep() {
    // 4x = 2 has the unique solution 0.5, and |0.5 - 1| = 0.5 < 0.6,
    // so one sweep suffices even with the cap at 1
    let eq = equation(vec![vec!["4"]], vec!["2"], 1, "0.6");
    let solution = eq.solve().ok().unwrap();
    assert_eq!(solution.len(), 1);
    assert_eq!(to_decimal(&solution[0]), Decimal::from_str("0.5").unwrap());
}

#[test]
fn single_unknown_tight_tolerance_diverges_at_cap_one() {
    // same system, but the start value 1 is further from 0.5 than the
    // tolerance allows, and the cap of one sweep is already spent
    let eq = equation(vec![vec!["4"]], vec!["2"], 1, "0.1");
    assert!(matches!(eq.solve(), Err(ESolveError::Diverge)));
}

#[test]
fn determinism_same_equation_same_result() {
    let eq = equation(
        vec![vec!["4", "1"], vec!["2", "3"]],
        vec!["1", "2"],
        50,
        "0.0001",
    );
    let a = eq.solve().ok().unwrap();
    let b = eq.solve().ok().unwrap();
    let va: Vec<(i128, u32)> = a.iter().map(|v| (v.mantissa, v.scale)).collect();
    let vb: Vec<(i128, u32)> = b.iter().map(|v| (v.mantissa, v.scale)).collect();
    assert_eq!(va, vb);
}

#[test]
fn impossible_tolerance_diverges() {
    // epsilon 0 can never be beaten: the largest change is an absolute value,
    // so after exactly the 5 allowed sweeps the solver reports divergence
    let eq = equation(
        vec![vec!["1", "2"], vec!["2", "1"]],
        vec!["1", "1"],
        5,
        "0",
    );
    assert!(matches!(eq.solve(), Err(ESolveError::Diverge)));
}

#[test]
fn tolerance_monotone_both_converge() {
    // a convergent system stays convergent when the tolerance is loosened
    let tight = equation(
        vec![vec!["4", "1"], vec!["2", "3"]],
        vec!["1", "2"],
        50,
        "0.0000001",
    );
    let loose = equation(
        vec![vec!["4", "1"], vec!["2", "3"]],
        vec!["1", "2"],
        50,
        "0.01",
    );
    assert!(tight.solve().is_ok());
    assert!(loose.solve().is_ok());
}

#[test]
fn solver_output_is_fresh_per_call() {
    let eq = equation(vec![vec!["2"]], vec!["2"], 10, "0.5");
    // 2x = 2: first sweep gives exactly 1, delta 0 < 0.5
    let solution = eq.solve().ok().unwrap();
    assert_eq!(to_decimal(&solution[0]), Decimal::ONE);
}

use calculator::enums::Operator::{Mul, Plus};
use calculator::enums::Token::{Number, Op};
use calculator::shunting_yard::shunting_yard;
use calculator::tokenize::tokenize;
use calculator::Calculator;

fn num(v: f64) -> calculator::enums::Token {
    Number(v.to_bits())
}

fn eval_line(line: &str) -> Result<String, String> {
    let mut calculator = Calculator::new();
    calculator.calculate_infix(line)
}

#[test]
fn one_plus_one_is_two_end_to_end() {
    let calculator = Calculator::new();
    let tokens = tokenize("1+1").unwrap();
    let postfix = shunting_yard(tokens).unwrap();
    let res = calculator.eval_postfix(postfix).unwrap();
    assert_eq!(f64::from_bits(res), 2.0);
}

#[test]
fn multiplication_binds_tighter_than_addition() {
    let calculator = Calculator::new();
    let tokens = tokenize("1 + 2 * 4").unwrap();
    let postfix = shunting_yard(tokens).unwrap();

    // postfix is `1 2 4 * +`
    let correct = vec![num(1.0), num(2.0), num(4.0), Op(Mul), Op(Plus)];
    assert_eq!(postfix, correct);

    let res = calculator.eval_postfix(postfix).unwrap();
    assert_eq!(f64::from_bits(res), 9.0);
}

#[test]
fn parentheses_group_before_multiplication() {
    let calculator = Calculator::new();
    let tokens = tokenize("(1 + 2) * 3").unwrap();
    let postfix = shunting_yard(tokens).unwrap();
    let res = calculator.eval_postfix(postfix).unwrap();
    assert_eq!(f64::from_bits(res), 9.0);
}

#[test]
fn exponentiation_groups_to_the_left() {
    // `(2 ^ 3) ^ 2` = 64, not the conventional right-associative 512
    let calculator = Calculator::new();
    let tokens = tokenize("2 ^ 3 ^ 2").unwrap();
    let postfix = shunting_yard(tokens).unwrap();
    let res = calculator.eval_postfix(postfix).unwrap();
    assert_eq!(f64::from_bits(res), 64.0);
}

#[test]
fn assignment_binds_and_reads_back() {
    let mut calculator = Calculator::new();
    assert_eq!(calculator.calculate_infix("a = 5").unwrap(), "5");
    assert_eq!(calculator.calculate_infix("a + 1").unwrap(), "6");
}

#[test]
fn unmatched_right_parenthesis_fails() {
    assert!(eval_line("1 + 2 * 3)").is_err());
}

#[test]
fn unmatched_left_parenthesis_fails() {
    assert!(eval_line("1 + (2 * 3").is_err());
}

#[test]
fn divide_by_zero_fails_with_its_own_error() {
    assert_eq!(eval_line("1 / 0").unwrap_err(), "Trying to divide by zero!");
}

#[test]
fn lone_operator_fails_without_crashing() {
    let mut calculator = Calculator::new();
    assert!(calculator.calculate_infix("+").is_err());
    assert_eq!(calculator.calculate_infix("1 + 1").unwrap(), "2");
}

#[test]
fn repeated_evaluation_is_idempotent() {
    let mut calculator = Calculator::new();
    assert_eq!(calculator.calculate_infix("b = 2").unwrap(), "2");

    let first = calculator.calculate_infix("b * 3 + 1").unwrap();
    let second = calculator.calculate_infix("b * 3 + 1").unwrap();
    assert_eq!(first, "7");
    assert_eq!(first, second);

    // the environment is unchanged by the non-assigning evaluations
    assert_eq!(calculator.calculate_infix("b").unwrap(), "2");
}

#[test]
fn fractional_results_render_as_decimals() {
    assert_eq!(eval_line("0.5 + 0.25").unwrap(), "0.75");
    assert_eq!(eval_line("1 / 4").unwrap(), "0.25");
}

#[test]
fn left_associative_division_chain() {
    assert_eq!(eval_line("100 / 10 / 5").unwrap(), "2");
}

#[test]
fn negative_literals_evaluate() {
    assert_eq!(eval_line("-5 + 3").unwrap(), "-2");
    assert_eq!(eval_line("2 * -3").unwrap(), "-6");
}

use calculator::calculator::operate;
use calculator::enums::Operator::{Div, Func, Minus, Mul, Plus, Rparen};
use calculator::enums::Token::{Number, Op};
use calculator::Calculator;

fn num(v: f64) -> calculator::enums::Token {
    Number(v.to_bits())
}

#[test]
fn calculator_single_digit_works() {
    let calculator = Calculator::new();
    let test_vec = vec![num(1.0)];
    let res = calculator.eval_postfix(test_vec).unwrap();

    assert_eq!(f64::from_bits(res), 1.0);
}

#[test]
fn one_one_plus_works() {
    let calculator = Calculator::new();
    let test_vec = vec![num(1.0), num(1.0), Op(Plus)];
    let res = calculator.eval_postfix(test_vec).unwrap();

    assert_eq!(f64::from_bits(res), 2.0);
}

#[test]
fn three_two_mul_four_plus_works() {
    let calculator = Calculator::new();
    let test_vec = vec![num(3.0), num(2.0), Op(Mul), num(4.0), Op(Plus)];
    let res = calculator.eval_postfix(test_vec).unwrap();

    assert_eq!(f64::from_bits(res), 10.0);
}

#[test]
fn operator_before_numbers_returns_error() {
    let calculator = Calculator::new();
    let test_vec = vec![Op(Plus), num(1.0), num(2.0)];
    let res = calculator.eval_postfix(test_vec);

    assert!(res.is_err());
}

#[test]
fn too_many_operators_returns_error() {
    let calculator = Calculator::new();
    let test_vec = vec![num(1.0), num(1.0), Op(Mul), Op(Plus)];

    let res = calculator.eval_postfix(test_vec);

    assert!(res.is_err());
}

#[test]
fn too_many_numbers_returns_error() {
    let calculator = Calculator::new();
    let test_vec = vec![num(1.0), num(1.0), Op(Div), num(1.0)];
    let res = calculator.eval_postfix(test_vec);

    assert!(res.is_err());
}

#[test]
fn one_plus_one_is_two() {
    let res = operate((1.0f64).to_bits(), (1.0f64).to_bits(), Plus);

    assert_eq!(f64::from_bits(res.unwrap()), 2.0);
}

#[test]
fn two_times_four_is_eight() {
    let res = operate((2.0f64).to_bits(), (4.0f64).to_bits(), Mul);

    assert_eq!(f64::from_bits(res.unwrap()), 8.0);
}

#[test]
fn four_div_eight_is_half() {
    let res = operate((4.0f64).to_bits(), (8.0f64).to_bits(), Div);

    assert_eq!(f64::from_bits(res.unwrap()), 0.5);
}

#[test]
fn one_minus_two_is_minus_one() {
    let res = operate((1.0f64).to_bits(), (2.0f64).to_bits(), Minus);

    assert_eq!(f64::from_bits(res.unwrap()), -1.0);
}

#[test]
fn unknown_operator_returns_err() {
    let res = operate((1.0f64).to_bits(), (10.0f64).to_bits(), Rparen);

    assert!(res.is_err());
}

#[test]
fn divide_by_zero_returns_nan() {
    let res = operate((1.0f64).to_bits(), (0.0f64).to_bits(), Div);

    assert!(res.is_err());
}

#[test]
fn input_only_operator_doesnt_panic() {
    let mut calculator = Calculator::new();
    let res = calculator.calculate_infix("+");
    assert!(res.is_err());
}

#[test]
fn parentheses_work() {
    let mut calculator = Calculator::new();
    let res = calculator.calculate_infix("(1 + 2) * 3");
    assert_eq!(res.unwrap(), "9");
}

#[test]
fn nan_operand_is_rejected() {
    let res = operate(f64::NAN.to_bits(), (1.0f64).to_bits(), Plus);
    assert_eq!(res.unwrap_err(), "At least one argument is not a number (NaN)");
}

#[test]
fn infinite_operand_is_rejected() {
    let res = operate(f64::INFINITY.to_bits(), (1.0f64).to_bits(), Plus);
    assert_eq!(res.unwrap_err(), "At least one argument is infinite");

    let res = operate((1.0f64).to_bits(), f64::NEG_INFINITY.to_bits(), Mul);
    assert_eq!(res.unwrap_err(), "At least one argument is infinite");
}

#[test]
fn divide_by_zero_message() {
    let res = operate((1.0f64).to_bits(), (-0.0f64).to_bits(), Div);
    assert_eq!(res.unwrap_err(), "Trying to divide by zero!");
}

#[test]
fn unrecognized_operator_message() {
    let res = operate((1.0f64).to_bits(), (10.0f64).to_bits(), Rparen);
    assert_eq!(res.unwrap_err(), "Unrecognized operator: Rparen");
}

#[test]
fn function_applies_to_the_value_below_it() {
    let calculator = Calculator::new();
    let res = calculator
        .eval_postfix(vec![num(4.0), Op(Func(calculator::enums::Function::Sqrt))])
        .unwrap();
    assert_eq!(f64::from_bits(res), 2.0);
}

#[test]
fn function_on_an_empty_stack_errors() {
    let calculator = Calculator::new();
    let res = calculator.eval_postfix(vec![Op(Func(calculator::enums::Function::Sin))]);
    assert_eq!(res.unwrap_err(), "Too few numbers");
}

#[test]
fn undefined_variable_errors() {
    let mut calculator = Calculator::new();
    let res = calculator.calculate_infix("x + 1");
    assert_eq!(res.unwrap_err(), "Undefined variable: x");
}

#[test]
fn assignment_needs_a_variable() {
    let mut calculator = Calculator::new();

    let res = calculator.calculate_infix("= 1 + 1");
    assert_eq!(res.unwrap_err(), "Variable required before '='");

    let res = calculator.calculate_infix("a 1 = 2");
    assert_eq!(res.unwrap_err(), "Too many tokens before '='");

    let res = calculator.calculate_infix("1 = 2");
    assert_eq!(res.unwrap_err(), "Malformed input before '='");
}

#[test]
fn failed_line_leaves_the_environment_usable() {
    let mut calculator = Calculator::new();
    assert_eq!(calculator.calculate_infix("a = 2").unwrap(), "2");
    assert!(calculator.calculate_infix("a + ").is_err());
    assert_eq!(calculator.calculate_infix("a + 1").unwrap(), "3");
}

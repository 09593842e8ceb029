use calculator::enums::Function;
use calculator::enums::Operator::{Div, Func, Mul, Plus};
use calculator::enums::Token::{Number, Op, Variable};
use calculator::tokenize::{get_operator, tokenize};

#[test]
fn simple_case() {
    let test_str = "1";
    let result = tokenize(test_str).unwrap();

    assert_eq!(result, vec![Number((1.0f64).to_bits())]);
}

#[test]
fn one_plus_times_div() {
    let test_str = "1 + * /";
    let result = tokenize(test_str).unwrap();

    let correct = vec![Number((1.0f64).to_bits()), Op(Plus), Op(Mul), Op(Div)];

    assert_eq!(result, correct);
}

#[test]
fn decimal_numbers_parsed() {
    let test_str = "1.5";
    let result = tokenize(test_str).unwrap();

    assert_eq!(result, vec![Number((1.5f64).to_bits())]);
}

#[test]
fn variables() {
    let test_str = "a + 1";
    let result = tokenize(test_str).unwrap();

    let correct = vec![Variable("a".to_string()), Op(Plus), Number((1.0f64).to_bits())];

    assert_eq!(result, correct);
}

#[test]
fn multi_letter_variables() {
    let test_str = "abcdefg";
    let result = tokenize(test_str).unwrap();

    assert_eq!(result[0], Variable(test_str.to_string()));
}

#[test]
fn unknown_character() {
    let test_str = "¦ + 1";
    let result = tokenize(test_str);

    assert!(result.is_err());
}

#[test]
fn returns_true_for_operators() {
    let operators = ['+', '-', '*', '/', '^', '(', ')'];

    for operator in operators {
        assert!(get_operator(operator).is_some());
    }
}

#[test]
fn returns_false_for_others() {
    let not_operators = ['a', '1', '€', '?', '.'];

    for not_operator in not_operators {
        assert!(get_operator(not_operator).is_none());
    }
}

#[test]
fn negative_number_at_start() {
    let result = tokenize("-5").unwrap();

    assert_eq!(result, vec![Number((-5.0f64).to_bits())]);
}

#[test]
fn negative_number_after_operator() {
    let result = tokenize("1 * -2").unwrap();

    let correct = vec![
        Number((1.0f64).to_bits()),
        Op(Mul),
        Number((-2.0f64).to_bits()),
    ];

    assert_eq!(result, correct);
}

#[test]
fn whitespace_joins_identifier() {
    let result = tokenize("a b").unwrap();

    assert_eq!(result, vec![Variable("ab".to_string())]);
}

#[test]
fn function_names_are_case_insensitive() {
    let result = tokenize("SQRT(4)").unwrap();

    assert_eq!(result[0], Op(Func(Function::Sqrt)));
}

#[test]
fn unknown_function_is_an_error() {
    let result = tokenize("foo(1)");

    assert_eq!(result.unwrap_err(), "Unknown function: foo");
}

#[test]
fn unknown_character_message() {
    let result = tokenize("1 ? 2");

    assert_eq!(result.unwrap_err(), "unknown character: ?");
}

#[test]
fn two_decimal_points_are_an_error() {
    let result = tokenize("1.2.3");

    assert_eq!(result.unwrap_err(), "multiple decimal points");
}

use calculator::enums::Operator::{Lparen, Minus, Mul, Plus, Pow, Rparen};
use calculator::tokenize::tokenize;
use calculator::enums::Token::{Number, Op};
use calculator::shunting_yard::shunting_yard;

fn num(v: f64) -> calculator::enums::Token {
    Number(v.to_bits())
}

#[test]
fn shunting_yard_single_digit_works() {
    let tokens = vec![num(1.0)];
    let res = shunting_yard(tokens).unwrap();
    assert_eq!(res[0], num(1.0));
}

#[test]
fn one_plus_one_works() {
    let tokens = vec![num(1.0), Op(Plus), num(1.0)];
    let res = shunting_yard(tokens).unwrap();
    let correct = vec![num(1.0), num(1.0), Op(Plus)];
    assert_eq!(res, correct);
}

#[test]
fn one_plus_two_times_four_works() {
    let tokens = vec![num(1.0), Op(Plus), num(2.0), Op(Mul), num(4.0)];
    let res = shunting_yard(tokens).unwrap();
    let correct = vec![num(1.0), num(2.0), num(4.0), Op(Mul), Op(Plus)];
    assert_eq!(res, correct);
}

#[test]
fn exponents_work() {
    let tokens = vec![num(2.0), Op(Pow), num(4.0), Op(Mul), num(2.0)];

    let res = shunting_yard(tokens).unwrap();
    let correct = vec![num(2.0), num(4.0), Op(Pow), num(2.0), Op(Mul)];

    assert_eq!(res, correct);
}

#[test]
fn mismatched_right_parenthesis_errors() {
    let tokens = vec![
        num(1.0),
        Op(Plus),
        num(2.0),
        Op(Mul),
        num(3.0),
        Op(Rparen),
    ];
    let res = shunting_yard(tokens);
    assert!(res.is_err());
}

#[test]
fn mismatched_left_parenthesis_errors() {
    let tokens = vec![
        num(1.0),
        Op(Plus),
        Op(Lparen),
        num(2.0),
        Op(Mul),
        num(3.0),
    ];
    let res = shunting_yard(tokens);
    assert!(res.is_err());
}

#[test]
fn too_many_numbers_in_a_row() {
    let tokens = vec![num(1.0), num(2.0), Op(Mul), num(100.0)];

    let res = shunting_yard(tokens);

    assert!(res.is_err());
}

#[test]
fn equal_precedence_pops_to_the_left() {
    // `1 - 2 + 3` groups as `(1 - 2) + 3`: postfix is `1 2 - 3 +`
    let tokens = vec![num(1.0), Op(Minus), num(2.0), Op(Plus), num(3.0)];
    let res = shunting_yard(tokens).unwrap();
    let correct = vec![num(1.0), num(2.0), Op(Minus), num(3.0), Op(Plus)];
    assert_eq!(res, correct);
}

#[test]
fn parenthesis_errors_carry_their_messages() {
    let right = shunting_yard(vec![num(1.0), Op(Rparen)]);
    assert_eq!(right.unwrap_err(), "Right parenthesis without a pair found");

    let left = shunting_yard(vec![Op(Lparen), num(1.0)]);
    assert_eq!(left.unwrap_err(), "Left parenthesis without a pair found");
}

#[test]
fn adjacent_operators_error() {
    let res = shunting_yard(vec![num(1.0), Op(Plus), Op(Plus), num(1.0)]);
    assert_eq!(res.unwrap_err(), "Unexpected operator: +");
}

#[test]
fn postfix_keeps_every_non_parenthesis_token() {
    let flat = tokenize("1 + 2 * 4").unwrap();
    assert_eq!(flat.len(), 5);
    assert_eq!(shunting_yard(flat).unwrap().len(), 5);

    let parenthesized = tokenize("(1 + 2) * 3").unwrap();
    assert_eq!(parenthesized.len(), 7);
    assert_eq!(shunting_yard(parenthesized).unwrap().len(), 5);
}

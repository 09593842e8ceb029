use calculator::enums::Function::{Cos, Sin, Sqrt, Tan};

#[test]
fn evaluate_first_test() {
    let val: f64 = 1.4;
    let funcs = [Sin, Cos, Tan, Sqrt];
    let correct = [val.sin(), val.cos(), val.tan(), val.sqrt()];

    for (f, res) in funcs.iter().zip(correct) {
        assert_eq!(f64::from_bits(f.evaluate(val.to_bits())), res);
    }
}

#[test]
fn evaluate_second_test() {
    let val: f64 = 1234.123;
    let funcs = [Sin, Cos, Tan, Sqrt];
    let correct = [val.sin(), val.cos(), val.tan(), val.sqrt()];

    for (f, res) in funcs.iter().zip(correct) {
        assert_eq!(f64::from_bits(f.evaluate(val.to_bits())), res);
    }
}

#[test]
fn evaluate_third_test() {
    let val = f64::NAN;
    let funcs = [Sin, Cos, Tan, Sqrt];
    let correct = [val.sin(), val.cos(), val.tan(), val.sqrt()];

    for (f, res) in funcs.iter().zip(correct) {
        assert_ne!(f64::from_bits(f.evaluate(val.to_bits())), res);
    }
}

#[test]
fn not_a_number_propagates_through_functions() {
    let funcs = [Sin, Cos, Tan, Sqrt];
    for f in funcs {
        assert!(f64::from_bits(f.evaluate(f64::NAN.to_bits())).is_nan());
    }
}

#[test]
fn negative_square_root_is_not_a_number() {
    assert!(f64::from_bits(Sqrt.evaluate((-1.0f64).to_bits())).is_nan());
    assert!(f64::from_bits(Sqrt.evaluate(f64::NEG_INFINITY.to_bits())).is_nan());
    // the square root of a negative zero is that zero itself
    assert_eq!(f64::from_bits(Sqrt.evaluate((-0.0f64).to_bits())), 0.0);
}

#[test]
fn format_returns_right_values() {
    let funcs = [Sin, Cos, Tan, Sqrt];
    let correct = ["sin", "cos", "tan", "sqrt"];

    for (f, res) in funcs.iter().zip(correct) {
        assert_eq!(f.format(), res);
    }
}

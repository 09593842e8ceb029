//! The closed set of lexical atoms and their value payloads.

use crate::numeric::{cos_bits, is_nan_bits, is_neg_bits, is_zero_bits, sin_bits, sqrt_bits,
    sqrt_bits_of, tan_bits};
use vstd::prelude::*;

verus! {

/// A single-argument function; applies to the value immediately below it
/// during postfix evaluation.
#[derive(Debug, PartialEq, Eq, Clone, Copy, Structural)]
pub enum Function {
    Sin,
    Cos,
    Tan,
    Sqrt,
}

/// An operator, a parenthesis, the assignment sign, or a named function.
#[derive(Debug, PartialEq, Eq, Clone, Copy, Structural)]
pub enum Operator {
    Plus,
    Minus,
    Mul,
    Div,
    Pow,
    Lparen,
    Rparen,
    Equals,
    Func(Function),
}

/// A lexical token: a numeric literal (as the bit pattern of its 64-bit
/// floating-point value), an operator, or a variable name resolved only at
/// evaluation time.
#[derive(Debug)]
pub enum Token {
    Number(u64),
    Op(Operator),
    Variable(String),
}

/// The mathematical image of a `Token`: the variable name becomes a
/// sequence of characters.
pub enum TokenS {
    Number(u64),
    Op(Operator),
    Variable(Seq<char>),
}

impl View for Token {
    type V = TokenS;

    open spec fn view(&self) -> TokenS {
        match self {
            Token::Number(b) => TokenS::Number(*b),
            Token::Op(op) => TokenS::Op(*op),
            Token::Variable(s) => TokenS::Variable(s@),
        }
    }
}

impl DeepView for Token {
    type V = TokenS;

    open spec fn deep_view(&self) -> TokenS {
        self.view()
    }
}

impl PartialEq for Token {
    fn eq(&self, other: &Token) -> (r: bool) {
        match (self, other) {
            (Token::Number(a), Token::Number(b)) => *a == *b,
            (Token::Op(a), Token::Op(b)) => *a == *b,
            (Token::Variable(a), Token::Variable(b)) => *a == *b,
            _ => false,
        }
    }
}

impl vstd::std_specs::cmp::PartialEqSpecImpl for Token {
    open spec fn obeys_eq_spec() -> bool {
        true
    }

    open spec fn eq_spec(&self, other: &Token) -> bool {
        match (self, other) {
            (Token::Number(a), Token::Number(b)) => a == b,
            (Token::Op(a), Token::Op(b)) => a == b,
            (Token::Variable(a), Token::Variable(b)) => a@ == b@,
            _ => false,
        }
    }
}

/// What is known of applying `f` to the value with pattern `b` and
/// obtaining the pattern `r`.  The square root of a value that is neither
/// not-a-number nor negative is pinned exactly; a not-a-number input
/// propagates through every function, as does a negative non-zero input
/// to the square root.  The trigonometric results' precision is
/// platform-defined, so beyond that propagation they are not pinned.
pub open spec fn fun_bits_ok(f: Function, b: u64, r: u64) -> bool {
    match f {
        Function::Sqrt => if !is_nan_bits(b) && !(is_neg_bits(b) && !is_zero_bits(b)) {
            r == sqrt_bits_of(b)
        } else {
            is_nan_bits(r)
        },
        _ => is_nan_bits(b) ==> is_nan_bits(r),
    }
}

/// The name of the function, as the tokenizer recognises it.
pub open spec fn fun_name_spec(f: Function) -> Seq<char> {
    match f {
        Function::Sin => "sin"@,
        Function::Cos => "cos"@,
        Function::Tan => "tan"@,
        Function::Sqrt => "sqrt"@,
    }
}

impl Function {
    /// Apply the function to the value whose bit pattern is `param`,
    /// returning the result's bit pattern.  `Sin`, `Cos` and `Tan` are the
    /// standard trigonometric functions in radians; `Sqrt` is the square
    /// root.  A not-a-number input propagates, as does a negative input to
    /// the square root; neither errors nor panics here.
    pub fn evaluate(self, param: u64) -> (r: u64)
        ensures
            fun_bits_ok(self, param, r),
    {
        match self {
            Function::Sin => sin_bits(param),
            Function::Cos => cos_bits(param),
            Function::Tan => tan_bits(param),
            Function::Sqrt => sqrt_bits(param),
        }
    }

    /// The function's lower-case name.
    pub fn format(self) -> (r: &'static str)
        ensures
            r@ == fun_name_spec(self),
    {
        match self {
            Function::Sin => "sin",
            Function::Cos => "cos",
            Function::Tan => "tan",
            Function::Sqrt => "sqrt",
        }
    }
}

/// The symbol the operator is written with; a function is shown by its name.
pub open spec fn op_symbol_spec(op: Operator) -> Seq<char> {
    match op {
        Operator::Plus => "+"@,
        Operator::Minus => "-"@,
        Operator::Mul => "*"@,
        Operator::Div => "/"@,
        Operator::Pow => "^"@,
        Operator::Lparen => "("@,
        Operator::Rparen => ")"@,
        Operator::Equals => "="@,
        Operator::Func(f) => fun_name_spec(f),
    }
}

/// The operator's variant name, used by diagnostics that show the token
/// itself rather than its symbol.
pub open spec fn op_debug_spec(op: Operator) -> Seq<char> {
    match op {
        Operator::Plus => "Plus"@,
        Operator::Minus => "Minus"@,
        Operator::Mul => "Mul"@,
        Operator::Div => "Div"@,
        Operator::Pow => "Pow"@,
        Operator::Lparen => "Lparen"@,
        Operator::Rparen => "Rparen"@,
        Operator::Equals => "Equals"@,
        Operator::Func(Function::Sin) => "Func(Sin)"@,
        Operator::Func(Function::Cos) => "Func(Cos)"@,
        Operator::Func(Function::Tan) => "Func(Tan)"@,
        Operator::Func(Function::Sqrt) => "Func(Sqrt)"@,
    }
}

impl Operator {
    /// The symbol the operator is written with.
    pub fn format(self) -> (r: &'static str)
        ensures
            r@ == op_symbol_spec(self),
    {
        match self {
            Operator::Plus => "+",
            Operator::Minus => "-",
            Operator::Mul => "*",
            Operator::Div => "/",
            Operator::Pow => "^",
            Operator::Lparen => "(",
            Operator::Rparen => ")",
            Operator::Equals => "=",
            Operator::Func(f) => f.format(),
        }
    }

    /// The operator's variant name, for diagnostics that show the token.
    pub fn variant_name(self) -> (r: &'static str)
        ensures
            r@ == op_debug_spec(self),
    {
        match self {
            Operator::Plus => "Plus",
            Operator::Minus => "Minus",
            Operator::Mul => "Mul",
            Operator::Div => "Div",
            Operator::Pow => "Pow",
            Operator::Lparen => "Lparen",
            Operator::Rparen => "Rparen",
            Operator::Equals => "Equals",
            Operator::Func(Function::Sin) => "Func(Sin)",
            Operator::Func(Function::Cos) => "Func(Cos)",
            Operator::Func(Function::Tan) => "Func(Tan)",
            Operator::Func(Function::Sqrt) => "Func(Sqrt)",
        }
    }
}

/// The sequence of token images of a sequence of tokens.
pub open spec fn toks_view(s: Seq<Token>) -> Seq<TokenS> {
    Seq::new(s.len(), |i: int| s[i]@)
}

} // verus!

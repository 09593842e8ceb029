//! Lexical analysis: a line of text becomes a sequence of tokens.
//!
//! The scanner's behaviour is defined by the recursive specification
//! `tok_spec`; the executable `tokenize` is proved to return exactly what
//! the specification says, token for token and error for error.

use crate::enums::{Function, Operator, Token, TokenS, toks_view};
use crate::numeric::{digdot, has_two_dots, num_lit_shape, parse_bits, parse_bits_of};
use crate::text::{is_alpha, is_alpha_of, is_digit, is_digit_char, is_space, is_space_of, lower_of,
    push_char, to_lower};
use vstd::prelude::*;
use vstd::string::StrSliceExecFns;
use vstd::string::StringExecFns;

verus! {

/// The number of consecutive literal-continuing characters starting at
/// position `i`.
pub open spec fn span_num(s: Seq<char>, i: int) -> nat
    decreases s.len() - i,
{
    if i < 0 || i >= s.len() || !digdot(s[i]) {
        0
    } else {
        (1 + span_num(s, i + 1)) as nat
    }
}

/// The literal run starting at `a` spans exactly up to the first position
/// `b` that ends it.
proof fn lemma_span_run(s: Seq<char>, a: int, b: int)
    requires
        0 <= a <= b <= s.len(),
        forall|k: int| a <= k < b ==> digdot(#[trigger] s[k]),
        b == s.len() || !digdot(s[b]),
    ensures
        a + span_num(s, a) == b,
    decreases b - a,
{
    if a < b {
        lemma_span_run(s, a + 1, b);
    }
}

/// The literal run starting at `a` reaches past any position `b` that is
/// still literal-continuing.
proof fn lemma_span_min(s: Seq<char>, a: int, b: int)
    requires
        0 <= a <= b < s.len(),
        forall|k: int| a <= k <= b ==> digdot(#[trigger] s[k]),
    ensures
        a + span_num(s, a) > b,
    decreases b - a,
{
    if a < b {
        lemma_span_min(s, a + 1, b);
    }
}

/// The literal run never reaches past the end of the sequence.
proof fn lemma_span_bound(s: Seq<char>, a: int)
    requires
        0 <= a <= s.len(),
    ensures
        a + span_num(s, a) <= s.len(),
    decreases s.len() - a,
{
    if a < s.len() && digdot(s[a]) {
        lemma_span_bound(s, a + 1);
    }
}

/// Whether a `-` here may start a negative literal: it may when nothing has
/// been emitted yet or the last emitted token is an operator — but never a
/// number, a variable, or a function name.
pub open spec fn neg_ok(acc: Seq<TokenS>) -> bool {
    acc.len() == 0 || match acc.last() {
        TokenS::Op(op) => !(op is Func),
        _ => false,
    }
}

/// The operator a single character denotes, if any.
pub open spec fn get_operator_spec(c: char) -> Option<Operator> {
    if c == '+' {
        Some(Operator::Plus)
    } else if c == '-' {
        Some(Operator::Minus)
    } else if c == '/' {
        Some(Operator::Div)
    } else if c == '*' {
        Some(Operator::Mul)
    } else if c == '^' {
        Some(Operator::Pow)
    } else if c == '(' {
        Some(Operator::Lparen)
    } else if c == ')' {
        Some(Operator::Rparen)
    } else {
        None
    }
}

/// Return the operator for `c` if `c` is one of the defined mathematical
/// operator characters.
pub fn get_operator(c: char) -> (r: Option<Operator>)
    ensures
        r == get_operator_spec(c),
{
    match c {
        '+' => Some(Operator::Plus),
        '-' => Some(Operator::Minus),
        '/' => Some(Operator::Div),
        '*' => Some(Operator::Mul),
        '^' => Some(Operator::Pow),
        '(' => Some(Operator::Lparen),
        ')' => Some(Operator::Rparen),
        _ => None,
    }
}

/// The function a name denotes: the comparison is case-insensitive.
pub open spec fn get_function_spec(name: Seq<char>) -> Option<Function> {
    if lower_of(name) == "sin"@ {
        Some(Function::Sin)
    } else if lower_of(name) == "cos"@ {
        Some(Function::Cos)
    } else if lower_of(name) == "tan"@ {
        Some(Function::Tan)
    } else if lower_of(name) == "sqrt"@ {
        Some(Function::Sqrt)
    } else {
        None
    }
}

/// Return the function that `s` names, comparing case-insensitively.
pub fn get_function(s: &str) -> (r: Option<Function>)
    ensures
        r == get_function_spec(s@),
{
    let low = to_lower(s);
    if low == String::from_str("sin") {
        Some(Function::Sin)
    } else if low == String::from_str("cos") {
        Some(Function::Cos)
    } else if low == String::from_str("tan") {
        Some(Function::Tan)
    } else if low == String::from_str("sqrt") {
        Some(Function::Sqrt)
    } else {
        None
    }
}

/// The identifier scan: starting at `i` with the characters `name` already
/// collected, it gathers alphabetic characters, skips whitespace, and stops
/// either at a left parenthesis (a function name) or at any other
/// character (a variable name).  Returns the collected name, the number of
/// characters consumed from `i`, and whether a parenthesis follows.
pub open spec fn ident_rec(s: Seq<char>, i: int, name: Seq<char>) -> (Seq<char>, nat, bool)
    decreases s.len() - i,
{
    if i < 0 || i >= s.len() {
        (name, 0, false)
    } else if is_alpha_of(s[i]) {
        let r = ident_rec(s, i + 1, name.push(s[i]));
        (r.0, (r.1 + 1) as nat, r.2)
    } else if is_space_of(s[i]) {
        let r = ident_rec(s, i + 1, name);
        (r.0, (r.1 + 1) as nat, r.2)
    } else if s[i] == '(' {
        (name, 0, true)
    } else {
        (name, 0, false)
    }
}

/// The identifier scan never reaches past the end of the sequence.
proof fn lemma_ident_bound(s: Seq<char>, i: int, name: Seq<char>)
    requires
        0 <= i <= s.len(),
    ensures
        i + ident_rec(s, i, name).1 <= s.len(),
    decreases s.len() - i,
{
    if i < s.len() {
        if is_alpha_of(s[i]) {
            lemma_ident_bound(s, i + 1, name.push(s[i]));
        } else if is_space_of(s[i]) {
            lemma_ident_bound(s, i + 1, name);
        }
    }
}

/// One scanning step per recursive call: the tokens collected so far are in
/// `acc`, position `i` is next.  Mirrors, case for case, what one loop
/// iteration of `tokenize` does.
pub open spec fn tok_rec(s: Seq<char>, i: int, acc: Seq<TokenS>) -> Result<Seq<TokenS>, Seq<char>>
    decreases s.len() - i,
    via tok_rec_dec
{
    if i < 0 || i >= s.len() {
        Ok(acc)
    } else {
        let c = s[i];
        let neg = c == '-' && neg_ok(acc) && i + 1 < s.len() && is_digit_char(s[i + 1]);
        if is_digit_char(c) || neg {
            let j = i + 1 + span_num(s, i + 1);
            let lit = s.subrange(i, j);
            if has_two_dots(lit) {
                Err("multiple decimal points"@)
            } else {
                tok_rec(s, j, acc.push(TokenS::Number(parse_bits_of(lit))))
            }
        } else if get_operator_spec(c) is Some {
            tok_rec(s, i + 1, acc.push(TokenS::Op(get_operator_spec(c)->0)))
        } else if is_space_of(c) {
            tok_rec(s, i + 1, acc)
        } else if is_alpha_of(c) {
            let r = ident_rec(s, i + 1, seq![c]);
            let j = i + 1 + r.1;
            if r.2 {
                match get_function_spec(r.0) {
                    Some(f) => tok_rec(s, j, acc.push(TokenS::Op(Operator::Func(f)))),
                    None => Err("Unknown function: "@ + r.0),
                }
            } else {
                tok_rec(s, j, acc.push(TokenS::Variable(r.0)))
            }
        } else if c == '=' {
            tok_rec(s, i + 1, acc.push(TokenS::Op(Operator::Equals)))
        } else {
            Err("unknown character: "@.push(c))
        }
    }
}

#[via_fn]
proof fn tok_rec_dec(s: Seq<char>, i: int, acc: Seq<TokenS>) {
    if 0 <= i < s.len() {
        lemma_span_bound(s, i + 1);
        lemma_ident_bound(s, i + 1, seq![s[i]]);
    }
}

/// What tokenizing a whole line yields: the token sequence in input order,
/// or the first error.
pub open spec fn tok_spec(s: Seq<char>) -> Result<Seq<TokenS>, Seq<char>> {
    tok_rec(s, 0, Seq::empty())
}

/// Tokenize a line of text into a `Vec` of tokens.
///
/// Whitespace separates nothing and is skipped; a `-` directly before a
/// digit starts a negative literal unless a value was just emitted; an
/// alphabetic run is a function name when a `(` follows (whitespace
/// tolerated) and a variable name otherwise.  The result is exactly what
/// `tok_spec` says, including the error message on failure.
pub fn tokenize(input: &str) -> (r: Result<Vec<Token>, String>)
    ensures
        (match r {
            Ok(v) => tok_spec(input@) == Ok::<Seq<TokenS>, Seq<char>>(toks_view(v@)),
            Err(m) => tok_spec(input@) == Err::<Seq<TokenS>, Seq<char>>(m@),
        }),
{
    let ghost s = input@;
    let n = input.unicode_len();
    let mut out: Vec<Token> = Vec::new();
    let mut i: usize = 0;
    proof {
        assert(toks_view(out@) =~= Seq::<TokenS>::empty());
    }
    while i < n
        invariant
            input@ == s,
            n == s.len(),
            i <= n,
            tok_spec(s) == tok_rec(s, i as int, toks_view(out@)),
        decreases n - i,
    {
        let ghost i0 = i as int;
        let ghost acc0 = toks_view(out@);
        let c = input.get_char(i);
        let prev_op = out.len() == 0 || (match &out[out.len() - 1] {
            Token::Op(op) => !(matches!(op, Operator::Func(_))),
            _ => false,
        });
        proof {
            if out@.len() > 0 {
                assert(acc0.last() == out@.last()@);
            }
            assert(prev_op == neg_ok(acc0));
        }
        let neg = c == '-' && prev_op && i + 1 < n && is_digit(input.get_char(i + 1));
        if is_digit(c) || neg {
            let mut lit = String::new();
            push_char(&mut lit, c);
            let mut found_decimal = false;
            let ghost mut dotpos: Option<int> = None;
            let mut j = i + 1;
            while j < n
                invariant
                    input@ == s,
                    n == s.len(),
                    0 <= i0 < n,
                    i0 + 1 <= j <= n,
                    tok_spec(s) == tok_rec(s, i0, acc0),
                    is_digit_char(s[i0]) || (s[i0] == '-' && neg_ok(acc0) && i0 + 1 < n
                        && is_digit_char(s[i0 + 1])),
                    lit@ == s.subrange(i0, j as int),
                    forall|k: int| i0 + 1 <= k < j ==> digdot(#[trigger] s[k]),
                    found_decimal == (dotpos is Some),
                    match dotpos {
                        None => forall|k: int| i0 <= k < j ==> s[k] != '.',
                        Some(p) => i0 + 1 <= p < j && s[p] == '.' && forall|k: int|
                            i0 <= k < j && s[k] == '.' ==> k == p,
                    },
                ensures
                    i0 + 1 <= j <= n,
                    lit@ == s.subrange(i0, j as int),
                    forall|k: int| i0 + 1 <= k < j ==> digdot(#[trigger] s[k]),
                    j == n || !digdot(s[j as int]),
                    match dotpos {
                        None => forall|k: int| i0 <= k < j ==> s[k] != '.',
                        Some(p) => i0 + 1 <= p < j && s[p] == '.' && forall|k: int|
                            i0 <= k < j && s[k] == '.' ==> k == p,
                    },
                decreases n - j,
            {
                let d = input.get_char(j);
                if is_digit(d) {
                    push_char(&mut lit, d);
                    proof {
                        assert(lit@ =~= s.subrange(i0, j + 1));
                    }
                    j = j + 1;
                } else if d == '.' {
                    if found_decimal {
                        proof {
                            let p = dotpos->0;
                            lemma_span_min(s, i0 + 1, j as int);
                            let jf = i0 + 1 + span_num(s, i0 + 1);
                            lemma_span_bound(s, i0 + 1);
                            let litf = s.subrange(i0, jf);
                            assert(litf[p - i0] == '.');
                            assert(litf[j - i0] == '.');
                            assert(has_two_dots(litf));
                            assert(tok_rec(s, i0, acc0) == Err::<Seq<TokenS>, Seq<char>>(
                                "multiple decimal points"@,
                            ));
                        }
                        return Err(String::from_str("multiple decimal points"));
                    }
                    push_char(&mut lit, d);
                    proof {
                        assert(lit@ =~= s.subrange(i0, j + 1));
                        dotpos = Some(j as int);
                    }
                    found_decimal = true;
                    j = j + 1;
                } else {
                    break;
                }
            }
            proof {
                lemma_span_run(s, i0 + 1, j as int);
                let lits = lit@;
                assert(!has_two_dots(lits)) by {
                    if has_two_dots(lits) {
                        let (k1, k2) = choose|k1: int, k2: int|
                            0 <= k1 < k2 < lits.len() && lits[k1] == '.' && lits[k2] == '.';
                        assert(s[i0 + k1] == '.' && s[i0 + k2] == '.');
                        assert(dotpos is Some);
                        let p = dotpos->0;
                        assert(i0 + k1 == p && i0 + k2 == p);
                    }
                };
                assert(num_lit_shape(lits)) by {
                    let body = if lits[0] == '-' {
                        lits.skip(1)
                    } else {
                        lits
                    };
                    let off: int = if lits[0] == '-' {
                        1
                    } else {
                        0
                    };
                    assert(forall|k: int| 0 <= k < body.len() ==> body[k] == lits[k + off]);
                    assert(forall|k: int| 0 <= k < lits.len() ==> lits[k] == s[i0 + k]);
                    assert(is_digit_char(body[0]));
                    assert(forall|k: int| 0 <= k < body.len() ==> digdot(#[trigger] body[k]));
                    assert(!has_two_dots(body)) by {
                        if has_two_dots(body) {
                            let (k1, k2) = choose|k1: int, k2: int|
                                0 <= k1 < k2 < body.len() && body[k1] == '.' && body[k2]
                                    == '.';
                            assert(lits[k1 + off] == '.' && lits[k2 + off] == '.');
                            assert(has_two_dots(lits));
                        }
                    };
                };
            }
            let bits = parse_bits(lit.as_str());
            out.push(Token::Number(bits));
            proof {
                assert(toks_view(out@) =~= acc0.push(TokenS::Number(parse_bits_of(lit@))));
            }
            i = j;
        } else {
            let op_found = get_operator(c);
            if let Some(op) = op_found {
                out.push(Token::Op(op));
                proof {
                    assert(toks_view(out@) =~= acc0.push(TokenS::Op(get_operator_spec(c)->0)));
                }
                i = i + 1;
            } else if is_space(c) {
                i = i + 1;
            } else if is_alpha(c) {
                let mut name = String::new();
                push_char(&mut name, c);
                proof {
                    assert(name@ =~= seq![c]);
                }
                let ghost r0 = ident_rec(s, i0 + 1, seq![c]);
                let mut j = i + 1;
                let mut is_function = false;
                while j < n
                    invariant_except_break
                        !is_function,
                    invariant
                        input@ == s,
                        n == s.len(),
                        0 <= i0 < n,
                        i0 + 1 <= j <= n,
                        c == s[i0],
                        r0 == ident_rec(s, i0 + 1, seq![c]),
                        ({
                            let rc = ident_rec(s, j as int, name@);
                            r0.0 == rc.0 && r0.1 == j - i0 - 1 + rc.1 && r0.2 == rc.2
                        }),
                    ensures
                        r0.0 == name@ && i0 + 1 + r0.1 == j && r0.2 == is_function,
                    decreases n - j,
                {
                    let d = input.get_char(j);
                    if is_alpha(d) {
                        push_char(&mut name, d);
                        j = j + 1;
                    } else if is_space(d) {
                        j = j + 1;
                    } else if d == '(' {
                        is_function = true;
                        break;
                    } else {
                        break;
                    }
                }
                if is_function {
                    let f_found = get_function(name.as_str());
                    if let Some(f) = f_found {
                        out.push(Token::Op(Operator::Func(f)));
                        proof {
                            assert(toks_view(out@) =~= acc0.push(TokenS::Op(Operator::Func(f))));
                        }
                        i = j;
                    } else {
                        let mut m = String::from_str("Unknown function: ");
                        m.append(name.as_str());
                        return Err(m);
                    }
                } else {
                    out.push(Token::Variable(name));
                    proof {
                        assert(toks_view(out@) =~= acc0.push(TokenS::Variable(r0.0)));
                    }
                    i = j;
                }
            } else if c == '=' {
                out.push(Token::Op(Operator::Equals));
                proof {
                    assert(toks_view(out@) =~= acc0.push(TokenS::Op(Operator::Equals)));
                }
                i = i + 1;
            } else {
                let mut m = String::from_str("unknown character: ");
                push_char(&mut m, c);
                return Err(m);
            }
        }
    }
    Ok(out)
}

} // verus!

//! Infix to postfix conversion: Dijkstra's shunting-yard algorithm.
//!
//! The conversion's behaviour is defined by the recursive specification
//! `sy_spec`; the executable `shunting_yard` is proved to return exactly
//! what the specification says.  A successful conversion keeps every
//! operand and operator of its input and drops exactly the parentheses:
//! `lemma_postfix_preserves_tokens` states this as a multiset equality.

use crate::enums::{Operator, Token, TokenS, op_symbol_spec, toks_view};
use vstd::multiset::Multiset;
use vstd::prelude::*;
use vstd::string::StringExecFns;

verus! {

/// The precedence of an operator: ties resolve to the left, so during
/// conversion an equal-precedence operator on the stack is popped first.
pub open spec fn precedence_spec(op: Operator) -> Option<u8> {
    match op {
        Operator::Plus | Operator::Minus => Some(2),
        Operator::Mul | Operator::Div => Some(3),
        Operator::Pow => Some(4),
        _ => None,
    }
}

/// Returns the precedence value for the given operator: 2 for `+` and `-`,
/// 3 for `*` and `/`, 4 for `^`, and nothing for the rest.
pub fn precedence(op: Operator) -> (r: Option<u8>)
    ensures
        r == precedence_spec(op),
{
    match op {
        Operator::Plus | Operator::Minus => Some(2),
        Operator::Mul | Operator::Div => Some(3),
        Operator::Pow => Some(4),
        _ => None,
    }
}

/// Closing a parenthesis: operators are popped to the output until the
/// matching left parenthesis is popped and discarded; an exhausted stack
/// means the right parenthesis had no pair.
pub open spec fn close_paren(out: Seq<TokenS>, ops: Seq<Operator>) -> Result<
    (Seq<TokenS>, Seq<Operator>),
    Seq<char>,
>
    decreases ops.len(),
{
    if ops.len() == 0 {
        Err("Right parenthesis without a pair found"@)
    } else if ops.last() == Operator::Lparen {
        Ok((out, ops.drop_last()))
    } else {
        close_paren(out.push(TokenS::Op(ops.last())), ops.drop_last())
    }
}

/// Before an operator of precedence `p1` is pushed, every stacked operator
/// down to the nearest left parenthesis whose precedence is at least `p1`
/// is popped to the output; a stacked operator without a precedence never
/// stays below the new one.
pub open spec fn pop_ge(out: Seq<TokenS>, ops: Seq<Operator>, p1: u8) -> (Seq<TokenS>, Seq<
    Operator,
>)
    decreases ops.len(),
{
    if ops.len() == 0 {
        (out, ops)
    } else if ops.last() == Operator::Lparen {
        (out, ops)
    } else {
        match precedence_spec(ops.last()) {
            Some(p2) => if p2 >= p1 {
                pop_ge(out.push(TokenS::Op(ops.last())), ops.drop_last(), p1)
            } else {
                (out, ops)
            },
            None => pop_ge(out.push(TokenS::Op(ops.last())), ops.drop_last(), p1),
        }
    }
}

/// At the end of the input every remaining operator is popped to the
/// output; a left parenthesis among them never found its pair.
pub open spec fn pop_all(out: Seq<TokenS>, ops: Seq<Operator>) -> Result<Seq<TokenS>, Seq<char>>
    decreases ops.len(),
{
    if ops.len() == 0 {
        Ok(out)
    } else if ops.last() == Operator::Lparen {
        Err("Left parenthesis without a pair found"@)
    } else {
        pop_all(out.push(TokenS::Op(ops.last())), ops.drop_last())
    }
}

/// One conversion step per recursive call: `out` is the postfix output so
/// far, `ops` the operator stack, and `expecting` whether an operator (not
/// another operand) has to come next for the expression to stay
/// well-formed.  Mirrors, case for case, one loop iteration of
/// `shunting_yard`.
pub open spec fn sy_rec(
    s: Seq<TokenS>,
    i: int,
    out: Seq<TokenS>,
    ops: Seq<Operator>,
    expecting: bool,
) -> Result<Seq<TokenS>, Seq<char>>
    decreases s.len() - i,
{
    if i < 0 || i >= s.len() {
        pop_all(out, ops)
    } else {
        match s[i] {
            TokenS::Op(op) => if op == Operator::Lparen {
                sy_rec(s, i + 1, out, ops.push(Operator::Lparen), expecting)
            } else if op == Operator::Rparen {
                match close_paren(out, ops) {
                    Ok(r2) => sy_rec(s, i + 1, r2.0, r2.1, expecting),
                    Err(m) => Err(m),
                }
            } else if op is Func {
                // a function name is an operand placeholder: it goes
                // straight to the output, deferred to evaluation time
                if expecting {
                    Err("Too many numbers in a row"@)
                } else {
                    sy_rec(s, i + 1, out.push(s[i]), ops, true)
                }
            } else if !expecting {
                Err("Unexpected operator: "@ + op_symbol_spec(op))
            } else {
                match precedence_spec(op) {
                    Some(p1) => {
                        let r2 = pop_ge(out, ops, p1);
                        sy_rec(s, i + 1, r2.0, r2.1.push(op), false)
                    },
                    None => sy_rec(s, i + 1, out, ops.push(op), false),
                }
            },
            _ => if expecting {
                Err("Too many numbers in a row"@)
            } else {
                sy_rec(s, i + 1, out.push(s[i]), ops, true)
            },
        }
    }
}

/// What converting a whole token sequence yields: the tokens in postfix
/// order, or the first error.
pub open spec fn sy_spec(s: Seq<TokenS>) -> Result<Seq<TokenS>, Seq<char>> {
    sy_rec(s, 0, Seq::empty(), Seq::empty(), false)
}

/// Perform Dijkstra's shunting-yard algorithm to convert a tokenized
/// mathematical expression from infix notation to postfix (reverse Polish)
/// notation.
///
/// Operators are reordered by precedence, ties going to the left;
/// parentheses group and are consumed; two adjacent operands or two
/// adjacent operators are rejected.  The result is exactly what `sy_spec`
/// says, including the error message on failure.
pub fn shunting_yard(input: Vec<Token>) -> (r: Result<Vec<Token>, String>)
    ensures
        (match r {
            Ok(v) => sy_spec(toks_view(input@)) == Ok::<Seq<TokenS>, Seq<char>>(toks_view(v@)),
            Err(m) => sy_spec(toks_view(input@)) == Err::<Seq<TokenS>, Seq<char>>(m@),
        }),
{
    let ghost s0 = toks_view(input@);
    let mut out: Vec<Token> = Vec::new();
    let mut operators: Vec<Operator> = Vec::new();
    let mut is_operator_time = false;
    let mut idx: usize = 0;
    proof {
        assert(toks_view(out@) =~= Seq::<TokenS>::empty());
    }
    while idx < input.len()
        invariant
            s0 == toks_view(input@),
            idx <= input@.len(),
            sy_spec(s0) == sy_rec(s0, idx as int, toks_view(out@), operators@, is_operator_time),
        decreases input@.len() - idx,
    {
        let ghost o_in = toks_view(out@);
        let ghost p_in = operators@;
        proof {
            assert(s0[idx as int] == input@[idx as int]@);
        }
        match &input[idx] {
            Token::Op(op_ref) => {
                let op = *op_ref;
                if op == Operator::Lparen {
                    operators.push(op);
                } else if op == Operator::Rparen {
                    let mut found = false;
                    while operators.len() > 0
                        invariant_except_break
                            !found,
                            close_paren(o_in, p_in) == close_paren(
                                toks_view(out@),
                                operators@,
                            ),
                        ensures
                            found ==> close_paren(o_in, p_in) == Ok::<
                                (Seq<TokenS>, Seq<Operator>),
                                Seq<char>,
                            >((toks_view(out@), operators@)),
                            !found ==> operators@.len() == 0 && close_paren(o_in, p_in)
                                == Err::<(Seq<TokenS>, Seq<Operator>), Seq<char>>(
                                "Right parenthesis without a pair found"@,
                            ),
                        decreases operators@.len(),
                    {
                        let ghost o_b = toks_view(out@);
                        let ghost p_b = operators@;
                        let op2 = operators[operators.len() - 1];
                        operators.pop();
                        proof {
                            assert(operators@ == p_b.drop_last());
                        }
                        if op2 == Operator::Lparen {
                            found = true;
                            break;
                        }
                        out.push(Token::Op(op2));
                        proof {
                            assert(toks_view(out@) =~= o_b.push(TokenS::Op(op2)));
                        }
                    }
                    if !found {
                        return Err(String::from_str("Right parenthesis without a pair found"));
                    }
                } else if matches!(op, Operator::Func(_)) {
                    if is_operator_time {
                        return Err(String::from_str("Too many numbers in a row"));
                    }
                    is_operator_time = true;
                    out.push(Token::Op(op));
                    proof {
                        assert(toks_view(out@) =~= o_in.push(s0[idx as int]));
                    }
                } else {
                    if !is_operator_time {
                        let mut m = String::from_str("Unexpected operator: ");
                        m.append(op.format());
                        return Err(m);
                    }
                    is_operator_time = false;
                    let prec = precedence(op);
                    if let Some(p1) = prec {
                        while operators.len() > 0
                            invariant
                                pop_ge(o_in, p_in, p1) == pop_ge(
                                    toks_view(out@),
                                    operators@,
                                    p1,
                                ),
                            ensures
                                pop_ge(o_in, p_in, p1) == (toks_view(out@), operators@),
                            decreases operators@.len(),
                        {
                            let ghost o_b = toks_view(out@);
                            let ghost p_b = operators@;
                            let last_operator = operators[operators.len() - 1];
                            if last_operator == Operator::Lparen {
                                break;
                            }
                            let should_pop = match precedence(last_operator) {
                                Some(p2) => p2 >= p1,
                                None => true,
                            };
                            if !should_pop {
                                break;
                            }
                            out.push(Token::Op(last_operator));
                            operators.pop();
                            proof {
                                assert(operators@ == p_b.drop_last());
                                assert(toks_view(out@) =~= o_b.push(TokenS::Op(last_operator)));
                            }
                        }
                        operators.push(op);
                    } else {
                        operators.push(op);
                    }
                }
            },
            Token::Number(b) => {
                if is_operator_time {
                    return Err(String::from_str("Too many numbers in a row"));
                }
                is_operator_time = true;
                out.push(Token::Number(*b));
                proof {
                    assert(toks_view(out@) =~= o_in.push(s0[idx as int]));
                }
            },
            Token::Variable(nm) => {
                if is_operator_time {
                    return Err(String::from_str("Too many numbers in a row"));
                }
                is_operator_time = true;
                out.push(Token::Variable(nm.clone()));
                proof {
                    assert(toks_view(out@) =~= o_in.push(s0[idx as int]));
                }
            },
        }
        idx = idx + 1;
    }
    while operators.len() > 0
        invariant
            s0 == toks_view(input@),
            sy_spec(s0) == pop_all(toks_view(out@), operators@),
        decreases operators@.len(),
    {
        let ghost o_b = toks_view(out@);
        let ghost p_b = operators@;
        let op2 = operators[operators.len() - 1];
        operators.pop();
        proof {
            assert(operators@ == p_b.drop_last());
        }
        if op2 == Operator::Lparen {
            proof {
                assert(p_b.len() > 0 && p_b.last() == Operator::Lparen);
                assert(pop_all(o_b, p_b) == Err::<Seq<TokenS>, Seq<char>>(
                    "Left parenthesis without a pair found"@,
                ));
                assert(sy_spec(s0) == pop_all(o_b, p_b));
            }
            return Err(String::from_str("Left parenthesis without a pair found"));
        }
        out.push(Token::Op(op2));
        proof {
            assert(toks_view(out@) =~= o_b.push(TokenS::Op(op2)));
        }
    }
    Ok(out)
}

/// Whether a token is a parenthesis; the conversion consumes exactly these.
pub open spec fn is_paren(t: TokenS) -> bool {
    match t {
        TokenS::Op(op) => op == Operator::Lparen || op == Operator::Rparen,
        _ => false,
    }
}

/// The multiset of non-parenthesis tokens of `s` from position `i` on.
pub open spec fn npms(s: Seq<TokenS>, i: int) -> Multiset<TokenS>
    decreases s.len() - i,
{
    if i < 0 || i >= s.len() {
        Multiset::empty()
    } else if is_paren(s[i]) {
        npms(s, i + 1)
    } else {
        npms(s, i + 1).insert(s[i])
    }
}

/// The multiset of tokens that the operator stack still owes the output:
/// each stacked operator except the left parentheses.
pub open spec fn stack_ms(ops: Seq<Operator>) -> Multiset<TokenS>
    decreases ops.len(),
{
    if ops.len() == 0 {
        Multiset::empty()
    } else if ops.last() == Operator::Lparen {
        stack_ms(ops.drop_last())
    } else {
        stack_ms(ops.drop_last()).insert(TokenS::Op(ops.last()))
    }
}

proof fn lemma_close_paren_ms(out: Seq<TokenS>, ops: Seq<Operator>)
    requires
        close_paren(out, ops) is Ok,
    ensures
        ({
            let r2 = close_paren(out, ops)->Ok_0;
            r2.0.to_multiset().add(stack_ms(r2.1)) == out.to_multiset().add(stack_ms(ops))
        }),
    decreases ops.len(),
{
    broadcast use vstd::seq_lib::group_to_multiset_ensures;

    if ops.len() == 0 {
    } else if ops.last() == Operator::Lparen {
    } else {
        lemma_close_paren_ms(out.push(TokenS::Op(ops.last())), ops.drop_last());
        assert(out.push(TokenS::Op(ops.last())).to_multiset().add(stack_ms(ops.drop_last()))
            =~= out.to_multiset().add(stack_ms(ops)));
    }
}

proof fn lemma_pop_ge_ms(out: Seq<TokenS>, ops: Seq<Operator>, p1: u8)
    ensures
        ({
            let r2 = pop_ge(out, ops, p1);
            r2.0.to_multiset().add(stack_ms(r2.1)) == out.to_multiset().add(stack_ms(ops))
        }),
    decreases ops.len(),
{
    broadcast use vstd::seq_lib::group_to_multiset_ensures;

    if ops.len() == 0 || ops.last() == Operator::Lparen {
    } else {
        let popping = match precedence_spec(ops.last()) {
            Some(p2) => p2 >= p1,
            None => true,
        };
        if popping {
            lemma_pop_ge_ms(out.push(TokenS::Op(ops.last())), ops.drop_last(), p1);
            assert(out.push(TokenS::Op(ops.last())).to_multiset().add(stack_ms(ops.drop_last()))
                =~= out.to_multiset().add(stack_ms(ops)));
        }
    }
}

proof fn lemma_pop_all_ms(out: Seq<TokenS>, ops: Seq<Operator>)
    requires
        pop_all(out, ops) is Ok,
    ensures
        (pop_all(out, ops)->Ok_0).to_multiset() == out.to_multiset().add(stack_ms(ops)),
    decreases ops.len(),
{
    broadcast use vstd::seq_lib::group_to_multiset_ensures;

    if ops.len() == 0 {
        assert(out.to_multiset().add(stack_ms(ops)) =~= out.to_multiset());
    } else if ops.last() == Operator::Lparen {
    } else {
        lemma_pop_all_ms(out.push(TokenS::Op(ops.last())), ops.drop_last());
        assert(out.push(TokenS::Op(ops.last())).to_multiset().add(stack_ms(ops.drop_last()))
            =~= out.to_multiset().add(stack_ms(ops)));
    }
}

proof fn lemma_sy_rec_ms(s: Seq<TokenS>, i: int, out: Seq<TokenS>, ops: Seq<Operator>, exp: bool)
    requires
        0 <= i,
        sy_rec(s, i, out, ops, exp) is Ok,
    ensures
        (sy_rec(s, i, out, ops, exp)->Ok_0).to_multiset() == out.to_multiset().add(
            stack_ms(ops),
        ).add(npms(s, i)),
    decreases s.len() - i,
{
    broadcast use vstd::seq_lib::group_to_multiset_ensures;

    if i >= s.len() {
        lemma_pop_all_ms(out, ops);
        assert(out.to_multiset().add(stack_ms(ops)).add(npms(s, i)) =~= out.to_multiset().add(
            stack_ms(ops),
        ));
    } else {
        match s[i] {
            TokenS::Op(op) => {
                if op == Operator::Lparen {
                    lemma_sy_rec_ms(s, i + 1, out, ops.push(Operator::Lparen), exp);
                    assert(ops.push(Operator::Lparen).drop_last() =~= ops);
                    assert(stack_ms(ops.push(Operator::Lparen)) == stack_ms(ops));
                } else if op == Operator::Rparen {
                    let r2 = close_paren(out, ops)->Ok_0;
                    lemma_close_paren_ms(out, ops);
                    lemma_sy_rec_ms(s, i + 1, r2.0, r2.1, exp);
                } else if op is Func {
                    lemma_sy_rec_ms(s, i + 1, out.push(s[i]), ops, true);
                    assert(out.push(s[i]).to_multiset().add(stack_ms(ops)).add(npms(s, i + 1))
                        =~= out.to_multiset().add(stack_ms(ops)).add(npms(s, i)));
                } else {
                    match precedence_spec(op) {
                        Some(p1) => {
                            let r2 = pop_ge(out, ops, p1);
                            lemma_pop_ge_ms(out, ops, p1);
                            lemma_sy_rec_ms(s, i + 1, r2.0, r2.1.push(op), false);
                            assert(r2.1.push(op).drop_last() =~= r2.1);
                            assert(stack_ms(r2.1.push(op)) == stack_ms(r2.1).insert(
                                TokenS::Op(op),
                            ));
                            assert(r2.0.to_multiset().add(stack_ms(r2.1).insert(TokenS::Op(op)))
                                .add(npms(s, i + 1)) =~= out.to_multiset().add(stack_ms(ops)).add(
                                npms(s, i),
                            ));
                        },
                        None => {
                            lemma_sy_rec_ms(s, i + 1, out, ops.push(op), false);
                            assert(ops.push(op).drop_last() =~= ops);
                            assert(stack_ms(ops.push(op)) == stack_ms(ops).insert(
                                TokenS::Op(op),
                            ));
                            assert(out.to_multiset().add(stack_ms(ops).insert(TokenS::Op(op)))
                                .add(npms(s, i + 1)) =~= out.to_multiset().add(stack_ms(ops)).add(
                                npms(s, i),
                            ));
                        },
                    }
                }
            },
            _ => {
                lemma_sy_rec_ms(s, i + 1, out.push(s[i]), ops, true);
                assert(out.push(s[i]).to_multiset().add(stack_ms(ops)).add(npms(s, i + 1))
                    =~= out.to_multiset().add(stack_ms(ops)).add(npms(s, i)));
            },
        }
    }
}

/// A successful conversion to postfix neither invents nor loses tokens: its
/// output holds exactly the operand and operator tokens of its input — the
/// parentheses are consumed — merely reordered.
pub proof fn lemma_postfix_preserves_tokens(s: Seq<TokenS>)
    requires
        sy_spec(s) is Ok,
    ensures
        (sy_spec(s)->Ok_0).to_multiset() == npms(s, 0),
        (sy_spec(s)->Ok_0).len() == npms(s, 0).len(),
{
    broadcast use vstd::seq_lib::group_to_multiset_ensures;

    lemma_sy_rec_ms(s, 0, Seq::empty(), Seq::empty(), false);
    assert(Seq::<TokenS>::empty().to_multiset().add(stack_ms(Seq::empty())).add(npms(s, 0))
        =~= npms(s, 0));
}

proof fn lemma_npms_full_len(s: Seq<TokenS>, i: int)
    requires
        0 <= i <= s.len(),
        forall|k: int| i <= k < s.len() ==> !is_paren(#[trigger] s[k]),
    ensures
        npms(s, i).len() == s.len() - i,
    decreases s.len() - i,
{
    broadcast use vstd::multiset::lemma_insert_len;

    if i < s.len() {
        lemma_npms_full_len(s, i + 1);
    }
}

/// Every token counted by `npms` occurs in the sequence it was taken from.
pub(crate) proof fn lemma_npms_member(s: Seq<TokenS>, i: int, t: TokenS)
    requires
        0 <= i,
        npms(s, i).count(t) > 0,
    ensures
        exists|j: int| i <= j < s.len() && s[j] == t,
    decreases s.len() - i,
{
    broadcast use vstd::multiset::group_multiset_axioms;

    if i < s.len() {
        if !is_paren(s[i]) && s[i] == t {
            assert(i <= i < s.len() && s[i] == t);
        } else {
            lemma_npms_member(s, i + 1, t);
        }
    }
}

/// For a parenthesis-free input, a successful conversion to postfix yields
/// exactly as many tokens as it was given.
pub proof fn lemma_postfix_same_length(s: Seq<TokenS>)
    requires
        sy_spec(s) is Ok,
        forall|k: int| 0 <= k < s.len() ==> !is_paren(#[trigger] s[k]),
    ensures
        (sy_spec(s)->Ok_0).len() == s.len(),
{
    lemma_postfix_preserves_tokens(s);
    lemma_npms_full_len(s, 0);
}

/// Whether a token stands for a value: a literal, a variable, or a
/// function name, which is an operand placeholder during conversion.
pub open spec fn is_operand(t: TokenS) -> bool {
    match t {
        TokenS::Number(_) => true,
        TokenS::Variable(_) => true,
        TokenS::Op(op) => op is Func,
    }
}

/// Whether a token is an operator proper: an `Op` that is neither a
/// parenthesis nor a function name.
pub open spec fn is_plain_op(t: TokenS) -> bool {
    match t {
        TokenS::Op(op) => op != Operator::Lparen && op != Operator::Rparen && !(op is Func),
        _ => false,
    }
}

/// The parenthesis depth in front of position `i`: opened minus closed.
pub open spec fn depth(s: Seq<TokenS>, i: int) -> int
    decreases i,
{
    if i <= 0 {
        0
    } else {
        depth(s, i - 1) + (if s[i - 1] == TokenS::Op(Operator::Lparen) {
            1int
        } else if s[i - 1] == TokenS::Op(Operator::Rparen) {
            -1int
        } else {
            0int
        })
    }
}

/// Whether, in front of position `i`, an operator has to come next: true
/// directly after an operand, false directly after an operator and at the
/// start; parentheses leave it as it was.
pub open spec fn expecting_at(s: Seq<TokenS>, i: int) -> bool
    decreases i,
{
    if i <= 0 {
        false
    } else if is_operand(s[i - 1]) {
        true
    } else if is_plain_op(s[i - 1]) {
        false
    } else {
        expecting_at(s, i - 1)
    }
}

/// A well-formed expression: every operand comes where a value may stand,
/// every operator comes between values, every right parenthesis closes an
/// open one, and at the end every left parenthesis has been closed.
pub open spec fn wf_expr(s: Seq<TokenS>) -> bool {
    &&& forall|j: int| 0 <= j < s.len() && is_operand(#[trigger] s[j]) ==> !expecting_at(s, j)
    &&& forall|j: int| 0 <= j < s.len() && is_plain_op(#[trigger] s[j]) ==> expecting_at(s, j)
    &&& forall|j: int|
        0 <= j < s.len() && #[trigger] s[j] == TokenS::Op(Operator::Rparen) ==> depth(s, j) > 0
    &&& depth(s, s.len() as int) == 0
}

/// The number of left parentheses on the operator stack.
pub open spec fn lparen_count(ops: Seq<Operator>) -> int
    decreases ops.len(),
{
    if ops.len() == 0 {
        0
    } else {
        lparen_count(ops.drop_last()) + (if ops.last() == Operator::Lparen {
            1int
        } else {
            0int
        })
    }
}

proof fn lemma_lparen_count_nonneg(ops: Seq<Operator>)
    ensures
        lparen_count(ops) >= 0,
    decreases ops.len(),
{
    if ops.len() > 0 {
        lemma_lparen_count_nonneg(ops.drop_last());
    }
}

proof fn lemma_pop_all_ok_iff(out: Seq<TokenS>, ops: Seq<Operator>)
    ensures
        pop_all(out, ops) is Ok <==> lparen_count(ops) == 0,
    decreases ops.len(),
{
    if ops.len() > 0 {
        lemma_lparen_count_nonneg(ops.drop_last());
        if ops.last() != Operator::Lparen {
            lemma_pop_all_ok_iff(out.push(TokenS::Op(ops.last())), ops.drop_last());
        }
    }
}

proof fn lemma_close_paren_iff(out: Seq<TokenS>, ops: Seq<Operator>)
    ensures
        close_paren(out, ops) is Ok <==> lparen_count(ops) > 0,
        close_paren(out, ops) is Ok ==> lparen_count((close_paren(out, ops)->Ok_0).1)
            == lparen_count(ops) - 1,
    decreases ops.len(),
{
    if ops.len() > 0 {
        lemma_lparen_count_nonneg(ops.drop_last());
        if ops.last() != Operator::Lparen {
            lemma_close_paren_iff(out.push(TokenS::Op(ops.last())), ops.drop_last());
        }
    }
}

proof fn lemma_pop_ge_count(out: Seq<TokenS>, ops: Seq<Operator>, p1: u8)
    ensures
        lparen_count(pop_ge(out, ops, p1).1) == lparen_count(ops),
    decreases ops.len(),
{
    if ops.len() > 0 && ops.last() != Operator::Lparen {
        let popping = match precedence_spec(ops.last()) {
            Some(p2) => p2 >= p1,
            None => true,
        };
        if popping {
            lemma_pop_ge_count(out.push(TokenS::Op(ops.last())), ops.drop_last(), p1);
        }
    }
}

proof fn lemma_sy_ok_iff(s: Seq<TokenS>, i: int, out: Seq<TokenS>, ops: Seq<Operator>, exp: bool)
    requires
        0 <= i <= s.len(),
        lparen_count(ops) == depth(s, i),
        exp == expecting_at(s, i),
    ensures
        sy_rec(s, i, out, ops, exp) is Ok <==> ({
            &&& forall|j: int| i <= j < s.len() && is_operand(#[trigger] s[j]) ==> !expecting_at(s, j)
            &&& forall|j: int| i <= j < s.len() && is_plain_op(#[trigger] s[j]) ==> expecting_at(s, j)
            &&& forall|j: int|
                i <= j < s.len() && #[trigger] s[j] == TokenS::Op(Operator::Rparen) ==> depth(s, j)
                    > 0
            &&& depth(s, s.len() as int) == 0
        }),
    decreases s.len() - i,
{
    if i >= s.len() {
        lemma_pop_all_ok_iff(out, ops);
    } else {
        let t = s[i];
        if t == TokenS::Op(Operator::Lparen) {
            assert(ops.push(Operator::Lparen).drop_last() =~= ops);
            lemma_sy_ok_iff(s, i + 1, out, ops.push(Operator::Lparen), exp);
        } else if t == TokenS::Op(Operator::Rparen) {
            lemma_close_paren_iff(out, ops);
            if close_paren(out, ops) is Ok {
                let r2 = close_paren(out, ops)->Ok_0;
                lemma_sy_ok_iff(s, i + 1, r2.0, r2.1, exp);
            }
        } else if is_operand(t) {
            if !exp {
                lemma_sy_ok_iff(s, i + 1, out.push(t), ops, true);
            }
        } else {
            // an operator proper
            if exp {
                match precedence_spec(t->Op_0) {
                    Some(p1) => {
                        let r2 = pop_ge(out, ops, p1);
                        lemma_pop_ge_count(out, ops, p1);
                        assert(r2.1.push(t->Op_0).drop_last() =~= r2.1);
                        lemma_sy_ok_iff(s, i + 1, r2.0, r2.1.push(t->Op_0), false);
                    },
                    None => {
                        assert(ops.push(t->Op_0).drop_last() =~= ops);
                        lemma_sy_ok_iff(s, i + 1, out, ops.push(t->Op_0), false);
                    },
                }
            }
        }
    }
}

/// The conversion succeeds on exactly the well-formed expressions: the
/// parenthesis-balanced, operator-adjacency-valid token sequences.
pub proof fn lemma_postfix_ok_iff_well_formed(s: Seq<TokenS>)
    ensures
        sy_spec(s) is Ok <==> wf_expr(s),
{
    lemma_sy_ok_iff(s, 0, Seq::empty(), Seq::empty(), false);
}

} // verus!

//! The calculator session: a persistent variable environment, postfix
//! evaluation against it, and the per-line orchestration of tokenizing,
//! converting and evaluating, with the `name = expression` assignment
//! sugar.

use crate::enums::{Operator, Token, TokenS, fun_bits_ok, op_debug_spec, toks_view};
use crate::numeric::{add_bits, diff_bits_of, div_bits, fmt_bits, fmt_bits_of, is_inf, is_inf_bits,
    is_nan, is_nan_bits, is_zero, is_zero_bits, mul_bits, pow_bits, prod_bits_of, quot_bits_of,
    sub_bits, sum_bits_of};
use crate::shunting_yard::{lemma_npms_member, lemma_postfix_preserves_tokens, shunting_yard,
    sy_spec};
use crate::tokenize::{tok_spec, tokenize};
use vstd::prelude::*;
use vstd::string::StrSliceExecFns;
use vstd::string::StringExecFns;

verus! {

/// Whether `r` is a possible outcome of applying `op` to the value with
/// pattern `a` (the left operand) and the value with pattern `b` (the
/// right operand).  A not-a-number or infinite operand is rejected before
/// any operation; division by a zero value is rejected; a token that is no
/// arithmetic operator — a parenthesis, the assignment sign — is rejected
/// as unrecognized.  Every error, and every value but that of `^`, is
/// pinned exactly; the value of `^` is not, its precision being
/// platform-defined.
pub open spec fn operate_rel(a: u64, b: u64, op: Operator, r: Result<u64, Seq<char>>) -> bool {
    if is_nan_bits(a) || is_nan_bits(b) {
        r == Err::<u64, Seq<char>>("At least one argument is not a number (NaN)"@)
    } else if is_inf_bits(a) || is_inf_bits(b) {
        r == Err::<u64, Seq<char>>("At least one argument is infinite"@)
    } else {
        match op {
            Operator::Plus => r == Ok::<u64, Seq<char>>(sum_bits_of(a, b)),
            Operator::Minus => r == Ok::<u64, Seq<char>>(diff_bits_of(a, b)),
            Operator::Mul => r == Ok::<u64, Seq<char>>(prod_bits_of(a, b)),
            Operator::Div => if is_zero_bits(b) {
                r == Err::<u64, Seq<char>>("Trying to divide by zero!"@)
            } else {
                r == Ok::<u64, Seq<char>>(quot_bits_of(a, b))
            },
            Operator::Pow => r is Ok,
            _ => r == Err::<u64, Seq<char>>("Unrecognized operator: "@ + op_debug_spec(op)),
        }
    }
}

/// For every operator but `^` the relation `operate_rel` admits a single
/// outcome.
proof fn lemma_operate_det(a: u64, b: u64, op: Operator, r1: Result<u64, Seq<char>>, r2: Result<
    u64,
    Seq<char>,
>)
    requires
        op != Operator::Pow,
        operate_rel(a, b, op, r1),
        operate_rel(a, b, op, r2),
    ensures
        r1 == r2,
{
}

/// Operate on the two argument values depending on `op`: the first
/// argument is the one the operation is applied to, so with `Div` the
/// value of `a` is divided by the value of `b`.  Values are carried as
/// their bit patterns; the outcome satisfies `operate_rel`.
pub fn operate(a: u64, b: u64, op: Operator) -> (r: Result<u64, String>)
    ensures
        (match r {
            Ok(v) => operate_rel(a, b, op, Ok(v)),
            Err(m) => operate_rel(a, b, op, Err(m@)),
        }),
{
    if is_nan(a) || is_nan(b) {
        return Err(String::from_str("At least one argument is not a number (NaN)"));
    }
    if is_inf(a) || is_inf(b) {
        return Err(String::from_str("At least one argument is infinite"));
    }
    match op {
        Operator::Plus => Ok(add_bits(a, b)),
        Operator::Minus => Ok(sub_bits(a, b)),
        Operator::Mul => Ok(mul_bits(a, b)),
        Operator::Div => if is_zero(b) {
            Err(String::from_str("Trying to divide by zero!"))
        } else {
            Ok(div_bits(a, b))
        },
        Operator::Pow => Ok(pow_bits(a, b)),
        _ => {
            let mut m = String::from_str("Unrecognized operator: ");
            m.append(op.variant_name());
            Err(m)
        },
    }
}

/// Whether `out` is a possible outcome of evaluation from position `i` of
/// the postfix sequence on, with `stack` the operand stack so far.
/// Mirrors, case for case, one loop iteration of `eval_postfix`; where an
/// applied operation has more than one possible value — `^` and the named
/// functions, whose precision is platform-defined — every value the
/// operation may draw is admitted, and the evaluation continues with it.
pub open spec fn eval_rel(
    s: Seq<TokenS>,
    i: int,
    stack: Seq<u64>,
    env: Map<Seq<char>, u64>,
    out: Result<u64, Seq<char>>,
) -> bool
    decreases s.len() - i,
{
    if i < 0 || i >= s.len() {
        if stack.len() == 0 {
            out == Err::<u64, Seq<char>>("Too many operators"@)
        } else if stack.len() > 1 {
            out == Err::<u64, Seq<char>>("Too many numbers!"@)
        } else {
            out == Ok::<u64, Seq<char>>(stack[0])
        }
    } else {
        match s[i] {
            TokenS::Number(b) => eval_rel(s, i + 1, stack.push(b), env, out),
            TokenS::Variable(nm) => if env.contains_key(nm) {
                eval_rel(s, i + 1, stack.push(env[nm]), env, out)
            } else {
                out == Err::<u64, Seq<char>>("Undefined variable: "@ + nm)
            },
            TokenS::Op(op) => match op {
                Operator::Func(f) => if stack.len() == 0 {
                    out == Err::<u64, Seq<char>>("Too few numbers"@)
                } else {
                    exists|v: u64|
                        #[trigger] fun_bits_ok(f, stack.last(), v) && eval_rel(
                            s,
                            i + 1,
                            stack.drop_last().push(v),
                            env,
                            out,
                        )
                },
                _ => if stack.len() < 2 {
                    out == Err::<u64, Seq<char>>("Too many operators"@)
                } else {
                    (exists|v: u64|
                        #[trigger] operate_rel(stack[stack.len() - 2], stack.last(), op, Ok(v))
                            && eval_rel(s, i + 1, stack.drop_last().drop_last().push(v), env, out))
                        || (exists|m: Seq<char>|
                        #[trigger] operate_rel(stack[stack.len() - 2], stack.last(), op, Err(m))
                            && out == Err::<u64, Seq<char>>(m))
                },
            },
        }
    }
}

/// Whether `out` is a possible outcome of evaluating the whole postfix
/// sequence against `env`.
pub open spec fn evals_to(s: Seq<TokenS>, env: Map<Seq<char>, u64>, out: Result<
    u64,
    Seq<char>,
>) -> bool {
    eval_rel(s, 0, Seq::empty(), env, out)
}

/// The variable environment of an association list: each entry maps the
/// name to the value, later entries taking precedence.
pub open spec fn env_map(s: Seq<(String, u64)>) -> Map<Seq<char>, u64>
    decreases s.len(),
{
    if s.len() == 0 {
        Map::empty()
    } else {
        env_map(s.drop_last()).insert(s.last().0@, s.last().1)
    }
}

/// On a duplicate-free association list, membership and value of every key
/// are read off the unique matching entry.
proof fn lemma_env_map_unique(s: Seq<(String, u64)>, k: Seq<char>)
    requires
        forall|i: int, j: int| 0 <= i < j < s.len() ==> s[i].0@ != s[j].0@,
    ensures
        env_map(s).contains_key(k) <==> (exists|i: int| 0 <= i < s.len() && s[i].0@ == k),
        forall|i: int| 0 <= i < s.len() && #[trigger] s[i].0@ == k ==> env_map(s)[k] == s[i].1,
    decreases s.len(),
{
    if s.len() > 0 {
        lemma_env_map_unique(s.drop_last(), k);
        assert(forall|i: int|
            0 <= i < s.len() - 1 ==> s.drop_last()[i] == s[i]);
        if env_map(s).contains_key(k) && s.last().0@ != k {
            assert(env_map(s.drop_last()).contains_key(k));
        }
    }
}

/// Overwriting the unique entry of a key updates the environment exactly
/// as a map insertion does.
proof fn lemma_env_map_update(s: Seq<(String, u64)>, i: int, p: (String, u64))
    requires
        forall|x: int, y: int| 0 <= x < y < s.len() ==> s[x].0@ != s[y].0@,
        0 <= i < s.len(),
        s[i].0@ == p.0@,
    ensures
        env_map(s.update(i, p)) == env_map(s).insert(p.0@, p.1),
    decreases s.len(),
{
    let su = s.update(i, p);
    if i == s.len() - 1 {
        assert(su.drop_last() =~= s.drop_last());
        assert(env_map(s.drop_last()).insert(s.last().0@, s.last().1).insert(p.0@, p.1)
            =~= env_map(s.drop_last()).insert(p.0@, p.1));
    } else {
        assert(su.drop_last() =~= s.drop_last().update(i, p));
        assert(s.drop_last()[i] == s[i]);
        assert(forall|x: int, y: int|
            0 <= x < y < s.len() - 1 ==> s.drop_last()[x].0@ != s.drop_last()[y].0@);
        lemma_env_map_update(s.drop_last(), i, p);
        assert(su.last() == s.last());
        assert(s.last().0@ != p.0@);
        assert(env_map(s.drop_last()).insert(p.0@, p.1).insert(s.last().0@, s.last().1)
            =~= env_map(s.drop_last()).insert(s.last().0@, s.last().1).insert(p.0@, p.1));
    }
}

/// The position of the first `=` in `s` at or after `i`, if any.
pub open spec fn find_eq(s: Seq<char>, i: int) -> Option<int>
    decreases s.len() - i,
{
    if i < 0 || i >= s.len() {
        None
    } else if s[i] == '=' {
        Some(i)
    } else {
        find_eq(s, i + 1)
    }
}

/// The postfix form of a line's tokens: tokenizing, then converting.
/// Both stages are deterministic.
pub open spec fn toks_to_postfix(s: Seq<char>) -> Result<Seq<TokenS>, Seq<char>> {
    match tok_spec(s) {
        Ok(toks) => sy_spec(toks),
        Err(m) => Err(m),
    }
}

/// Whether `r` is a possible outcome of tokenizing, converting and
/// evaluating an expression against `env`: the rendered value of a
/// possible evaluation, or the first error.
pub open spec fn expr_outcome(s: Seq<char>, env: Map<Seq<char>, u64>, r: Result<
    Seq<char>,
    Seq<char>,
>) -> bool {
    if toks_to_postfix(s) is Err {
        r == Err::<Seq<char>, Seq<char>>(toks_to_postfix(s)->Err_0)
    } else {
        exists|o: Result<u64, Seq<char>>|
            #[trigger] evals_to(toks_to_postfix(s)->Ok_0, env, o) && r == render_of(o)
    }
}

/// The text a line returns for the evaluation outcome `o`: the rendered
/// value, or the error message as it is.
pub open spec fn render_of(o: Result<u64, Seq<char>>) -> Result<Seq<char>, Seq<char>> {
    match o {
        Ok(b) => Ok(fmt_bits_of(b)),
        Err(m) => Err(m),
    }
}

/// The environment after an assignment of `nm` whose right-hand side had
/// the evaluation outcome `o`: the binding on success, untouched on error.
pub open spec fn env_after(env: Map<Seq<char>, u64>, nm: Seq<char>, o: Result<
    u64,
    Seq<char>,
>) -> Map<Seq<char>, u64> {
    match o {
        Ok(b) => env.insert(nm, b),
        Err(_) => env,
    }
}

/// Whether the pair — returned text `r`, environment `env2` after the
/// call — is a possible outcome of one calculator line on `s` against
/// `env`.  The text before the first `=`, if one occurs, must tokenize to
/// exactly one variable, which on success is bound to the value of the
/// rest of the line; without `=` the whole line is the expression.  On
/// success the rendered value is returned; on any failure the error
/// message is returned and the environment is left as it was.  Everything
/// is pinned exactly except values drawn by the operations of
/// platform-defined precision.
pub open spec fn calc_rel(
    s: Seq<char>,
    env: Map<Seq<char>, u64>,
    r: Result<Seq<char>, Seq<char>>,
    env2: Map<Seq<char>, u64>,
) -> bool {
    if find_eq(s, 0) is None {
        expr_outcome(s, env, r) && env2 == env
    } else {
        let i = find_eq(s, 0)->0;
        let lhs_r = tok_spec(s.subrange(0, i));
        if lhs_r is Err {
            r == Err::<Seq<char>, Seq<char>>(lhs_r->Err_0) && env2 == env
        } else {
            let lhs = lhs_r->Ok_0;
            if lhs.len() > 1 {
                r == Err::<Seq<char>, Seq<char>>("Too many tokens before '='"@) && env2 == env
            } else if lhs.len() == 0 {
                r == Err::<Seq<char>, Seq<char>>("Variable required before '='"@) && env2 == env
            } else if !(lhs[0] is Variable) {
                r == Err::<Seq<char>, Seq<char>>("Malformed input before '='"@) && env2 == env
            } else {
                let nm = lhs[0]->Variable_0;
                let pf_r = toks_to_postfix(s.subrange(i + 1, s.len() as int));
                if pf_r is Err {
                    r == Err::<Seq<char>, Seq<char>>(pf_r->Err_0) && env2 == env
                } else {
                    exists|o: Result<u64, Seq<char>>|
                        #[trigger] evals_to(pf_r->Ok_0, env, o) && r == render_of(o) && env2
                            == env_after(env, nm, o)
                }
            }
        }
    }
}

/// Keeps the variable environment of one session and performs
/// calculations against it.  Its mathematical image is the map from
/// variable names to values.
pub struct Calculator {
    variables: Vec<(String, u64)>,
}

impl View for Calculator {
    type V = Map<Seq<char>, u64>;

    closed spec fn view(&self) -> Map<Seq<char>, u64> {
        env_map(self.variables@)
    }
}

impl Calculator {
    /// Well-formedness: no two entries of the association list carry the
    /// same name.  `new` establishes it and every method preserves it.
    pub closed spec fn wf(self) -> bool {
        forall|i: int, j: int|
            0 <= i < j < self.variables@.len() ==> self.variables@[i].0@ != self.variables@[j].0@
    }

    /// A calculator with an empty environment.
    pub fn new() -> (c: Calculator)
        ensures
            c@ == Map::<Seq<char>, u64>::empty(),
            c.wf(),
    {
        Calculator { variables: Vec::new() }
    }

    /// The value bound to `name`, if any.
    fn lookup(&self, name: &String) -> (r: Option<u64>)
        requires
            self.wf(),
        ensures
            r == (if self@.contains_key(name@) {
                Some(self@[name@])
            } else {
                None::<u64>
            }),
    {
        let mut i: usize = 0;
        while i < self.variables.len()
            invariant
                self.wf(),
                i <= self.variables@.len(),
                forall|j: int| 0 <= j < i ==> self.variables@[j].0@ != name@,
            decreases self.variables@.len() - i,
        {
            proof {
                lemma_env_map_unique(self.variables@, name@);
            }
            if self.variables[i].0 == *name {
                return Some(self.variables[i].1);
            }
            i = i + 1;
        }
        proof {
            lemma_env_map_unique(self.variables@, name@);
        }
        None
    }

    /// Bind `name` to `value`, overwriting any earlier binding.
    fn store(&mut self, name: String, value: u64)
        requires
            old(self).wf(),
        ensures
            final(self)@ == old(self)@.insert(name@, value),
            final(self).wf(),
    {
        let ghost s_old = self.variables@;
        let mut i: usize = 0;
        while i < self.variables.len()
            invariant
                s_old == old(self).variables@,
                self.variables@ == s_old,
                i <= s_old.len(),
                forall|j: int| 0 <= j < i ==> s_old[j].0@ != name@,
                forall|x: int, y: int| 0 <= x < y < s_old.len() ==> s_old[x].0@ != s_old[y].0@,
            decreases s_old.len() - i,
        {
            if self.variables[i].0 == name {
                proof {
                    lemma_env_map_update(s_old, i as int, (name, value));
                }
                self.variables.set(i, (name, value));
                return ;
            }
            i = i + 1;
        }
        self.variables.push((name, value));
        proof {
            assert(self.variables@.drop_last() =~= s_old);
            lemma_env_map_unique(s_old, name@);
        }
    }

    /// Calculate a postfix expression into a single value's bit pattern,
    /// or an error when the expression is malformed.  The returned
    /// outcome satisfies `evals_to` against the current environment:
    /// errors are pinned exactly, values up to the platform-defined
    /// precision of `^` and the named functions.
    pub fn eval_postfix(&self, input: Vec<Token>) -> (r: Result<u64, String>)
        requires
            self.wf(),
        ensures
            (match r {
                Ok(v) => evals_to(toks_view(input@), self@, Ok(v)),
                Err(m) => evals_to(toks_view(input@), self@, Err(m@)),
            }),
    {
        let ghost s0 = toks_view(input@);
        let ghost env = self@;
        let mut stack: Vec<u64> = Vec::new();
        let mut idx: usize = 0;
        proof {
            assert(stack@ =~= Seq::<u64>::empty());
        }
        while idx < input.len()
            invariant
                self.wf(),
                env == self@,
                s0 == toks_view(input@),
                idx <= input@.len(),
                forall|out: Result<u64, Seq<char>>|
                    #[trigger] eval_rel(s0, idx as int, stack@, env, out) ==> evals_to(
                        s0,
                        env,
                        out,
                    ),
            decreases input@.len() - idx,
        {
            let ghost i0 = idx as int;
            let ghost st_b = stack@;
            proof {
                assert(s0[i0] == input@[i0]@);
            }
            match &input[idx] {
                Token::Number(b) => {
                    stack.push(*b);
                    proof {
                        assert forall|out: Result<u64, Seq<char>>|
                            #[trigger] eval_rel(s0, i0 + 1, stack@, env, out) implies evals_to(
                            s0,
                            env,
                            out,
                        ) by {
                            assert(eval_rel(s0, i0, st_b, env, out));
                        }
                    }
                },
                Token::Op(op_ref) => {
                    let op = *op_ref;
                    if let Operator::Func(f) = op {
                        let arg = match stack.pop() {
                            Some(a) => a,
                            None => {
                                proof {
                                    assert(eval_rel(s0, i0, st_b, env, Err::<u64, Seq<char>>(
                                        "Too few numbers"@,
                                    )));
                                }
                                return Err(String::from_str("Too few numbers"));
                            },
                        };
                        proof {
                            assert(stack@ =~= st_b.drop_last());
                            assert(arg == st_b.last());
                        }
                        let v = f.evaluate(arg);
                        stack.push(v);
                        proof {
                            assert forall|out: Result<u64, Seq<char>>|
                                #[trigger] eval_rel(s0, i0 + 1, stack@, env, out) implies evals_to(
                                s0,
                                env,
                                out,
                            ) by {
                                assert(fun_bits_ok(f, st_b.last(), v) && eval_rel(
                                    s0,
                                    i0 + 1,
                                    st_b.drop_last().push(v),
                                    env,
                                    out,
                                ));
                                assert(eval_rel(s0, i0, st_b, env, out));
                            }
                        }
                    } else {
                        let a = match stack.pop() {
                            Some(x) => x,
                            None => {
                                proof {
                                    assert(eval_rel(s0, i0, st_b, env, Err::<u64, Seq<char>>(
                                        "Too many operators"@,
                                    )));
                                }
                                return Err(String::from_str("Too many operators"));
                            },
                        };
                        let b = match stack.pop() {
                            Some(x) => x,
                            None => {
                                proof {
                                    assert(eval_rel(s0, i0, st_b, env, Err::<u64, Seq<char>>(
                                        "Too many operators"@,
                                    )));
                                }
                                return Err(String::from_str("Too many operators"));
                            },
                        };
                        proof {
                            assert(stack@ =~= st_b.drop_last().drop_last());
                            assert(a == st_b.last());
                            assert(b == st_b[st_b.len() - 2]);
                        }
                        match operate(b, a, op) {
                            Ok(result) => {
                                stack.push(result);
                                proof {
                                    assert forall|out: Result<u64, Seq<char>>|
                                        #[trigger] eval_rel(s0, i0 + 1, stack@, env, out)
                                            implies evals_to(s0, env, out) by {
                                        assert(operate_rel(
                                            st_b[st_b.len() - 2],
                                            st_b.last(),
                                            op,
                                            Ok(result),
                                        ) && eval_rel(
                                            s0,
                                            i0 + 1,
                                            st_b.drop_last().drop_last().push(result),
                                            env,
                                            out,
                                        ));
                                        assert(eval_rel(s0, i0, st_b, env, out));
                                    }
                                }
                            },
                            Err(m) => {
                                proof {
                                    assert(operate_rel(
                                        st_b[st_b.len() - 2],
                                        st_b.last(),
                                        op,
                                        Err(m@),
                                    ));
                                    assert(eval_rel(s0, i0, st_b, env, Err::<u64, Seq<char>>(m@)));
                                }
                                return Err(m);
                            },
                        }
                    }
                },
                Token::Variable(nm) => {
                    match self.lookup(nm) {
                        Some(v) => {
                            stack.push(v);
                            proof {
                                assert forall|out: Result<u64, Seq<char>>|
                                    #[trigger] eval_rel(s0, i0 + 1, stack@, env, out)
                                        implies evals_to(s0, env, out) by {
                                    assert(eval_rel(s0, i0, st_b, env, out));
                                }
                            }
                        },
                        None => {
                            let mut m = String::from_str("Undefined variable: ");
                            m.append(nm.as_str());
                            proof {
                                assert(eval_rel(s0, i0, st_b, env, Err::<u64, Seq<char>>(m@)));
                            }
                            return Err(m);
                        },
                    }
                },
            }
            idx = idx + 1;
        }
        let ghost st_end = stack@;
        let res = match stack.pop() {
            Some(v) => v,
            None => {
                proof {
                    assert(eval_rel(s0, idx as int, st_end, env, Err::<u64, Seq<char>>(
                        "Too many operators"@,
                    )));
                }
                return Err(String::from_str("Too many operators"));
            },
        };
        if stack.len() > 0 {
            proof {
                assert(eval_rel(s0, idx as int, st_end, env, Err::<u64, Seq<char>>(
                    "Too many numbers!"@,
                )));
            }
            return Err(String::from_str("Too many numbers!"));
        }
        proof {
            assert(st_end.len() == 1 && res == st_end[0]);
            assert(eval_rel(s0, idx as int, st_end, env, Ok::<u64, Seq<char>>(res)));
        }
        Ok(res)
    }

    /// Enter a line with an infix expression (for example `2 * (2 + 1)`),
    /// optionally preceded by `name =` to bind the result to a variable.
    /// Returns the evaluated result rendered as decimal text, or an error;
    /// on error the environment is left unchanged.  The returned text and
    /// the new environment together satisfy `calc_rel` against the line
    /// and the old environment.
    pub fn calculate_infix(&mut self, input: &str) -> (r: Result<String, String>)
        requires
            old(self).wf(),
        ensures
            final(self).wf(),
            (match r {
                Ok(m) => calc_rel(input@, old(self)@, Ok(m@), final(self)@),
                Err(m) => calc_rel(input@, old(self)@, Err(m@), final(self)@),
            }),
            r is Err ==> final(self)@ == old(self)@,
    {
        let ghost s = input@;
        let n = input.unicode_len();
        let mut eq_position: Option<usize> = None;
        let mut i: usize = 0;
        while i < n
            invariant_except_break
                eq_position is None,
            invariant
                input@ == s,
                n == s.len(),
                i <= n,
                find_eq(s, 0) == find_eq(s, i as int),
            ensures
                (match eq_position {
                    Some(p) => p < n && find_eq(s, 0) == Some(p as int),
                    None => find_eq(s, 0) is None,
                }),
            decreases n - i,
        {
            if input.get_char(i) == '=' {
                eq_position = Some(i);
                break ;
            }
            i = i + 1;
        }
        match eq_position {
            Some(p) => {
                let lhs_str = input.substring_char(0, p);
                proof {
                    assert(lhs_str@ =~= s.subrange(0, p as int));
                }
                let lhs = match tokenize(lhs_str) {
                    Ok(v) => v,
                    Err(m) => {
                        return Err(m);
                    },
                };
                if lhs.len() > 1 {
                    return Err(String::from_str("Too many tokens before '='"));
                }
                if lhs.len() == 0 {
                    return Err(String::from_str("Variable required before '='"));
                }
                proof {
                    assert(toks_view(lhs@)[0] == lhs@[0]@);
                }
                let name = match &lhs[0] {
                    Token::Variable(nm) => nm.clone(),
                    _ => {
                        return Err(String::from_str("Malformed input before '='"));
                    },
                };
                let expr = input.substring_char(p + 1, n);
                proof {
                    assert(expr@ =~= s.subrange(p + 1, s.len() as int));
                }
                let toks = match tokenize(expr) {
                    Ok(v) => v,
                    Err(m) => {
                        return Err(m);
                    },
                };
                let postfix = match shunting_yard(toks) {
                    Ok(v) => v,
                    Err(m) => {
                        return Err(m);
                    },
                };
                let ghost ii = find_eq(s, 0)->0;
                let ghost rest = s.subrange(ii + 1, s.len() as int);
                proof {
                    assert(ii == p as int);
                    assert(toks_to_postfix(rest) == Ok::<Seq<TokenS>, Seq<char>>(
                        toks_view(postfix@),
                    ));
                }
                let result = match self.eval_postfix(postfix) {
                    Ok(v) => v,
                    Err(m) => {
                        proof {
                            assert(evals_to(toks_to_postfix(rest)->Ok_0, old(self)@, Err::<
                                u64,
                                Seq<char>,
                            >(m@)));
                        }
                        return Err(m);
                    },
                };
                proof {
                    assert(evals_to(toks_to_postfix(rest)->Ok_0, old(self)@, Ok::<u64, Seq<char>>(
                        result,
                    )));
                }
                self.store(name, result);
                let out = fmt_bits(result);
                proof {
                    assert(out@ == fmt_bits_of(result));
                    assert(tok_spec(s.subrange(0, ii))->Ok_0[0]->Variable_0 == name@);
                }
                Ok(out)
            },
            None => {
                let toks = match tokenize(input) {
                    Ok(v) => v,
                    Err(m) => {
                        return Err(m);
                    },
                };
                let postfix = match shunting_yard(toks) {
                    Ok(v) => v,
                    Err(m) => {
                        return Err(m);
                    },
                };
                let result = match self.eval_postfix(postfix) {
                    Ok(v) => v,
                    Err(m) => {
                        proof {
                            let env0 = old(self)@;
                            assert(toks_to_postfix(s) == Ok::<Seq<TokenS>, Seq<char>>(
                                toks_view(postfix@),
                            ));
                            assert(evals_to(toks_to_postfix(s)->Ok_0, env0, Err::<
                                u64,
                                Seq<char>,
                            >(m@)));
                        }
                        return Err(m);
                    },
                };
                let out = fmt_bits(result);
                proof {
                    assert(toks_to_postfix(s) == Ok::<Seq<TokenS>, Seq<char>>(
                        toks_view(postfix@),
                    ));
                    assert(evals_to(toks_to_postfix(s)->Ok_0, old(self)@, Ok::<u64, Seq<char>>(
                        result,
                    )));
                    assert(out@ == fmt_bits_of(result));
                }
                Ok(out)
            },
        }
    }
}

proof fn lemma_find_eq_none(s: Seq<char>, i: int)
    requires
        forall|k: int| i <= k < s.len() ==> s[k] != '=',
    ensures
        find_eq(s, i) is None,
    decreases s.len() - i,
{
    if 0 <= i < s.len() {
        lemma_find_eq_none(s, i + 1);
    }
}

/// Evaluating a line that assigns nothing — one without `=` — leaves the
/// environment unchanged, whatever it returns.
pub proof fn lemma_calculate_preserves_env(
    s: Seq<char>,
    env: Map<Seq<char>, u64>,
    r: Result<Seq<char>, Seq<char>>,
    env2: Map<Seq<char>, u64>,
)
    requires
        forall|k: int| 0 <= k < s.len() ==> s[k] != '=',
        calc_rel(s, env, r, env2),
    ensures
        env2 == env,
{
    lemma_find_eq_none(s, 0);
}

/// A token whose evaluation is deterministic: everything but the
/// exponentiation operator and the named functions, whose platform-defined
/// precision admits more than one result.
pub open spec fn det_tok(t: TokenS) -> bool {
    match t {
        TokenS::Op(op) => op != Operator::Pow && !(op is Func),
        _ => true,
    }
}

/// Whether every token of the sequence evaluates deterministically.
pub open spec fn det_toks(ts: Seq<TokenS>) -> bool {
    forall|j: int| 0 <= j < ts.len() ==> det_tok(#[trigger] ts[j])
}

/// On deterministic tokens the evaluation relation admits one outcome.
proof fn lemma_eval_det(
    s: Seq<TokenS>,
    i: int,
    stack: Seq<u64>,
    env: Map<Seq<char>, u64>,
    r1: Result<u64, Seq<char>>,
    r2: Result<u64, Seq<char>>,
)
    requires
        0 <= i,
        forall|j: int| i <= j < s.len() ==> det_tok(#[trigger] s[j]),
        eval_rel(s, i, stack, env, r1),
        eval_rel(s, i, stack, env, r2),
    ensures
        r1 == r2,
    decreases s.len() - i,
{
    if i < s.len() {
        match s[i] {
            TokenS::Number(b) => {
                lemma_eval_det(s, i + 1, stack.push(b), env, r1, r2);
            },
            TokenS::Variable(nm) => {
                if env.contains_key(nm) {
                    lemma_eval_det(s, i + 1, stack.push(env[nm]), env, r1, r2);
                }
            },
            TokenS::Op(op) => {
                assert(det_tok(s[i]));
                if !(op is Func) && stack.len() >= 2 {
                    let aa = stack.last();
                    let bb = stack[stack.len() - 2];
                    let st2 = stack.drop_last().drop_last();
                    if exists|v: u64|
                        #[trigger] operate_rel(bb, aa, op, Ok(v)) && eval_rel(
                            s,
                            i + 1,
                            st2.push(v),
                            env,
                            r1,
                        ) {
                        let v1 = choose|v: u64|
                            #[trigger] operate_rel(bb, aa, op, Ok(v)) && eval_rel(
                                s,
                                i + 1,
                                st2.push(v),
                                env,
                                r1,
                            );
                        if exists|v: u64|
                            #[trigger] operate_rel(bb, aa, op, Ok(v)) && eval_rel(
                                s,
                                i + 1,
                                st2.push(v),
                                env,
                                r2,
                            ) {
                            let v2 = choose|v: u64|
                                #[trigger] operate_rel(bb, aa, op, Ok(v)) && eval_rel(
                                    s,
                                    i + 1,
                                    st2.push(v),
                                    env,
                                    r2,
                                );
                            lemma_operate_det(bb, aa, op, Ok(v1), Ok(v2));
                            lemma_eval_det(s, i + 1, st2.push(v1), env, r1, r2);
                        } else {
                            let m2 = choose|m: Seq<char>|
                                #[trigger] operate_rel(bb, aa, op, Err(m)) && r2 == Err::<
                                    u64,
                                    Seq<char>,
                                >(m);
                            lemma_operate_det(bb, aa, op, Ok(v1), Err(m2));
                        }
                    } else {
                        let m1 = choose|m: Seq<char>|
                            #[trigger] operate_rel(bb, aa, op, Err(m)) && r1 == Err::<
                                u64,
                                Seq<char>,
                            >(m);
                        if exists|v: u64|
                            #[trigger] operate_rel(bb, aa, op, Ok(v)) && eval_rel(
                                s,
                                i + 1,
                                st2.push(v),
                                env,
                                r2,
                            ) {
                            let v2 = choose|v: u64|
                                #[trigger] operate_rel(bb, aa, op, Ok(v)) && eval_rel(
                                    s,
                                    i + 1,
                                    st2.push(v),
                                    env,
                                    r2,
                                );
                            lemma_operate_det(bb, aa, op, Err(m1), Ok(v2));
                        } else {
                            let m2 = choose|m: Seq<char>|
                                #[trigger] operate_rel(bb, aa, op, Err(m)) && r2 == Err::<
                                    u64,
                                    Seq<char>,
                                >(m);
                            lemma_operate_det(bb, aa, op, Err(m1), Err(m2));
                        }
                    }
                }
            },
        }
    }
}

/// Re-evaluating the same non-assigning line yields the identical outcome
/// and leaves the environment unchanged, provided the line uses neither
/// `^` nor a named function: the precision of those operations is
/// platform-defined, so their results are not pinned to coincide across
/// calls.
pub proof fn lemma_calculate_idempotent(
    s: Seq<char>,
    env: Map<Seq<char>, u64>,
    r1: Result<Seq<char>, Seq<char>>,
    env1: Map<Seq<char>, u64>,
    r2: Result<Seq<char>, Seq<char>>,
    env2: Map<Seq<char>, u64>,
)
    requires
        forall|k: int| 0 <= k < s.len() ==> s[k] != '=',
        tok_spec(s) is Ok ==> det_toks(tok_spec(s)->Ok_0),
        calc_rel(s, env, r1, env1),
        calc_rel(s, env1, r2, env2),
    ensures
        env1 == env,
        env2 == env,
        r1 == r2,
{
    broadcast use vstd::seq_lib::group_to_multiset_ensures;

    lemma_find_eq_none(s, 0);
    match toks_to_postfix(s) {
        Err(_) => {
        },
        Ok(pf) => {
            let toks = tok_spec(s)->Ok_0;
            lemma_postfix_preserves_tokens(toks);
            assert forall|j: int| 0 <= j < pf.len() implies det_tok(#[trigger] pf[j]) by {
                assert(pf.contains(pf[j]));
                lemma_npms_member(toks, 0, pf[j]);
            }
            let o1 = choose|o: Result<u64, Seq<char>>|
                #[trigger] evals_to(pf, env, o) && r1 == render_of(o);
            let o2 = choose|o: Result<u64, Seq<char>>|
                #[trigger] evals_to(pf, env, o) && r2 == render_of(o);
            lemma_eval_det(pf, 0, Seq::empty(), env, o1, o2);
        },
    }
}

} // verus!

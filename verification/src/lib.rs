//! An evaluator for arithmetic expressions in conventional infix notation:
//! numbers, `+ - * / ^`, unary minus, parentheses, named variables and
//! user-defined functions.  Source text runs through a lexer, an
//! operator-precedence reordering pass and a stack evaluator, against a
//! mutable evaluation context that carries variable and function bindings
//! across calls.  Values are IEEE-754 binary64 numbers, carried as their
//! bit patterns; see `num` for the arithmetic model.

pub mod context;
pub mod errors;
pub mod function;
pub mod lexer;
pub mod num;
pub mod reorder;
pub mod token;
pub mod tree;

use vstd::prelude::*;

use crate::context::Context;
use crate::context::lookup_var;
use crate::errors::CoreError;
use crate::errors::CoreErrorV;
use crate::errors::EvalErrorV;
use crate::errors::ReorderError;
use crate::function::FunctionV;
use crate::lexer::spec_tokenize;
use crate::lexer::tokenize;
use crate::num::Number;
use crate::num::dbl_div;
use crate::num::spec_is_zero;
use crate::reorder::shunting_yard;
use crate::reorder::spec_shunting_yard;
use crate::token::Operator;
use crate::token::TokenV;
use crate::tree::evaluate;
use crate::tree::spec_eval_post;
use crate::tree::spec_evaluate;

verus! {

/// What one evaluation produced: a numeric value, or nothing — a `function`
/// declaration (and an empty input) produces no directly evaluable
/// expression.
#[derive(Clone, Copy, PartialEq, Eq, Structural, Debug)]
pub enum EvalOutcome {
    Value(Number),
    NoValue,
}

/// The whole pipeline on a source string under a context: scan, reorder,
/// evaluate.  The result is the outcome (`None` for a declaration that
/// leaves no expression), the variable table and the function table after
/// the call; a declaration that commits before a later stage fails leaves
/// its binding in place, exactly as stated here.
pub open spec fn spec_evaluate_source(
    src: Seq<char>,
    vars: Seq<(Seq<char>, u64)>,
    fns: Seq<(Seq<char>, FunctionV)>,
) -> (Result<Option<u64>, CoreErrorV>, Seq<(Seq<char>, u64)>, Seq<(Seq<char>, FunctionV)>) {
    match spec_tokenize(src, vars, fns) {
        Err(e) => (Err(e), vars, fns),
        Ok((tokens, vars2, fns2)) => {
            if tokens.len() == 0 {
                (Ok(None), vars2, fns2)
            } else {
                match spec_shunting_yard(tokens) {
                    Err(e) => (Err(CoreErrorV::Reorder(e)), vars2, fns2),
                    Ok(post) => match spec_eval_post(post, 0, Seq::empty(), vars2, fns2, 1) {
                        Err(e) => (Err(e), vars2, fns2),
                        Ok(v) => (Ok(Some(v)), vars2, fns2),
                    },
                }
            }
        },
    }
}

/// Evaluates one source string against the context, exactly as
/// `spec_evaluate_source` states: the lexer may commit a declaration to the
/// context, an empty token stream yields no value, and anything else is
/// reordered and evaluated.  The first failure of any stage aborts the call
/// and is returned unchanged.
pub fn evaluate_source(source: &str, ctx: &mut Context) -> (r: Result<EvalOutcome, CoreError>)
    ensures
        final(ctx).ans == old(ctx).ans,
        spec_evaluate_source(source@, old(ctx).variables@, old(ctx).functions@).1 == final(ctx).variables@,
        spec_evaluate_source(source@, old(ctx).variables@, old(ctx).functions@).2 == final(ctx).functions@,
        match r {
            Ok(out) => spec_evaluate_source(source@, old(ctx).variables@, old(ctx).functions@).0
                == Ok::<Option<u64>, CoreErrorV>(
                match out {
                    EvalOutcome::Value(n) => Some(n.bits),
                    EvalOutcome::NoValue => None,
                },
            ),
            Err(e) => spec_evaluate_source(source@, old(ctx).variables@, old(ctx).functions@).0
                == Err::<Option<u64>, CoreErrorV>(e@),
        },
{
    let tokens = match tokenize(source, ctx) {
        Ok(t) => t,
        Err(e) => {
            return Err(e);
        },
    };
    if tokens.len() == 0 {
        return Ok(EvalOutcome::NoValue);
    }
    match shunting_yard(tokens) {
        Err(e) => Err(CoreError::Reorder(e)),
        Ok(post) => match evaluate(&post, ctx) {
            Err(e) => Err(e),
            Ok(v) => Ok(EvalOutcome::Value(v)),
        },
    }
}

/// Evaluates one expression string in a fresh context: the one-shot
/// convenience entry.  An input that produces no value (a `function`
/// declaration, or empty input) is a malformed expression here.
pub fn eval_string(string: &String) -> (r: Result<Number, CoreError>)
    ensures
        match r {
            Ok(n) => spec_evaluate_source(
                string@,
                Seq::empty(),
                crate::context::builtin_table(),
            ).0 == Ok::<Option<u64>, CoreErrorV>(Some(n.bits)),
            Err(e) => (spec_evaluate_source(
                string@,
                Seq::empty(),
                crate::context::builtin_table(),
            ).0 matches Err(ev) && ev == e@) || (spec_evaluate_source(
                string@,
                Seq::empty(),
                crate::context::builtin_table(),
            ).0 == Ok::<Option<u64>, CoreErrorV>(None) && e@ == CoreErrorV::Build(
                crate::errors::BuildError::MalformedExpression,
            )),
        },
{
    let mut ctx = Context::new();
    match evaluate_source(string.as_str(), &mut ctx) {
        Ok(EvalOutcome::Value(n)) => Ok(n),
        Ok(EvalOutcome::NoValue) => Err(
            CoreError::Build(crate::errors::BuildError::MalformedExpression),
        ),
        Err(e) => Err(e),
    }
}

// ---------------------------------------------------------------------------
// Laws.
// ---------------------------------------------------------------------------

/// The division-by-zero law: the postfix stream that divides `a` by `b`
/// fails with `DivisionByZero` exactly when `b` encodes a zero, and
/// otherwise succeeds with the rounded quotient — an infinity from a
/// literal zero divisor is never returned as a success.
pub proof fn lemma_division_by_zero(
    a: u64,
    b: u64,
    vars: Seq<(Seq<char>, u64)>,
    fns: Seq<(Seq<char>, FunctionV)>,
)
    ensures
        spec_evaluate(
            seq![TokenV::Value(a), TokenV::Value(b), TokenV::Operator(Operator::Div)],
            vars,
            fns,
        ) == if spec_is_zero(b) {
            Err::<u64, CoreErrorV>(CoreErrorV::Eval(EvalErrorV::DivisionByZero))
        } else {
            Ok::<u64, CoreErrorV>(dbl_div(a, b))
        },
{
    let ts = seq![TokenV::Value(a), TokenV::Value(b), TokenV::Operator(Operator::Div)];
    let s0 = Seq::<u64>::empty();
    let s1 = s0.push(a);
    let s2 = s1.push(b);
    assert(s2.last() == b);
    assert(s2[s2.len() - 2] == a);
    assert(spec_eval_post(ts, 0, s0, vars, fns, 1) == spec_eval_post(ts, 1, s1, vars, fns, 1));
    assert(spec_eval_post(ts, 1, s1, vars, fns, 1) == spec_eval_post(ts, 2, s2, vars, fns, 1));
    if !spec_is_zero(b) {
        let s3 = s2.drop_last().drop_last().push(dbl_div(a, b));
        assert(s3 =~= s0.push(dbl_div(a, b)));
        assert(spec_eval_post(ts, 3, s3, vars, fns, 1) == Ok::<u64, CoreErrorV>(dbl_div(a, b)));
    }
}

/// The right-associativity law: for all values `a`, `b`, `c`, the infix
/// stream `a ^ b ^ c` reorders and evaluates as `a ^ (b ^ c)`, never as
/// `(a ^ b) ^ c`.
pub proof fn lemma_power_right_associative(
    a: u64,
    b: u64,
    c: u64,
    vars: Seq<(Seq<char>, u64)>,
    fns: Seq<(Seq<char>, FunctionV)>,
)
    ensures
        spec_shunting_yard(
            seq![
                TokenV::Value(a),
                TokenV::Operator(Operator::Pow),
                TokenV::Value(b),
                TokenV::Operator(Operator::Pow),
                TokenV::Value(c),
            ],
        ) matches Ok(post) && spec_evaluate(post, vars, fns) == Ok::<u64, CoreErrorV>(
            crate::num::dbl_pow(a, crate::num::dbl_pow(b, c)),
        ),
{
    let ts = seq![
        TokenV::Value(a),
        TokenV::Operator(Operator::Pow),
        TokenV::Value(b),
        TokenV::Operator(Operator::Pow),
        TokenV::Value(c),
    ];
    let pw = TokenV::Operator(Operator::Pow);
    let e = Seq::<TokenV>::empty();
    let o1 = e.push(ts[0]);
    let o2 = o1.push(ts[2]);
    let o3 = o2.push(ts[4]);
    let st1 = e.push(pw);
    let st2 = st1.push(pw);
    // Reordering: the second `^` does not pop the first (equal precedence,
    // right-associative), so the output nests to the right.
    assert(reorder::sy_pop(pw, o1, e) == (o1, e));
    assert(st1.last() == pw && st1.drop_last() =~= e);
    assert(reorder::sy_pop(pw, o2, st1) == (o2, st1));
    assert(st2.last() == pw && st2.drop_last() =~= st1);
    assert(reorder::sy_finish(o3.push(pw).push(pw), e) == Ok::<Seq<TokenV>, ReorderError>(
        o3.push(pw).push(pw),
    ));
    assert(reorder::sy_finish(o3.push(pw), st1) == Ok::<Seq<TokenV>, ReorderError>(
        o3.push(pw).push(pw),
    ));
    assert(reorder::sy_finish(o3, st2) == Ok::<Seq<TokenV>, ReorderError>(o3.push(pw).push(pw)));
    assert(reorder::sy_from(ts, 5, o3, st2) == reorder::sy_finish(o3, st2));
    assert(reorder::sy_from(ts, 4, o2, st2) == reorder::sy_from(ts, 5, o3, st2));
    assert(reorder::sy_from(ts, 3, o2, st1) == reorder::sy_from(ts, 4, o2, st2));
    assert(reorder::sy_from(ts, 2, o1, st1) == reorder::sy_from(ts, 3, o2, st1));
    assert(reorder::sy_from(ts, 1, o1, e) == reorder::sy_from(ts, 2, o1, st1));
    assert(reorder::sy_from(ts, 0, e, e) == reorder::sy_from(ts, 1, o1, e));
    let post = o3.push(pw).push(pw);
    assert(spec_shunting_yard(ts) == Ok::<Seq<TokenV>, ReorderError>(post));
    // Evaluation: `b ^ c` first, then `a ^` the result.
    let bc = crate::num::dbl_pow(b, c);
    let abc = crate::num::dbl_pow(a, bc);
    let s1 = Seq::<u64>::empty().push(a);
    let s2 = s1.push(b);
    let s3 = s2.push(c);
    assert(s3.last() == c && s3[s3.len() - 2] == b);
    let s4 = s3.drop_last().drop_last().push(bc);
    assert(s4 =~= s1.push(bc));
    assert(s4.last() == bc && s4[s4.len() - 2] == a);
    let s5 = s4.drop_last().drop_last().push(abc);
    assert(s5 =~= Seq::<u64>::empty().push(abc));
    assert(spec_eval_post(post, 5, s5, vars, fns, 1) == Ok::<u64, CoreErrorV>(abc));
    assert(spec_eval_post(post, 4, s4, vars, fns, 1) == spec_eval_post(post, 5, s5, vars, fns, 1));
    assert(spec_eval_post(post, 3, s3, vars, fns, 1) == spec_eval_post(post, 4, s4, vars, fns, 1));
    assert(spec_eval_post(post, 2, s2, vars, fns, 1) == spec_eval_post(post, 3, s3, vars, fns, 1));
    assert(spec_eval_post(post, 1, s1, vars, fns, 1) == spec_eval_post(post, 2, s2, vars, fns, 1));
    assert(spec_eval_post(post, 0, Seq::empty(), vars, fns, 1) == spec_eval_post(
        post,
        1,
        s1,
        vars,
        fns,
        1,
    ));
}

/// The precedence law: for all values `a`, `b`, `c`, the infix stream
/// `a + b * c` reorders and evaluates as `a + (b * c)` — the product binds
/// tighter than the sum.
pub proof fn lemma_precedence_mul_over_add(
    a: u64,
    b: u64,
    c: u64,
    vars: Seq<(Seq<char>, u64)>,
    fns: Seq<(Seq<char>, FunctionV)>,
)
    ensures
        spec_shunting_yard(
            seq![
                TokenV::Value(a),
                TokenV::Operator(Operator::Add),
                TokenV::Value(b),
                TokenV::Operator(Operator::Mul),
                TokenV::Value(c),
            ],
        ) matches Ok(post) && spec_evaluate(post, vars, fns) == Ok::<u64, CoreErrorV>(
            crate::num::dbl_add(a, crate::num::dbl_mul(b, c)),
        ),
{
    let ts = seq![
        TokenV::Value(a),
        TokenV::Operator(Operator::Add),
        TokenV::Value(b),
        TokenV::Operator(Operator::Mul),
        TokenV::Value(c),
    ];
    let pl = TokenV::Operator(Operator::Add);
    let ml = TokenV::Operator(Operator::Mul);
    let e = Seq::<TokenV>::empty();
    let o1 = e.push(ts[0]);
    let o2 = o1.push(ts[2]);
    let o3 = o2.push(ts[4]);
    let st1 = e.push(pl);
    let st2 = st1.push(ml);
    // Reordering: `*` outranks the `+` below it and is not popped.
    assert(reorder::sy_pop(pl, o1, e) == (o1, e));
    assert(st1.last() == pl && st1.drop_last() =~= e);
    assert(reorder::sy_pop(ml, o2, st1) == (o2, st1));
    assert(st2.last() == ml && st2.drop_last() =~= st1);
    assert(reorder::sy_finish(o3.push(ml).push(pl), e) == Ok::<Seq<TokenV>, ReorderError>(
        o3.push(ml).push(pl),
    ));
    assert(reorder::sy_finish(o3.push(ml), st1) == Ok::<Seq<TokenV>, ReorderError>(
        o3.push(ml).push(pl),
    ));
    assert(reorder::sy_finish(o3, st2) == Ok::<Seq<TokenV>, ReorderError>(o3.push(ml).push(pl)));
    assert(reorder::sy_from(ts, 5, o3, st2) == reorder::sy_finish(o3, st2));
    assert(reorder::sy_from(ts, 4, o2, st2) == reorder::sy_from(ts, 5, o3, st2));
    assert(reorder::sy_from(ts, 3, o2, st1) == reorder::sy_from(ts, 4, o2, st2));
    assert(reorder::sy_from(ts, 2, o1, st1) == reorder::sy_from(ts, 3, o2, st1));
    assert(reorder::sy_from(ts, 1, o1, e) == reorder::sy_from(ts, 2, o1, st1));
    assert(reorder::sy_from(ts, 0, e, e) == reorder::sy_from(ts, 1, o1, e));
    let post = o3.push(ml).push(pl);
    assert(spec_shunting_yard(ts) == Ok::<Seq<TokenV>, ReorderError>(post));
    // Evaluation: `b * c` first, then `a +` the result.
    let bc = crate::num::dbl_mul(b, c);
    let abc = crate::num::dbl_add(a, bc);
    let s1 = Seq::<u64>::empty().push(a);
    let s2 = s1.push(b);
    let s3 = s2.push(c);
    assert(s3.last() == c && s3[s3.len() - 2] == b);
    let s4 = s3.drop_last().drop_last().push(bc);
    assert(s4 =~= s1.push(bc));
    assert(s4.last() == bc && s4[s4.len() - 2] == a);
    let s5 = s4.drop_last().drop_last().push(abc);
    assert(s5 =~= Seq::<u64>::empty().push(abc));
    assert(spec_eval_post(post, 5, s5, vars, fns, 1) == Ok::<u64, CoreErrorV>(abc));
    assert(spec_eval_post(post, 4, s4, vars, fns, 1) == spec_eval_post(post, 5, s5, vars, fns, 1));
    assert(spec_eval_post(post, 3, s3, vars, fns, 1) == spec_eval_post(post, 4, s4, vars, fns, 1));
    assert(spec_eval_post(post, 2, s2, vars, fns, 1) == spec_eval_post(post, 3, s3, vars, fns, 1));
    assert(spec_eval_post(post, 1, s1, vars, fns, 1) == spec_eval_post(post, 2, s2, vars, fns, 1));
    assert(spec_eval_post(post, 0, Seq::empty(), vars, fns, 1) == spec_eval_post(
        post,
        1,
        s1,
        vars,
        fns,
        1,
    ));
}

/// The unary-minus-chain law: for all values `a`, `b`, the infix stream
/// `- a + - b` (each minus in operand position) evaluates to
/// `(-a) + (-b)`.
pub proof fn lemma_unary_minus_chain(
    a: u64,
    b: u64,
    vars: Seq<(Seq<char>, u64)>,
    fns: Seq<(Seq<char>, FunctionV)>,
)
    ensures
        spec_shunting_yard(
            seq![
                TokenV::Operator(Operator::USub),
                TokenV::Value(a),
                TokenV::Operator(Operator::Add),
                TokenV::Operator(Operator::USub),
                TokenV::Value(b),
            ],
        ) matches Ok(post) && spec_evaluate(post, vars, fns) == Ok::<u64, CoreErrorV>(
            crate::num::dbl_add(crate::num::spec_neg(a), crate::num::spec_neg(b)),
        ),
{
    let ts = seq![
        TokenV::Operator(Operator::USub),
        TokenV::Value(a),
        TokenV::Operator(Operator::Add),
        TokenV::Operator(Operator::USub),
        TokenV::Value(b),
    ];
    let us = TokenV::Operator(Operator::USub);
    let pl = TokenV::Operator(Operator::Add);
    let e = Seq::<TokenV>::empty();
    let stu = e.push(us);
    let o1 = e.push(ts[1]);
    let o2 = o1.push(us);
    let o3 = o2.push(ts[4]);
    let stp = e.push(pl);
    let stpu = stp.push(us);
    // Reordering: the leading unary minus pops before `+`; the second one
    // stays on the stack past the operand and drains at the end.
    assert(reorder::sy_pop(us, e, e) == (e, e));
    assert(stu.last() == us && stu.drop_last() =~= e);
    assert(reorder::sy_pop(pl, o1, stu) == (o2, e)) by {
        assert(reorder::sy_pop(pl, o2, e) == (o2, e));
    }
    assert(stp.last() == pl && stp.drop_last() =~= e);
    assert(reorder::sy_pop(us, o2, stp) == (o2, stp));
    assert(stpu.last() == us && stpu.drop_last() =~= stp);
    assert(reorder::sy_finish(o3.push(us).push(pl), e) == Ok::<Seq<TokenV>, ReorderError>(
        o3.push(us).push(pl),
    ));
    assert(reorder::sy_finish(o3.push(us), stp) == Ok::<Seq<TokenV>, ReorderError>(
        o3.push(us).push(pl),
    ));
    assert(reorder::sy_finish(o3, stpu) == Ok::<Seq<TokenV>, ReorderError>(o3.push(us).push(pl)));
    assert(reorder::sy_from(ts, 5, o3, stpu) == reorder::sy_finish(o3, stpu));
    assert(reorder::sy_from(ts, 4, o2, stpu) == reorder::sy_from(ts, 5, o3, stpu));
    assert(reorder::sy_from(ts, 3, o2, stp) == reorder::sy_from(ts, 4, o2, stpu));
    assert(reorder::sy_from(ts, 2, o1, stu) == reorder::sy_from(ts, 3, o2, stp));
    assert(reorder::sy_from(ts, 1, e, stu) == reorder::sy_from(ts, 2, o1, stu));
    assert(reorder::sy_from(ts, 0, e, e) == reorder::sy_from(ts, 1, e, stu));
    let post = o3.push(us).push(pl);
    assert(spec_shunting_yard(ts) == Ok::<Seq<TokenV>, ReorderError>(post));
    // Evaluation: negate `a`, negate `b`, then add.
    let na = crate::num::spec_neg(a);
    let nb = crate::num::spec_neg(b);
    let s1 = Seq::<u64>::empty().push(a);
    let s2 = s1.drop_last().push(na);
    assert(s2 =~= Seq::<u64>::empty().push(na));
    let s3 = s2.push(b);
    let s4 = s3.drop_last().push(nb);
    assert(s4 =~= s2.push(nb));
    assert(s4.last() == nb && s4[s4.len() - 2] == na);
    let s5 = s4.drop_last().drop_last().push(crate::num::dbl_add(na, nb));
    assert(s5 =~= Seq::<u64>::empty().push(crate::num::dbl_add(na, nb)));
    assert(spec_eval_post(post, 5, s5, vars, fns, 1) == Ok::<u64, CoreErrorV>(
        crate::num::dbl_add(na, nb),
    ));
    assert(spec_eval_post(post, 4, s4, vars, fns, 1) == spec_eval_post(post, 5, s5, vars, fns, 1));
    assert(spec_eval_post(post, 3, s3, vars, fns, 1) == spec_eval_post(post, 4, s4, vars, fns, 1));
    assert(spec_eval_post(post, 2, s2, vars, fns, 1) == spec_eval_post(post, 3, s3, vars, fns, 1));
    assert(spec_eval_post(post, 1, s1, vars, fns, 1) == spec_eval_post(post, 2, s2, vars, fns, 1));
    assert(spec_eval_post(post, 0, Seq::empty(), vars, fns, 1) == spec_eval_post(
        post,
        1,
        s1,
        vars,
        fns,
        1,
    ));
}

/// The well-formed-input guarantee: an infix stream of numbers, the five
/// binary operators, the unary minus and balanced parentheses, in
/// grammatical order, always reorders successfully; the resulting postfix
/// stream builds an expression tree; and one stack pass consumes it exactly
/// — it evaluates to a value, or stops at a division by zero, and never
/// leaves the stack short or overfull.  The stack pass and the walk of the
/// built tree agree on the result.
pub proof fn lemma_well_formed_pipeline(
    ts: Seq<TokenV>,
    vars: Seq<(Seq<char>, u64)>,
    fns: Seq<(Seq<char>, FunctionV)>,
)
    requires
        crate::reorder::wf_infix(ts),
    ensures
        spec_shunting_yard(ts) matches Ok(post) && crate::tree::spec_build(post) matches Ok(root)
            && spec_evaluate(post, vars, fns) == crate::tree::spec_eval_node(root, vars) && (
        spec_evaluate(post, vars, fns) matches Ok(_) || spec_evaluate(post, vars, fns) == Err::<
            u64,
            CoreErrorV,
        >(CoreErrorV::Eval(EvalErrorV::DivisionByZero))),
{
    crate::reorder::lemma_well_formed_reorders(ts);
    let post = spec_shunting_yard(ts)->Ok_0;
    crate::tree::lemma_consumable_builds_and_evaluates(post, vars);
    crate::tree::lemma_tree_agrees_with_stack(post, vars, fns, 1);
}

/// The variable-persistence law: after a binding of `name` to `v` is
/// committed, looking `name` up yields `v`, and every other name keeps the
/// value it had.  Together with the contract of `evaluate_source` — a
/// `var` declaration commits exactly such a binding — a stored variable
/// persists into later evaluations in the same context.
pub proof fn lemma_variable_persistence(
    vars: Seq<(Seq<char>, u64)>,
    name: Seq<char>,
    v: u64,
    other: Seq<char>,
)
    ensures
        lookup_var(vars.insert(0, (name, v)), name) == Some(v),
        other != name ==> lookup_var(vars.insert(0, (name, v)), other) == lookup_var(vars, other),
{
    let vars2 = vars.insert(0, (name, v));
    assert(vars2[0] == (name, v));
    assert(vars2.subrange(1, vars2.len() as int) =~= vars);
}

} // verus!

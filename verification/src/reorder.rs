//! The operator-precedence reordering pass (shunting-yard).
//!
//! `shunting_yard` turns an infix token stream into postfix order with two
//! explicit sequences, an output queue and an operator stack, honouring
//! precedence and associativity.  The spec functions below state the whole
//! algorithm mathematically; the executable function is proved equal to
//! them, and the parenthesis-balance law is proved from the spec alone.

use vstd::prelude::*;

use crate::errors::ReorderError;
use crate::token::Operator;
use crate::token::Paren;
use crate::token::Token;
use crate::token::TokenV;
use crate::token::precedence;
use crate::token::right_assoc;
use crate::token::spec_precedence;
use crate::token::spec_right_assoc;
use crate::token::tokens_view;

verus! {

/// Whether an arriving token `t` forces the stack top `top` to be popped to
/// the output: the top is no parenthesis and binds tighter, or binds
/// equally tight while `t` groups to the left.
pub open spec fn spec_should_pop(t: TokenV, top: TokenV) -> bool {
    &&& !(top matches TokenV::Paren(_))
    &&& {
        ||| spec_precedence(top) > spec_precedence(t)
        ||| (spec_precedence(top) == spec_precedence(t) && !spec_right_assoc(t))
    }
}

/// Pops the stack to the output as long as `spec_should_pop` demands it for
/// the arriving token `t`.
pub open spec fn sy_pop(t: TokenV, out: Seq<TokenV>, stack: Seq<TokenV>) -> (Seq<TokenV>, Seq<
    TokenV,
>)
    decreases stack.len(),
{
    if stack.len() > 0 && spec_should_pop(t, stack.last()) {
        sy_pop(t, out.push(stack.last()), stack.drop_last())
    } else {
        (out, stack)
    }
}

/// Pops the stack to the output until a left parenthesis is popped and
/// discarded; an empty stack means the closing parenthesis is unmatched.
pub open spec fn sy_close(out: Seq<TokenV>, stack: Seq<TokenV>) -> Result<
    (Seq<TokenV>, Seq<TokenV>),
    ReorderError,
>
    decreases stack.len(),
{
    if stack.len() == 0 {
        Err(ReorderError::MismatchedParens)
    } else if stack.last() == TokenV::Paren(Paren::Left) {
        Ok((out, stack.drop_last()))
    } else {
        sy_close(out.push(stack.last()), stack.drop_last())
    }
}

/// Drains the stack to the output at the end of the input; a parenthesis
/// still on the stack is unmatched.
pub open spec fn sy_finish(out: Seq<TokenV>, stack: Seq<TokenV>) -> Result<
    Seq<TokenV>,
    ReorderError,
>
    decreases stack.len(),
{
    if stack.len() == 0 {
        Ok(out)
    } else if stack.last() matches TokenV::Paren(_) {
        Err(ReorderError::MismatchedParens)
    } else {
        sy_finish(out.push(stack.last()), stack.drop_last())
    }
}

/// The reordering, from position `i` of the input onwards, with the output
/// and stack accumulated so far.  Values and identifiers go straight to the
/// output; operators and function references first pop what binds at least
/// as tight; parentheses bracket the stack.  Keywords and data tags take no
/// part in reordering and are dropped.
pub open spec fn sy_from(ts: Seq<TokenV>, i: int, out: Seq<TokenV>, stack: Seq<TokenV>) -> Result<
    Seq<TokenV>,
    ReorderError,
>
    decreases ts.len() - i,
{
    if i < 0 || i >= ts.len() {
        sy_finish(out, stack)
    } else {
        match ts[i] {
            TokenV::Value(_) => sy_from(ts, i + 1, out.push(ts[i]), stack),
            TokenV::Identifier(_) => sy_from(ts, i + 1, out.push(ts[i]), stack),
            TokenV::Operator(_) => {
                let (out2, stack2) = sy_pop(ts[i], out, stack);
                sy_from(ts, i + 1, out2, stack2.push(ts[i]))
            },
            TokenV::Function(_) => {
                let (out2, stack2) = sy_pop(ts[i], out, stack);
                sy_from(ts, i + 1, out2, stack2.push(ts[i]))
            },
            TokenV::Paren(p) => {
                if p == Paren::Left {
                    sy_from(ts, i + 1, out, stack.push(ts[i]))
                } else {
                    match sy_close(out, stack) {
                        Ok((out2, stack2)) => sy_from(ts, i + 1, out2, stack2),
                        Err(e) => Err(e),
                    }
                }
            },
            TokenV::Keyword(_) => sy_from(ts, i + 1, out, stack),
            TokenV::Data(_) => sy_from(ts, i + 1, out, stack),
        }
    }
}

/// The postfix reordering of a whole token stream.
pub open spec fn spec_shunting_yard(ts: Seq<TokenV>) -> Result<Seq<TokenV>, ReorderError> {
    sy_from(ts, 0, Seq::empty(), Seq::empty())
}

// ---------------------------------------------------------------------------
// The parenthesis-balance law: the reordering fails, and fails with
// `MismatchedParens`, exactly on the streams whose parentheses do not
// balance.
// ---------------------------------------------------------------------------

/// Whether the stream from position `i` onwards closes every parenthesis it
/// opens and none it did not, starting `p` levels deep.
pub open spec fn paren_ok_from(ts: Seq<TokenV>, i: int, p: int) -> bool
    decreases ts.len() - i,
{
    if i < 0 || i >= ts.len() {
        p == 0
    } else if ts[i] == TokenV::Paren(Paren::Left) {
        paren_ok_from(ts, i + 1, p + 1)
    } else if ts[i] == TokenV::Paren(Paren::Right) {
        p > 0 && paren_ok_from(ts, i + 1, p - 1)
    } else {
        paren_ok_from(ts, i + 1, p)
    }
}

/// Whether every parenthesis of the stream is matched.
pub open spec fn paren_balanced(ts: Seq<TokenV>) -> bool {
    paren_ok_from(ts, 0, 0)
}

/// The number of parenthesis tokens on a reordering stack.
pub open spec fn stack_parens(stack: Seq<TokenV>) -> int
    decreases stack.len(),
{
    if stack.len() == 0 {
        0
    } else {
        stack_parens(stack.drop_last()) + if stack.last() matches TokenV::Paren(_) {
            1int
        } else {
            0int
        }
    }
}

/// Whether every parenthesis on a reordering stack is a left one; right
/// parentheses are never pushed.
pub open spec fn stack_lefts_only(stack: Seq<TokenV>) -> bool {
    forall|j: int|
        (0 <= j < stack.len() && #[trigger] stack[j] matches TokenV::Paren(p)) ==> stack[j]
            == TokenV::Paren(Paren::Left)
}

/// Popping for an arriving operator moves no parenthesis: the count and the
/// left-only property of the stack carry over.
proof fn lemma_sy_pop_parens(t: TokenV, out: Seq<TokenV>, stack: Seq<TokenV>)
    requires
        stack_lefts_only(stack),
    ensures
        stack_parens(sy_pop(t, out, stack).1) == stack_parens(stack),
        stack_lefts_only(sy_pop(t, out, stack).1),
    decreases stack.len(),
{
    if stack.len() > 0 && spec_should_pop(t, stack.last()) {
        assert(stack_lefts_only(stack.drop_last())) by {
            assert(forall|j: int|
                0 <= j < stack.drop_last().len() ==> stack.drop_last()[j] == stack[j]);
        }
        lemma_sy_pop_parens(t, out.push(stack.last()), stack.drop_last());
    }
}

/// Closing a parenthesis succeeds exactly when the stack holds one, and
/// removes exactly that one.
proof fn lemma_sy_close_parens(out: Seq<TokenV>, stack: Seq<TokenV>)
    requires
        stack_lefts_only(stack),
    ensures
        sy_close(out, stack) is Ok <==> stack_parens(stack) > 0,
        sy_close(out, stack) is Err ==> sy_close(out, stack) == Err::<(Seq<TokenV>, Seq<TokenV>), _>(
            ReorderError::MismatchedParens,
        ),
        sy_close(out, stack) matches Ok((o2, s2)) ==> stack_parens(s2) == stack_parens(stack) - 1
            && stack_lefts_only(s2),
    decreases stack.len(),
{
    if stack.len() == 0 {
    } else if stack.last() == TokenV::Paren(Paren::Left) {
        assert(stack_lefts_only(stack.drop_last())) by {
            assert(forall|j: int|
                0 <= j < stack.drop_last().len() ==> stack.drop_last()[j] == stack[j]);
        }
        assert(stack_parens(stack) > 0) by {
            lemma_stack_parens_nonneg(stack.drop_last());
        }
    } else {
        assert(!(stack.last() matches TokenV::Paren(_))) by {
            assert(stack[stack.len() - 1] == stack.last());
        }
        assert(stack_lefts_only(stack.drop_last())) by {
            assert(forall|j: int|
                0 <= j < stack.drop_last().len() ==> stack.drop_last()[j] == stack[j]);
        }
        lemma_sy_close_parens(out.push(stack.last()), stack.drop_last());
    }
}

/// Draining the stack at the end succeeds exactly when no parenthesis is
/// left on it.
proof fn lemma_sy_finish_parens(out: Seq<TokenV>, stack: Seq<TokenV>)
    ensures
        sy_finish(out, stack) is Ok <==> stack_parens(stack) == 0,
        sy_finish(out, stack) is Err ==> sy_finish(out, stack) == Err::<Seq<TokenV>, _>(
            ReorderError::MismatchedParens,
        ),
    decreases stack.len(),
{
    if stack.len() == 0 {
    } else if stack.last() matches TokenV::Paren(_) {
        assert(stack_parens(stack) >= stack_parens(stack.drop_last())) by {
            lemma_stack_parens_nonneg(stack.drop_last());
        }
        assert(stack_parens(stack) > 0) by {
            lemma_stack_parens_nonneg(stack.drop_last());
        }
    } else {
        lemma_sy_finish_parens(out.push(stack.last()), stack.drop_last());
    }
}

/// A parenthesis count is never negative.
proof fn lemma_stack_parens_nonneg(stack: Seq<TokenV>)
    ensures
        stack_parens(stack) >= 0,
    decreases stack.len(),
{
    if stack.len() > 0 {
        lemma_stack_parens_nonneg(stack.drop_last());
    }
}

/// The reordering from position `i` succeeds exactly when the rest of the
/// stream balances the parentheses already open on the stack.
proof fn lemma_sy_from_parens(ts: Seq<TokenV>, i: int, out: Seq<TokenV>, stack: Seq<TokenV>)
    requires
        0 <= i <= ts.len(),
        stack_lefts_only(stack),
    ensures
        sy_from(ts, i, out, stack) is Ok <==> paren_ok_from(ts, i, stack_parens(stack)),
        sy_from(ts, i, out, stack) is Err ==> sy_from(ts, i, out, stack) == Err::<Seq<TokenV>, _>(
            ReorderError::MismatchedParens,
        ),
    decreases ts.len() - i,
{
    lemma_stack_parens_nonneg(stack);
    if i >= ts.len() {
        lemma_sy_finish_parens(out, stack);
    } else {
        match ts[i] {
            TokenV::Value(_) => {
                lemma_sy_from_parens(ts, i + 1, out.push(ts[i]), stack);
            },
            TokenV::Identifier(_) => {
                lemma_sy_from_parens(ts, i + 1, out.push(ts[i]), stack);
            },
            TokenV::Operator(_) => {
                lemma_sy_pop_parens(ts[i], out, stack);
                let (out2, stack2) = sy_pop(ts[i], out, stack);
                assert(stack_lefts_only(stack2.push(ts[i]))) by {
                    assert(forall|j: int|
                        0 <= j < stack2.len() ==> stack2.push(ts[i])[j] == stack2[j]);
                }
                assert(stack_parens(stack2.push(ts[i])) == stack_parens(stack2)) by {
                    assert(stack2.push(ts[i]).drop_last() =~= stack2);
                }
                lemma_sy_from_parens(ts, i + 1, out2, stack2.push(ts[i]));
            },
            TokenV::Function(_) => {
                lemma_sy_pop_parens(ts[i], out, stack);
                let (out2, stack2) = sy_pop(ts[i], out, stack);
                assert(stack_lefts_only(stack2.push(ts[i]))) by {
                    assert(forall|j: int|
                        0 <= j < stack2.len() ==> stack2.push(ts[i])[j] == stack2[j]);
                }
                assert(stack_parens(stack2.push(ts[i])) == stack_parens(stack2)) by {
                    assert(stack2.push(ts[i]).drop_last() =~= stack2);
                }
                lemma_sy_from_parens(ts, i + 1, out2, stack2.push(ts[i]));
            },
            TokenV::Paren(p) => {
                if p == Paren::Left {
                    assert(stack_lefts_only(stack.push(ts[i]))) by {
                        assert(forall|j: int|
                            0 <= j < stack.len() ==> stack.push(ts[i])[j] == stack[j]);
                    }
                    assert(stack_parens(stack.push(ts[i])) == stack_parens(stack) + 1) by {
                        assert(stack.push(ts[i]).drop_last() =~= stack);
                    }
                    lemma_sy_from_parens(ts, i + 1, out, stack.push(ts[i]));
                } else {
                    lemma_sy_close_parens(out, stack);
                    match sy_close(out, stack) {
                        Ok((out2, stack2)) => {
                            lemma_sy_from_parens(ts, i + 1, out2, stack2);
                        },
                        Err(_) => {},
                    }
                }
            },
            TokenV::Keyword(_) => {
                lemma_sy_from_parens(ts, i + 1, out, stack);
            },
            TokenV::Data(_) => {
                lemma_sy_from_parens(ts, i + 1, out, stack);
            },
        }
    }
}

/// The parenthesis-balance law: reordering a token stream succeeds exactly
/// when its parentheses balance, and a stream with an unmatched `(` or `)`
/// is refused with `MismatchedParens` — never reordered into something
/// silently wrong.
pub proof fn lemma_parenthesis_balance(ts: Seq<TokenV>)
    ensures
        spec_shunting_yard(ts) is Ok <==> paren_balanced(ts),
        !paren_balanced(ts) ==> spec_shunting_yard(ts) == Err::<Seq<TokenV>, _>(
            ReorderError::MismatchedParens,
        ),
{
    lemma_sy_from_parens(ts, 0, Seq::empty(), Seq::empty());
}

// ---------------------------------------------------------------------------
// The well-formedness guarantee: a well-formed infix stream always reorders
// successfully, and the output is a postfix stream that one stack pass
// consumes exactly — every prefix leaves at least one operand and exactly
// one remains at the end.
// ---------------------------------------------------------------------------

/// Whether the infix stream is well formed from position `i` onwards,
/// scanning with the usual two-state discipline: `operand` says an operand
/// (a value, a unary minus or an opening parenthesis) is expected next,
/// otherwise a binary operator or a closing parenthesis; `depth` counts the
/// open parentheses, which must all close.  Only values, parentheses and
/// the arithmetic operators may appear.
pub open spec fn wf_from(ts: Seq<TokenV>, i: int, operand: bool, depth: int) -> bool
    decreases ts.len() - i,
{
    if i < 0 {
        false
    } else if i >= ts.len() {
        !operand && depth == 0
    } else {
        match ts[i] {
            TokenV::Value(_) => operand && wf_from(ts, i + 1, false, depth),
            TokenV::Operator(op) => {
                if op == Operator::Assign {
                    false
                } else if op == Operator::USub {
                    operand && wf_from(ts, i + 1, true, depth)
                } else {
                    !operand && wf_from(ts, i + 1, true, depth)
                }
            },
            TokenV::Paren(p) => {
                if p == Paren::Left {
                    operand && wf_from(ts, i + 1, true, depth + 1)
                } else {
                    !operand && depth > 0 && wf_from(ts, i + 1, false, depth - 1)
                }
            },
            _ => false,
        }
    }
}

/// A well-formed infix expression: only numbers, the five binary operators,
/// the unary minus and balanced parentheses, in grammatical order.
pub open spec fn wf_infix(ts: Seq<TokenV>) -> bool {
    wf_from(ts, 0, true, 0)
}

/// The operand balance a token contributes to a postfix stream: a value
/// supplies one operand, a binary operator consumes two and supplies one,
/// the unary minus breaks even.
pub open spec fn weight(t: TokenV) -> int {
    match t {
        TokenV::Value(_) => 1,
        TokenV::Operator(op) => if op == Operator::USub {
            0int
        } else {
            -1int
        },
        _ => 0,
    }
}

/// The operand balance of a whole stream.
pub open spec fn wsum(q: Seq<TokenV>) -> int
    decreases q.len(),
{
    if q.len() == 0 {
        0
    } else {
        wsum(q.drop_last()) + weight(q.last())
    }
}

/// A token a reordered arithmetic stream may hold: a value or an operator
/// other than the assignment.
pub open spec fn out_token(t: TokenV) -> bool {
    match t {
        TokenV::Value(_) => true,
        TokenV::Operator(op) => op != Operator::Assign,
        _ => false,
    }
}

/// Every token of the stream is fit for a reordered arithmetic stream.
pub open spec fn out_ok(q: Seq<TokenV>) -> bool {
    forall|j: int| 0 <= j < q.len() ==> out_token(#[trigger] q[j])
}

/// A consumable postfix forest: every nonempty prefix carries at least one
/// operand, so no operator ever finds its operands missing.
pub open spec fn forest_ok(q: Seq<TokenV>) -> bool {
    forall|j: int| 0 < j <= q.len() ==> wsum(#[trigger] q.take(j)) >= 1
}

/// A token the reordering stack may hold while scanning arithmetic: an
/// operator other than the assignment, or a left parenthesis.
pub open spec fn stack_token(t: TokenV) -> bool {
    match t {
        TokenV::Operator(op) => op != Operator::Assign,
        TokenV::Paren(p) => p == Paren::Left,
        _ => false,
    }
}

/// Every token of the stack is such a token.
pub open spec fn stack_ok(s: Seq<TokenV>) -> bool {
    forall|j: int| 0 <= j < s.len() ==> stack_token(#[trigger] s[j])
}

/// The number of binary operators on the stack: each will later consume one
/// operand from the output, net.
pub open spec fn sbinops(s: Seq<TokenV>) -> int
    decreases s.len(),
{
    if s.len() == 0 {
        0
    } else {
        sbinops(s.drop_last()) + (match s.last() {
            TokenV::Operator(op) => if op == Operator::USub {
                0int
            } else {
                1int
            },
            _ => 0int,
        })
    }
}

/// Binary operators are never counted negatively.
proof fn lemma_sbinops_nonneg(s: Seq<TokenV>)
    ensures
        sbinops(s) >= 0,
    decreases s.len(),
{
    if s.len() > 0 {
        lemma_sbinops_nonneg(s.drop_last());
    }
}

/// The balance of a stream extended by one token.
proof fn lemma_wsum_push(q: Seq<TokenV>, t: TokenV)
    ensures
        wsum(q.push(t)) == wsum(q) + weight(t),
{
    assert(q.push(t).drop_last() =~= q);
    assert(q.push(t).last() == t);
}

/// A forest stays consumable when the appended token leaves at least one
/// operand.
proof fn lemma_forest_push(q: Seq<TokenV>, t: TokenV)
    requires
        forest_ok(q),
        wsum(q) + weight(t) >= 1,
    ensures
        forest_ok(q.push(t)),
        wsum(q.push(t)) == wsum(q) + weight(t),
{
    lemma_wsum_push(q, t);
    assert forall|j: int| 0 < j <= q.push(t).len() implies wsum(#[trigger] q.push(t).take(j))
        >= 1 by {
        if j <= q.len() {
            assert(q.push(t).take(j) =~= q.take(j));
        } else {
            assert(q.push(t).take(j) =~= q.push(t));
        }
    }
}

/// Tokens fit for the output stay fit after an append.
proof fn lemma_out_ok_push(q: Seq<TokenV>, t: TokenV)
    requires
        out_ok(q),
        out_token(t),
    ensures
        out_ok(q.push(t)),
{
    assert forall|j: int| 0 <= j < q.push(t).len() implies out_token(#[trigger] q.push(t)[j]) by {
        if j < q.len() {
            assert(q.push(t)[j] == q[j]);
        }
    }
}

/// Popping for an arriving operator keeps the output a consumable forest
/// and keeps the books balanced: one more operand in the output than
/// binary operators on the stack.
proof fn lemma_pop_keeps(t: TokenV, out: Seq<TokenV>, stack: Seq<TokenV>)
    requires
        stack_ok(stack),
        out_ok(out),
        forest_ok(out),
        wsum(out) == 1 + sbinops(stack),
    ensures
        ({
            let (o2, s2) = sy_pop(t, out, stack);
            &&& stack_ok(s2)
            &&& out_ok(o2)
            &&& forest_ok(o2)
            &&& wsum(o2) == 1 + sbinops(s2)
            &&& stack_parens(s2) == stack_parens(stack)
        }),
    decreases stack.len(),
{
    if stack.len() > 0 && spec_should_pop(t, stack.last()) {
        let top = stack.last();
        assert(stack_token(stack[stack.len() - 1]));
        lemma_sbinops_nonneg(stack.drop_last());
        lemma_forest_push(out, top);
        lemma_out_ok_push(out, top);
        assert(stack_ok(stack.drop_last())) by {
            assert(forall|j: int|
                0 <= j < stack.drop_last().len() ==> stack.drop_last()[j] == stack[j]);
        }
        lemma_pop_keeps(t, out.push(top), stack.drop_last());
    }
}

/// Closing a parenthesis over an arithmetic stack succeeds and keeps the
/// books balanced, removing exactly the one parenthesis.
proof fn lemma_close_keeps(out: Seq<TokenV>, stack: Seq<TokenV>)
    requires
        stack_ok(stack),
        out_ok(out),
        forest_ok(out),
        wsum(out) == 1 + sbinops(stack),
        stack_parens(stack) >= 1,
    ensures
        sy_close(out, stack) matches Ok((o2, s2)) && stack_ok(s2) && out_ok(o2) && forest_ok(o2)
            && wsum(o2) == 1 + sbinops(s2) && stack_parens(s2) == stack_parens(stack) - 1,
    decreases stack.len(),
{
    assert(stack.len() > 0);
    let top = stack.last();
    assert(stack_token(stack[stack.len() - 1]));
    assert(stack_ok(stack.drop_last())) by {
        assert(forall|j: int|
            0 <= j < stack.drop_last().len() ==> stack.drop_last()[j] == stack[j]);
    }
    if top == TokenV::Paren(Paren::Left) {
    } else {
        lemma_sbinops_nonneg(stack.drop_last());
        lemma_forest_push(out, top);
        lemma_out_ok_push(out, top);
        lemma_close_keeps(out.push(top), stack.drop_last());
    }
}

/// Draining an arithmetic stack with no parenthesis left succeeds, and the
/// finished output is a single consumable tree: balance exactly one.
proof fn lemma_finish_ok(out: Seq<TokenV>, stack: Seq<TokenV>)
    requires
        stack_ok(stack),
        out_ok(out),
        forest_ok(out),
        wsum(out) == 1 + sbinops(stack),
        stack_parens(stack) == 0,
    ensures
        sy_finish(out, stack) matches Ok(q) && out_ok(q) && forest_ok(q) && wsum(q) == 1,
    decreases stack.len(),
{
    if stack.len() > 0 {
        let top = stack.last();
        assert(stack_token(stack[stack.len() - 1]));
        assert(stack_ok(stack.drop_last())) by {
            assert(forall|j: int|
                0 <= j < stack.drop_last().len() ==> stack.drop_last()[j] == stack[j]);
        }
        lemma_stack_parens_nonneg(stack.drop_last());
        assert(!(top matches TokenV::Paren(_)));
        lemma_sbinops_nonneg(stack.drop_last());
        lemma_forest_push(out, top);
        lemma_out_ok_push(out, top);
        lemma_finish_ok(out.push(top), stack.drop_last());
    }
}

/// The scan of a well-formed remainder: from a state whose books balance,
/// the reordering succeeds and yields a single consumable tree.
proof fn lemma_sy_wf_from(
    ts: Seq<TokenV>,
    i: int,
    operand: bool,
    depth: int,
    out: Seq<TokenV>,
    stack: Seq<TokenV>,
)
    requires
        0 <= i <= ts.len(),
        wf_from(ts, i, operand, depth),
        stack_ok(stack),
        out_ok(out),
        forest_ok(out),
        stack_parens(stack) == depth,
        wsum(out) == if operand {
            sbinops(stack)
        } else {
            1 + sbinops(stack)
        },
    ensures
        sy_from(ts, i, out, stack) matches Ok(q) && out_ok(q) && forest_ok(q) && wsum(q) == 1,
    decreases ts.len() - i,
{
    lemma_sbinops_nonneg(stack);
    if i >= ts.len() {
        lemma_finish_ok(out, stack);
    } else {
        match ts[i] {
            TokenV::Value(_) => {
                lemma_forest_push(out, ts[i]);
                lemma_out_ok_push(out, ts[i]);
                lemma_sy_wf_from(ts, i + 1, false, depth, out.push(ts[i]), stack);
            },
            TokenV::Operator(op) => {
                if op == Operator::USub {
                    // The unary minus pops nothing: nothing on an
                    // arithmetic stack binds tighter.
                    if stack.len() > 0 {
                        assert(stack_token(stack[stack.len() - 1]));
                        assert(!spec_should_pop(ts[i], stack.last()));
                    }
                    assert(sy_pop(ts[i], out, stack) == (out, stack));
                    let s2 = stack.push(ts[i]);
                    assert(sbinops(s2) == sbinops(stack)) by {
                        assert(s2.drop_last() =~= stack);
                    }
                    assert(stack_parens(s2) == stack_parens(stack)) by {
                        assert(s2.drop_last() =~= stack);
                    }
                    assert(stack_ok(s2)) by {
                        assert(forall|j: int| 0 <= j < stack.len() ==> s2[j] == stack[j]);
                    }
                    lemma_sy_wf_from(ts, i + 1, true, depth, out, s2);
                } else {
                    lemma_pop_keeps(ts[i], out, stack);
                    let (o2, s2) = sy_pop(ts[i], out, stack);
                    let s3 = s2.push(ts[i]);
                    assert(sbinops(s3) == sbinops(s2) + 1) by {
                        assert(s3.drop_last() =~= s2);
                    }
                    assert(stack_parens(s3) == stack_parens(s2)) by {
                        assert(s3.drop_last() =~= s2);
                    }
                    assert(stack_ok(s3)) by {
                        assert(forall|j: int| 0 <= j < s2.len() ==> s3[j] == s2[j]);
                    }
                    lemma_sy_wf_from(ts, i + 1, true, depth, o2, s3);
                }
            },
            TokenV::Paren(p) => {
                if p == Paren::Left {
                    let s2 = stack.push(ts[i]);
                    assert(sbinops(s2) == sbinops(stack)) by {
                        assert(s2.drop_last() =~= stack);
                    }
                    assert(stack_parens(s2) == stack_parens(stack) + 1) by {
                        assert(s2.drop_last() =~= stack);
                    }
                    assert(stack_ok(s2)) by {
                        assert(forall|j: int| 0 <= j < stack.len() ==> s2[j] == stack[j]);
                    }
                    lemma_sy_wf_from(ts, i + 1, true, depth + 1, out, s2);
                } else {
                    lemma_close_keeps(out, stack);
                    match sy_close(out, stack) {
                        Ok((o2, s2)) => {
                            lemma_sy_wf_from(ts, i + 1, false, depth - 1, o2, s2);
                        },
                        Err(_) => {},
                    }
                }
            },
            _ => {},
        }
    }
}

/// The reordering guarantee for well-formed input: the scan succeeds, and
/// the output is a postfix stream of values and operators whose every
/// nonempty prefix keeps at least one operand and whose balance is exactly
/// one — a single stack pass consumes it exactly, with no leftover and no
/// deficit.
pub proof fn lemma_well_formed_reorders(ts: Seq<TokenV>)
    requires
        wf_infix(ts),
    ensures
        spec_shunting_yard(ts) matches Ok(q) && out_ok(q) && forest_ok(q) && wsum(q) == 1,
{
    lemma_sy_wf_from(ts, 0, true, 0, Seq::empty(), Seq::empty());
}

/// `tokens_view` distributes over `push`.
proof fn lemma_view_push(ts: Seq<Token>, t: Token)
    ensures
        tokens_view(ts.push(t)) == tokens_view(ts).push(t@),
{
    assert(tokens_view(ts.push(t)) =~= tokens_view(ts).push(t@));
}

/// `tokens_view` distributes over `drop_last`.
proof fn lemma_view_drop_last(ts: Seq<Token>)
    requires
        ts.len() > 0,
    ensures
        tokens_view(ts.drop_last()) == tokens_view(ts).drop_last(),
{
    assert(tokens_view(ts.drop_last()) =~= tokens_view(ts).drop_last());
}

/// Whether the arriving token forces the stack top to be popped.
fn should_pop(t: &Token, top: &Token) -> (r: bool)
    ensures
        r == spec_should_pop(t@, top@),
{
    let top_is_paren = match top {
        Token::Paren(_) => true,
        _ => false,
    };
    if top_is_paren {
        false
    } else {
        let pt = precedence(top);
        let pa = precedence(t);
        pt > pa || (pt == pa && !right_assoc(t))
    }
}

/// Takes an infix token stream and reorders it to postfix notation, exactly
/// as `spec_shunting_yard` states; the one failure is an unmatched
/// parenthesis.
pub fn shunting_yard(tokens: Vec<Token>) -> (r: Result<Vec<Token>, ReorderError>)
    ensures
        match r {
            Ok(v) => spec_shunting_yard(tokens_view(tokens@)) == Ok::<_, ReorderError>(
                tokens_view(v@),
            ),
            Err(e) => spec_shunting_yard(tokens_view(tokens@)) == Err::<Seq<TokenV>, _>(e),
        },
{
    let ghost ts = tokens_view(tokens@);
    let mut output: Vec<Token> = Vec::new();
    let mut opstack: Vec<Token> = Vec::new();
    let mut i: usize = 0;

    proof {
        assert(tokens_view(output@) =~= Seq::<TokenV>::empty());
        assert(tokens_view(opstack@) =~= Seq::<TokenV>::empty());
    }

    while i < tokens.len()
        invariant
            0 <= i <= tokens.len(),
            ts == tokens_view(tokens@),
            spec_shunting_yard(ts) == sy_from(ts, i as int, tokens_view(output@), tokens_view(opstack@)),
        decreases tokens.len() - i,
    {
        let t = &tokens[i];
        assert(ts[i as int] == t@);
        match t {
            Token::Value(_) => {
                proof {
                    lemma_view_push(output@, *t);
                }
                output.push(t.clone());
            },
            Token::Identifier(_) => {
                proof {
                    lemma_view_push(output@, *t);
                }
                output.push(t.clone());
            },
            Token::Operator(_) | Token::Function(_) => {
                let ghost out0 = tokens_view(output@);
                let ghost stack0 = tokens_view(opstack@);
                while opstack.len() > 0 && should_pop(t, &opstack[opstack.len() - 1])
                    invariant
                        ts == tokens_view(tokens@),
                        0 <= i < tokens.len(),
                        t == &tokens[i as int],
                        spec_shunting_yard(ts) == sy_from(ts, i as int, out0, stack0),
                        sy_pop(ts[i as int], out0, stack0) == sy_pop(
                            ts[i as int],
                            tokens_view(output@),
                            tokens_view(opstack@),
                        ),
                    decreases opstack.len(),
                {
                    proof {
                        assert(tokens_view(opstack@).last() == opstack@.last()@);
                        lemma_view_push(output@, opstack@.last());
                        lemma_view_drop_last(opstack@);
                    }
                    let top = opstack.pop().unwrap();
                    output.push(top);
                }
                proof {
                    assert(sy_pop(ts[i as int], tokens_view(output@), tokens_view(opstack@)) == (
                        tokens_view(output@),
                        tokens_view(opstack@),
                    ));
                    assert(sy_pop(ts[i as int], out0, stack0) == (
                        tokens_view(output@),
                        tokens_view(opstack@),
                    ));
                    lemma_view_push(opstack@, *t);
                }
                opstack.push(t.clone());
            },
            Token::Paren(p) => {
                if p.is_left() {
                    proof {
                        lemma_view_push(opstack@, *t);
                    }
                    opstack.push(t.clone());
                } else {
                    let mut closed = false;
                    while !closed && opstack.len() > 0
                        invariant
                            ts == tokens_view(tokens@),
                            0 <= i < tokens.len(),
                            ts[i as int] == TokenV::Paren(Paren::Right),
                            !closed ==> spec_shunting_yard(ts) == (match sy_close(
                                tokens_view(output@),
                                tokens_view(opstack@),
                            ) {
                                Ok((out2, stack2)) => sy_from(ts, i as int + 1, out2, stack2),
                                Err(e) => Err(e),
                            }),
                            closed ==> spec_shunting_yard(ts) == sy_from(
                                ts,
                                i as int + 1,
                                tokens_view(output@),
                                tokens_view(opstack@),
                            ),
                        decreases opstack.len(),
                    {
                        proof {
                            assert(tokens_view(opstack@).last() == opstack@.last()@);
                            lemma_view_push(output@, opstack@.last());
                            lemma_view_drop_last(opstack@);
                        }
                        let top = opstack.pop().unwrap();
                        match &top {
                            Token::Paren(q) => {
                                if q.is_left() {
                                    closed = true;
                                } else {
                                    output.push(top);
                                }
                            },
                            _ => {
                                output.push(top);
                            },
                        }
                    }
                    if !closed {
                        assert(tokens_view(opstack@).len() == 0);
                        return Err(ReorderError::MismatchedParens);
                    }
                }
            },
            Token::Keyword(_) => {},
            Token::Data(_) => {},
        }
        i = i + 1;
    }

    // End of input: drain the stack, refusing any parenthesis left on it.
    while opstack.len() > 0
        invariant
            ts == tokens_view(tokens@),
            spec_shunting_yard(ts) == sy_finish(tokens_view(output@), tokens_view(opstack@)),
        decreases opstack.len(),
    {
        proof {
            assert(tokens_view(opstack@).last() == opstack@.last()@);
            lemma_view_push(output@, opstack@.last());
            lemma_view_drop_last(opstack@);
        }
        let top = opstack.pop().unwrap();
        match &top {
            Token::Paren(_) => {
                return Err(ReorderError::MismatchedParens);
            },
            _ => {
                output.push(top);
            },
        }
    }
    assert(tokens_view(opstack@).len() == 0);
    Ok(output)
}

} // verus!

//! Evaluation of postfix token streams.
//!
//! `evaluate` consumes a postfix stream left to right with an explicit
//! value stack: values and resolved identifiers are pushed, operators pop
//! their operands (the unary minus pops one, every other operator two), and
//! a function reference pops as many values as the function's arity and
//! applies the definition from the context.  Exactly one value must remain.
//! The spec functions state the whole machine mathematically, the builtin
//! dispatch of `Function::call` included, and the executable code is proved
//! equal to them.

use vstd::prelude::*;

use crate::context::Context;
use crate::context::lookup_fn;
use crate::context::lookup_var;
use crate::errors::BuildError;
use crate::errors::CoreError;
use crate::errors::CoreErrorV;
use crate::errors::EvalError;
use crate::errors::EvalErrorV;
use crate::function::FunctionV;
use crate::num::Number;
use crate::num::ZERO_BITS;
use crate::num::dbl_acos;
use crate::num::dbl_add;
use crate::num::dbl_asin;
use crate::num::dbl_atan;
use crate::num::dbl_cos;
use crate::num::dbl_fmt;
use crate::num::dbl_max;
use crate::num::dbl_min;
use crate::num::dbl_sin;
use crate::num::dbl_tan;
use crate::num::spec_is_zero;
use crate::num::spec_neg;
use crate::reorder::spec_shunting_yard;
use crate::token::Operator;
use crate::token::Token;
use crate::token::TokenV;
use crate::token::spec_apply;
use crate::token::tokens_view;

verus! {

/// The encodings of a stack of numbers.
pub open spec fn nums_view(s: Seq<Number>) -> Seq<u64> {
    s.map_values(|n: Number| n.bits)
}

/// `nums_view` distributes over `push`.
proof fn lemma_nums_push(s: Seq<Number>, n: Number)
    ensures
        nums_view(s.push(n)) == nums_view(s).push(n.bits),
{
    assert(nums_view(s.push(n)) =~= nums_view(s).push(n.bits));
}

/// A subrange extended by one element on the right.
proof fn lemma_subrange_push(s: Seq<u64>, a: int, j: int)
    requires
        0 <= a <= j < s.len(),
    ensures
        s.subrange(a, j + 1) == s.subrange(a, j).push(s[j]),
{
    assert(s.subrange(a, j + 1) =~= s.subrange(a, j).push(s[j]));
}

/// The positional parameter bindings of a call: each parameter name paired
/// with the argument in the same position.
pub open spec fn call_bindings(params: Seq<Seq<char>>, args: Seq<u64>) -> Seq<(Seq<char>, u64)> {
    Seq::new(params.len(), |i: int| (params[i], args[i]))
}

/// The function body with every parameter identifier replaced by the bound
/// argument value; an identifier bound to no parameter is undefined.
pub open spec fn spec_subst(code: Seq<TokenV>, binds: Seq<(Seq<char>, u64)>) -> Result<
    Seq<TokenV>,
    EvalErrorV,
>
    decreases code.len(),
{
    if code.len() == 0 {
        Ok(Seq::empty())
    } else {
        match spec_subst(code.drop_last(), binds) {
            Err(e) => Err(e),
            Ok(pre) => match code.last() {
                TokenV::Identifier(s) => match lookup_var(binds, s) {
                    Some(v) => Ok(pre.push(TokenV::Value(v))),
                    None => Err(EvalErrorV::UndefinedVariable(s)),
                },
                t => Ok(pre.push(t)),
            },
        }
    }
}

/// The running sum of the arguments, folded left from zero with the
/// rounded addition, as the variadic `sum` builtin computes it.
pub open spec fn spec_sum(args: Seq<u64>) -> u64
    decreases args.len(),
{
    if args.len() == 0 {
        ZERO_BITS
    } else {
        dbl_add(spec_sum(args.drop_last()), args.last())
    }
}

/// The result of a builtin body tag applied to arguments: the six
/// trigonometric tags take exactly one argument, `min` and `max` exactly
/// two, and `sum` any number (zero arguments sum to zero); any other tag
/// names no builtin.
pub open spec fn spec_builtin(tag: Seq<char>, args: Seq<u64>) -> Result<u64, CoreErrorV> {
    if tag == "##sin"@ {
        if args.len() == 1 {
            Ok(dbl_sin(args[0]))
        } else {
            Err(CoreErrorV::Eval(EvalErrorV::ArityMismatch(1, args.len() as usize)))
        }
    } else if tag == "##cos"@ {
        if args.len() == 1 {
            Ok(dbl_cos(args[0]))
        } else {
            Err(CoreErrorV::Eval(EvalErrorV::ArityMismatch(1, args.len() as usize)))
        }
    } else if tag == "##tan"@ {
        if args.len() == 1 {
            Ok(dbl_tan(args[0]))
        } else {
            Err(CoreErrorV::Eval(EvalErrorV::ArityMismatch(1, args.len() as usize)))
        }
    } else if tag == "##asin"@ {
        if args.len() == 1 {
            Ok(dbl_asin(args[0]))
        } else {
            Err(CoreErrorV::Eval(EvalErrorV::ArityMismatch(1, args.len() as usize)))
        }
    } else if tag == "##acos"@ {
        if args.len() == 1 {
            Ok(dbl_acos(args[0]))
        } else {
            Err(CoreErrorV::Eval(EvalErrorV::ArityMismatch(1, args.len() as usize)))
        }
    } else if tag == "##atan"@ {
        if args.len() == 1 {
            Ok(dbl_atan(args[0]))
        } else {
            Err(CoreErrorV::Eval(EvalErrorV::ArityMismatch(1, args.len() as usize)))
        }
    } else if tag == "##sum"@ {
        Ok(spec_sum(args))
    } else if tag == "##min"@ {
        if args.len() == 2 {
            Ok(dbl_min(args[0], args[1]))
        } else {
            Err(CoreErrorV::Eval(EvalErrorV::ArityMismatch(2, args.len() as usize)))
        }
    } else if tag == "##max"@ {
        if args.len() == 2 {
            Ok(dbl_max(args[0], args[1]))
        } else {
            Err(CoreErrorV::Eval(EvalErrorV::ArityMismatch(2, args.len() as usize)))
        }
    } else {
        Err(CoreErrorV::Eval(EvalErrorV::UnknownBuiltin(tag)))
    }
}

/// The result of applying a function definition to argument values.  A body
/// whose first token is a data tag dispatches to the builtin of that tag;
/// any other body is applied by arity-checked positional substitution of
/// the arguments for the parameter identifiers, reordering the substituted
/// stream to postfix and evaluating it.
pub open spec fn spec_call(
    f: FunctionV,
    args: Seq<u64>,
    vars: Seq<(Seq<char>, u64)>,
    fns: Seq<(Seq<char>, FunctionV)>,
    depth: nat,
) -> Result<u64, CoreErrorV>
    decreases depth + 1, 0int,
{
    if f.code.len() >= 1 && (f.code[0] matches TokenV::Data(_)) {
        spec_builtin(f.code[0]->Data_0, args)
    } else if args.len() != f.args.len() {
        Err(CoreErrorV::Eval(EvalErrorV::ArityMismatch(f.args.len() as usize, args.len() as usize)))
    } else {
        match spec_subst(f.code, call_bindings(f.args, args)) {
            Err(e) => Err(CoreErrorV::Eval(e)),
            Ok(body) => match spec_shunting_yard(body) {
                Err(e) => Err(CoreErrorV::Reorder(e)),
                Ok(post) => spec_eval_post(post, 0, Seq::empty(), vars, fns, depth),
            },
        }
    }
}

/// One left-to-right stack evaluation of a postfix stream, from position
/// `i` with the values accumulated so far.  A function reference deeper
/// than the nesting budget `depth` allows is malformed.
pub open spec fn spec_eval_post(
    ts: Seq<TokenV>,
    i: int,
    stack: Seq<u64>,
    vars: Seq<(Seq<char>, u64)>,
    fns: Seq<(Seq<char>, FunctionV)>,
    depth: nat,
) -> Result<u64, CoreErrorV>
    decreases depth, ts.len() - i,
{
    if i < 0 {
        Err(CoreErrorV::Build(BuildError::MalformedExpression))
    } else if i >= ts.len() {
        if stack.len() == 1 {
            Ok(stack[0])
        } else {
            Err(CoreErrorV::Build(BuildError::MalformedExpression))
        }
    } else {
        match ts[i] {
            TokenV::Value(v) => spec_eval_post(ts, i + 1, stack.push(v), vars, fns, depth),
            TokenV::Identifier(s) => match lookup_var(vars, s) {
                Some(v) => spec_eval_post(ts, i + 1, stack.push(v), vars, fns, depth),
                None => Err(CoreErrorV::Eval(EvalErrorV::UndefinedVariable(s))),
            },
            TokenV::Operator(op) => {
                if op == Operator::Assign {
                    Err(CoreErrorV::Build(BuildError::MalformedExpression))
                } else if op == Operator::USub {
                    if stack.len() < 1 {
                        Err(CoreErrorV::Build(BuildError::StackUnderflow))
                    } else {
                        spec_eval_post(
                            ts,
                            i + 1,
                            stack.drop_last().push(spec_neg(stack.last())),
                            vars,
                            fns,
                            depth,
                        )
                    }
                } else if stack.len() < 2 {
                    Err(CoreErrorV::Build(BuildError::StackUnderflow))
                } else {
                    let a = stack.last();
                    let b = stack[stack.len() - 2];
                    if op == Operator::Div && spec_is_zero(a) {
                        Err(CoreErrorV::Eval(EvalErrorV::DivisionByZero))
                    } else {
                        spec_eval_post(
                            ts,
                            i + 1,
                            stack.drop_last().drop_last().push(spec_apply(op, b, a)),
                            vars,
                            fns,
                            depth,
                        )
                    }
                }
            },
            TokenV::Function(name) => match lookup_fn(fns, name) {
                None => Err(CoreErrorV::Eval(EvalErrorV::UndefinedVariable(name))),
                Some(f) => {
                    let k = f.args.len() as int;
                    if stack.len() < k {
                        Err(
                            CoreErrorV::Eval(
                                EvalErrorV::ArityMismatch(k as usize, stack.len() as usize),
                            ),
                        )
                    } else if depth == 0 {
                        Err(CoreErrorV::Build(BuildError::MalformedExpression))
                    } else {
                        match spec_call(
                            f,
                            stack.subrange(stack.len() - k, stack.len() as int),
                            vars,
                            fns,
                            (depth - 1) as nat,
                        ) {
                            Err(e) => Err(e),
                            Ok(v) => spec_eval_post(
                                ts,
                                i + 1,
                                stack.subrange(0, stack.len() - k).push(v),
                                vars,
                                fns,
                                depth,
                            ),
                        }
                    }
                },
            },
            TokenV::Paren(_) => Err(CoreErrorV::Build(BuildError::MalformedExpression)),
            TokenV::Keyword(_) => Err(CoreErrorV::Build(BuildError::MalformedExpression)),
            TokenV::Data(_) => Err(CoreErrorV::Build(BuildError::MalformedExpression)),
        }
    }
}

// ---------------------------------------------------------------------------
// The explicit expression tree: an owned binary tree built from a postfix
// stream, with a recursive evaluator.  In a well-formed tree every operator
// node except the unary minus has both children, the unary minus has only a
// right child, and values and identifiers are leaves; a missing operand
// evaluates as zero, as the arena variant of this design had it.
// ---------------------------------------------------------------------------

/// A node of the expression tree: a token with up to two owned children.
pub struct Node {
    pub token: Token,
    pub left: Option<Box<Node>>,
    pub right: Option<Box<Node>>,
}

/// The mathematical shape of a tree node.
pub struct NodeV {
    pub token: TokenV,
    pub left: Option<Box<NodeV>>,
    pub right: Option<Box<NodeV>>,
}

/// The shape of a node.
pub open spec fn node_view(n: Node) -> NodeV
    decreases n,
{
    NodeV {
        token: n.token@,
        left: match n.left {
            Some(b) => Some(Box::new(node_view(*b))),
            None => None,
        },
        right: match n.right {
            Some(b) => Some(Box::new(node_view(*b))),
            None => None,
        },
    }
}

impl View for Node {
    type V = NodeV;

    open spec fn view(&self) -> NodeV {
        node_view(*self)
    }
}

/// The value of an optional subtree: a missing operand counts as zero.
pub open spec fn spec_eval_child(
    c: Option<Box<NodeV>>,
    vars: Seq<(Seq<char>, u64)>,
) -> Result<u64, CoreErrorV>
    decreases c,
{
    match c {
        None => Ok(ZERO_BITS),
        Some(b) => spec_eval_node(*b, vars),
    }
}

/// The value of a tree node: a post-order walk that resolves identifiers
/// through the variable bindings, applies each operator to its children's
/// values, and refuses a division whose right operand is zero.  A token no
/// tree should hold (a parenthesis, a keyword, an assignment, a function
/// reference or a data tag) is malformed.
pub open spec fn spec_eval_node(n: NodeV, vars: Seq<(Seq<char>, u64)>) -> Result<u64, CoreErrorV>
    decreases n,
{
    match n.token {
        TokenV::Value(v) => Ok(v),
        TokenV::Identifier(s) => match lookup_var(vars, s) {
            Some(v) => Ok(v),
            None => Err(CoreErrorV::Eval(EvalErrorV::UndefinedVariable(s))),
        },
        TokenV::Operator(op) => {
            match spec_eval_child(n.left, vars) {
                Err(e) => Err(e),
                Ok(l) => match spec_eval_child(n.right, vars) {
                    Err(e) => Err(e),
                    Ok(r) => {
                        if op == Operator::Assign {
                            Err(CoreErrorV::Build(BuildError::MalformedExpression))
                        } else if op == Operator::Div && spec_is_zero(r) {
                            Err(CoreErrorV::Eval(EvalErrorV::DivisionByZero))
                        } else {
                            Ok(spec_apply(op, l, r))
                        }
                    },
                },
            }
        },
        _ => Err(CoreErrorV::Build(BuildError::MalformedExpression)),
    }
}

/// One step of the tree builder on a stack of finished subtrees.
pub open spec fn spec_build_from(ts: Seq<TokenV>, i: int, stack: Seq<NodeV>) -> Result<
    NodeV,
    BuildError,
>
    decreases ts.len() - i,
{
    if i < 0 {
        Err(BuildError::MalformedExpression)
    } else if i >= ts.len() {
        if stack.len() == 1 {
            Ok(stack[0])
        } else {
            Err(BuildError::MalformedExpression)
        }
    } else {
        match ts[i] {
            TokenV::Value(_) => spec_build_from(
                ts,
                i + 1,
                stack.push(NodeV { token: ts[i], left: None, right: None }),
            ),
            TokenV::Identifier(_) => spec_build_from(
                ts,
                i + 1,
                stack.push(NodeV { token: ts[i], left: None, right: None }),
            ),
            TokenV::Operator(op) => {
                if op == Operator::USub {
                    if stack.len() < 1 {
                        Err(BuildError::StackUnderflow)
                    } else {
                        spec_build_from(
                            ts,
                            i + 1,
                            stack.drop_last().push(
                                NodeV {
                                    token: ts[i],
                                    left: None,
                                    right: Some(Box::new(stack.last())),
                                },
                            ),
                        )
                    }
                } else if stack.len() < 2 {
                    Err(BuildError::StackUnderflow)
                } else {
                    spec_build_from(
                        ts,
                        i + 1,
                        stack.drop_last().drop_last().push(
                            NodeV {
                                token: ts[i],
                                left: Some(Box::new(stack[stack.len() - 2])),
                                right: Some(Box::new(stack.last())),
                            },
                        ),
                    )
                }
            },
            _ => Err(BuildError::MalformedExpression),
        }
    }
}

/// The tree built from a whole postfix stream: values and identifiers
/// become leaves, the unary minus takes one finished subtree as its right
/// child, every other operator takes two (left = the earlier one), and
/// exactly one tree must remain.
pub open spec fn spec_build(ts: Seq<TokenV>) -> Result<NodeV, BuildError> {
    spec_build_from(ts, 0, Seq::empty())
}

/// The shapes of a stack of nodes.
pub open spec fn nodes_view(s: Seq<Node>) -> Seq<NodeV> {
    s.map_values(|n: Node| n@)
}

/// An owned expression tree.
pub struct Tree {
    pub root: Node,
}

impl Node {
    /// A leaf holding `token`.
    pub fn new(token: Token) -> (r: Node)
        ensures
            r@ == (NodeV { token: token@, left: None, right: None }),
    {
        Node { token, left: None, right: None }
    }

    /// Evaluates the subtree, exactly as `spec_eval_node` states.
    pub fn evaluate(&self, ctx: &Context) -> (r: Result<Number, CoreError>)
        ensures
            match r {
                Ok(n) => spec_eval_node(self@, ctx.variables@) == Ok::<u64, CoreErrorV>(n.bits),
                Err(e) => spec_eval_node(self@, ctx.variables@) == Err::<u64, CoreErrorV>(e@),
            },
        decreases *self,
    {
        match &self.token {
            Token::Value(n) => Ok(*n),
            Token::Identifier(s) => match ctx.variables.get(s.as_str()) {
                Some(v) => Ok(v),
                None => Err(CoreError::Eval(EvalError::UndefinedVariable(s.clone()))),
            },
            Token::Operator(op) => {
                let l = match &self.left {
                    None => Number { bits: ZERO_BITS },
                    Some(b) => match b.evaluate(ctx) {
                        Ok(v) => v,
                        Err(e) => {
                            return Err(e);
                        },
                    },
                };
                let r2 = match &self.right {
                    None => Number { bits: ZERO_BITS },
                    Some(b) => match b.evaluate(ctx) {
                        Ok(v) => v,
                        Err(e) => {
                            return Err(e);
                        },
                    },
                };
                if *op == Operator::Assign {
                    return Err(CoreError::Build(BuildError::MalformedExpression));
                }
                if *op == Operator::Div && r2.is_zero() {
                    return Err(CoreError::Eval(EvalError::DivisionByZero));
                }
                Ok(op.evaluate(l, r2))
            },
            _ => Err(CoreError::Build(BuildError::MalformedExpression)),
        }
    }
}

/// The written form of a binary operator.
pub open spec fn spec_op_str(op: Operator) -> Seq<char> {
    match op {
        Operator::Add => "+"@,
        Operator::Sub => "-"@,
        Operator::Mul => "*"@,
        Operator::Div => "/"@,
        Operator::Pow => "^"@,
        Operator::USub => "-"@,
        Operator::Assign => "="@,
    }
}

/// The written form of an optional subtree: a missing operand renders as
/// zero, matching how it evaluates.
pub open spec fn spec_child_text(c: Option<Box<NodeV>>) -> Seq<char>
    decreases c,
{
    match c {
        None => "0"@,
        Some(b) => spec_node_text(*b),
    }
}

/// The fully parenthesized infix rendering of a subtree: values in decimal,
/// identifiers by name, a unary minus as `(-x)` and a binary application as
/// `(l op r)` without spaces.  The rendering of a tree over finite values
/// scans back into an equivalent token stream (the scanner reads the
/// renderer's plain and scientific numerals alike); an infinity or a NaN
/// renders as the formatter's word, which is no numeral.
pub open spec fn spec_node_text(n: NodeV) -> Seq<char>
    decreases n,
{
    match n.token {
        TokenV::Value(v) => dbl_fmt(v),
        TokenV::Identifier(s) => s,
        TokenV::Operator(op) => {
            if op == Operator::USub {
                "("@ + "-"@ + spec_child_text(n.right) + ")"@
            } else {
                "("@ + spec_child_text(n.left) + spec_op_str(op) + spec_child_text(n.right) + ")"@
            }
        },
        _ => Seq::empty(),
    }
}

impl Node {
    /// Renders the subtree as fully parenthesized infix text, exactly as
    /// `spec_node_text` states.
    pub fn to_text(&self) -> (r: String)
        ensures
            r@ == spec_node_text(self@),
        decreases *self,
    {
        match &self.token {
            Token::Value(n) => n.to_text(),
            Token::Identifier(s) => s.clone(),
            Token::Operator(op) => {
                let mut out = String::from_str("(");
                if *op == Operator::USub {
                    out.append("-");
                    match &self.right {
                        None => {
                            out.append("0");
                        },
                        Some(b) => {
                            let t = b.to_text();
                            out.append(t.as_str());
                        },
                    }
                    out.append(")");
                } else {
                    match &self.left {
                        None => {
                            out.append("0");
                        },
                        Some(b) => {
                            let t = b.to_text();
                            out.append(t.as_str());
                        },
                    }
                    let opstr: &str = match op {
                        Operator::Add => "+",
                        Operator::Sub => "-",
                        Operator::Mul => "*",
                        Operator::Div => "/",
                        Operator::Pow => "^",
                        Operator::USub => "-",
                        Operator::Assign => "=",
                    };
                    out.append(opstr);
                    match &self.right {
                        None => {
                            out.append("0");
                        },
                        Some(b) => {
                            let t = b.to_text();
                            out.append(t.as_str());
                        },
                    }
                    out.append(")");
                }
                out
            },
            _ => String::new(),
        }
    }
}

impl Tree {
    /// Renders the whole tree as fully parenthesized infix text.
    pub fn to_text(&self) -> (r: String)
        ensures
            r@ == spec_node_text(self.root@),
    {
        self.root.to_text()
    }

    /// Builds the expression tree of a postfix stream, exactly as
    /// `spec_build` states.
    pub fn from_vec(stream: Vec<Token>) -> (r: Result<Tree, BuildError>)
        ensures
            match r {
                Ok(t) => spec_build(tokens_view(stream@)) == Ok::<NodeV, BuildError>(t.root@),
                Err(e) => spec_build(tokens_view(stream@)) == Err::<NodeV, BuildError>(e),
            },
    {
        let ghost ts = tokens_view(stream@);
        let mut stack: Vec<Node> = Vec::new();
        let mut i: usize = 0;
        proof {
            assert(nodes_view(stack@) =~= Seq::<NodeV>::empty());
        }
        while i < stream.len()
            invariant
                0 <= i <= stream.len(),
                ts == tokens_view(stream@),
                spec_build(ts) == spec_build_from(ts, i as int, nodes_view(stack@)),
            decreases stream.len() - i,
        {
            let ghost sv = nodes_view(stack@);
            assert(ts[i as int] == stream@[i as int]@);
            match &stream[i] {
                Token::Value(_) => {
                    stack.push(Node::new(stream[i].clone()));
                    proof {
                        assert(nodes_view(stack@) =~= sv.push(
                            NodeV { token: ts[i as int], left: None, right: None },
                        ));
                    }
                },
                Token::Identifier(_) => {
                    stack.push(Node::new(stream[i].clone()));
                    proof {
                        assert(nodes_view(stack@) =~= sv.push(
                            NodeV { token: ts[i as int], left: None, right: None },
                        ));
                    }
                },
                Token::Operator(op) => {
                    if *op == Operator::USub {
                        if stack.len() < 1 {
                            return Err(BuildError::StackUnderflow);
                        }
                        let a = stack.pop().unwrap();
                        let node = Node {
                            token: stream[i].clone(),
                            left: None,
                            right: Some(Box::new(a)),
                        };
                        stack.push(node);
                        proof {
                            assert(nodes_view(stack@) =~= sv.drop_last().push(
                                NodeV {
                                    token: ts[i as int],
                                    left: None,
                                    right: Some(Box::new(sv.last())),
                                },
                            ));
                        }
                    } else {
                        if stack.len() < 2 {
                            return Err(BuildError::StackUnderflow);
                        }
                        let a = stack.pop().unwrap();
                        let b = stack.pop().unwrap();
                        let node = Node {
                            token: stream[i].clone(),
                            left: Some(Box::new(b)),
                            right: Some(Box::new(a)),
                        };
                        stack.push(node);
                        proof {
                            assert(nodes_view(stack@) =~= sv.drop_last().drop_last().push(
                                NodeV {
                                    token: ts[i as int],
                                    left: Some(Box::new(sv[sv.len() - 2])),
                                    right: Some(Box::new(sv.last())),
                                },
                            ));
                        }
                    }
                },
                _ => {
                    return Err(BuildError::MalformedExpression);
                },
            }
            i = i + 1;
        }
        if stack.len() == 1 {
            let root = stack.pop().unwrap();
            Ok(Tree { root })
        } else {
            Err(BuildError::MalformedExpression)
        }
    }

    /// Evaluates the whole tree against a context.
    pub fn evaluate(&self, ctx: &Context) -> (r: Result<Number, CoreError>)
        ensures
            match r {
                Ok(n) => spec_eval_node(self.root@, ctx.variables@) == Ok::<u64, CoreErrorV>(
                    n.bits,
                ),
                Err(e) => spec_eval_node(self.root@, ctx.variables@) == Err::<u64, CoreErrorV>(e@),
            },
    {
        self.root.evaluate(ctx)
    }
}

// ---------------------------------------------------------------------------
// The agreement law: on every postfix stream the tree builder accepts, the
// recursive walk of the built tree and the direct left-to-right stack
// evaluation are the same function — same values, same first error.
// ---------------------------------------------------------------------------

/// The values of a stack of finished subtrees, each evaluated on its own,
/// left to right, first error first.
pub open spec fn eval_stack(nstack: Seq<NodeV>, vars: Seq<(Seq<char>, u64)>) -> Result<
    Seq<u64>,
    CoreErrorV,
>
    decreases nstack.len(),
{
    if nstack.len() == 0 {
        Ok(Seq::empty())
    } else {
        match eval_stack(nstack.drop_last(), vars) {
            Err(e) => Err(e),
            Ok(vs) => match spec_eval_node(nstack.last(), vars) {
                Err(e) => Err(e),
                Ok(v) => Ok(vs.push(v)),
            },
        }
    }
}

/// A stack of subtrees that all evaluate produces exactly one value per
/// subtree.
proof fn lemma_eval_stack_len(nstack: Seq<NodeV>, vars: Seq<(Seq<char>, u64)>)
    ensures
        eval_stack(nstack, vars) matches Ok(vs) ==> vs.len() == nstack.len(),
    decreases nstack.len(),
{
    if nstack.len() > 0 {
        lemma_eval_stack_len(nstack.drop_last(), vars);
    }
}

/// The machine's view of a partly processed stream: the subtree stack is
/// evaluated, and on success the stack machine runs on from position `i`.
pub open spec fn machine_result(
    ts: Seq<TokenV>,
    i: int,
    nstack: Seq<NodeV>,
    vars: Seq<(Seq<char>, u64)>,
    fns: Seq<(Seq<char>, FunctionV)>,
    depth: nat,
) -> Result<u64, CoreErrorV> {
    match eval_stack(nstack, vars) {
        Err(e) => Err(e),
        Ok(vs) => spec_eval_post(ts, i, vs, vars, fns, depth),
    }
}

/// One build step preserves the machine's view.
proof fn lemma_step_preserves(
    ts: Seq<TokenV>,
    i: int,
    nstack: Seq<NodeV>,
    vars: Seq<(Seq<char>, u64)>,
    fns: Seq<(Seq<char>, FunctionV)>,
    depth: nat,
)
    requires
        0 <= i < ts.len(),
        spec_build_from(ts, i, nstack) is Ok,
    ensures
        machine_result(ts, i, nstack, vars, fns, depth) == (match ts[i] {
            TokenV::Value(_) => machine_result(
                ts,
                i + 1,
                nstack.push(NodeV { token: ts[i], left: None, right: None }),
                vars,
                fns,
                depth,
            ),
            TokenV::Identifier(_) => machine_result(
                ts,
                i + 1,
                nstack.push(NodeV { token: ts[i], left: None, right: None }),
                vars,
                fns,
                depth,
            ),
            TokenV::Operator(op) => {
                if op == Operator::USub {
                    machine_result(
                        ts,
                        i + 1,
                        nstack.drop_last().push(
                            NodeV { token: ts[i], left: None, right: Some(Box::new(nstack.last())) },
                        ),
                        vars,
                        fns,
                        depth,
                    )
                } else {
                    machine_result(
                        ts,
                        i + 1,
                        nstack.drop_last().drop_last().push(
                            NodeV {
                                token: ts[i],
                                left: Some(Box::new(nstack[nstack.len() - 2])),
                                right: Some(Box::new(nstack.last())),
                            },
                        ),
                        vars,
                        fns,
                        depth,
                    )
                }
            },
            _ => machine_result(ts, i, nstack, vars, fns, depth),
        }),
{
    lemma_eval_stack_len(nstack, vars);
    match ts[i] {
        TokenV::Value(v) => {
            let leaf = NodeV { token: ts[i], left: None, right: None };
            assert(nstack.push(leaf).drop_last() =~= nstack);
            assert(spec_eval_node(leaf, vars) == Ok::<u64, CoreErrorV>(v));
        },
        TokenV::Identifier(s) => {
            let leaf = NodeV { token: ts[i], left: None, right: None };
            assert(nstack.push(leaf).drop_last() =~= nstack);
            match eval_stack(nstack, vars) {
                Err(_) => {},
                Ok(vs) => {
                    match lookup_var(vars, s) {
                        Some(v) => {
                            assert(spec_eval_node(leaf, vars) == Ok::<u64, CoreErrorV>(v));
                        },
                        None => {
                            // Both sides fail with the undefined symbol: the
                            // machine right away, the tree when the leaf is
                            // reached first in the walk.
                            assert(spec_eval_node(leaf, vars) == Err::<u64, CoreErrorV>(
                                CoreErrorV::Eval(EvalErrorV::UndefinedVariable(s)),
                            ));
                        },
                    }
                },
            }
        },
        TokenV::Operator(op) => {
            // The builder accepted the stream, so `op` found its operands.
            if op == Operator::USub {
                assert(nstack.len() >= 1);
                let node = NodeV {
                    token: ts[i],
                    left: None,
                    right: Some(Box::new(nstack.last())),
                };
                let nstack2 = nstack.drop_last().push(node);
                assert(nstack2.drop_last() =~= nstack.drop_last());
                assert(nstack2.last() == node);
                match eval_stack(nstack.drop_last(), vars) {
                    Err(e) => {
                        assert(eval_stack(nstack, vars) == Err::<Seq<u64>, CoreErrorV>(e));
                        assert(eval_stack(nstack2, vars) == Err::<Seq<u64>, CoreErrorV>(e));
                    },
                    Ok(vs0) => {
                        lemma_eval_stack_len(nstack.drop_last(), vars);
                        match spec_eval_node(nstack.last(), vars) {
                            Err(e) => {
                                assert(eval_stack(nstack, vars) == Err::<Seq<u64>, CoreErrorV>(e));
                                assert(spec_eval_child(node.right, vars) == Err::<
                                    u64,
                                    CoreErrorV,
                                >(e));
                                assert(spec_eval_node(node, vars) == Err::<u64, CoreErrorV>(e));
                                assert(eval_stack(nstack2, vars) == Err::<Seq<u64>, CoreErrorV>(
                                    e,
                                ));
                            },
                            Ok(v) => {
                                assert(eval_stack(nstack, vars) == Ok::<Seq<u64>, CoreErrorV>(
                                    vs0.push(v),
                                ));
                                assert(spec_eval_child(node.right, vars) == Ok::<
                                    u64,
                                    CoreErrorV,
                                >(v));
                                assert(spec_eval_child(node.left, vars) == Ok::<u64, CoreErrorV>(
                                    ZERO_BITS,
                                ));
                                assert(spec_eval_node(node, vars) == Ok::<u64, CoreErrorV>(
                                    spec_apply(op, ZERO_BITS, v),
                                ));
                                assert(eval_stack(nstack2, vars) == Ok::<Seq<u64>, CoreErrorV>(
                                    vs0.push(spec_apply(op, ZERO_BITS, v)),
                                ));
                                let vs = vs0.push(v);
                                assert(vs.last() == v);
                                assert(vs.drop_last() =~= vs0);
                            },
                        }
                    },
                }
            } else {
                assert(nstack.len() >= 2);
                let node = NodeV {
                    token: ts[i],
                    left: Some(Box::new(nstack[nstack.len() - 2])),
                    right: Some(Box::new(nstack.last())),
                };
                let nstack2 = nstack.drop_last().drop_last().push(node);
                assert(nstack2.drop_last() =~= nstack.drop_last().drop_last());
                assert(nstack2.last() == node);
                assert(nstack.drop_last().last() == nstack[nstack.len() - 2]);
                match eval_stack(nstack.drop_last().drop_last(), vars) {
                    Err(e) => {
                        assert(eval_stack(nstack.drop_last(), vars) == Err::<
                            Seq<u64>,
                            CoreErrorV,
                        >(e));
                        assert(eval_stack(nstack, vars) == Err::<Seq<u64>, CoreErrorV>(e));
                        assert(eval_stack(nstack2, vars) == Err::<Seq<u64>, CoreErrorV>(e));
                    },
                    Ok(vs0) => {
                        lemma_eval_stack_len(nstack.drop_last().drop_last(), vars);
                        match spec_eval_node(nstack[nstack.len() - 2], vars) {
                            Err(e) => {
                                assert(eval_stack(nstack.drop_last(), vars) == Err::<
                                    Seq<u64>,
                                    CoreErrorV,
                                >(e));
                                assert(eval_stack(nstack, vars) == Err::<Seq<u64>, CoreErrorV>(
                                    e,
                                ));
                                assert(spec_eval_child(node.left, vars) == Err::<
                                    u64,
                                    CoreErrorV,
                                >(e));
                                assert(spec_eval_node(node, vars) == Err::<u64, CoreErrorV>(e));
                                assert(eval_stack(nstack2, vars) == Err::<Seq<u64>, CoreErrorV>(
                                    e,
                                ));
                            },
                            Ok(b) => {
                                assert(eval_stack(nstack.drop_last(), vars) == Ok::<
                                    Seq<u64>,
                                    CoreErrorV,
                                >(vs0.push(b)));
                                match spec_eval_node(nstack.last(), vars) {
                                    Err(e) => {
                                        assert(eval_stack(nstack, vars) == Err::<
                                            Seq<u64>,
                                            CoreErrorV,
                                        >(e));
                                        assert(spec_eval_child(node.left, vars) == Ok::<
                                            u64,
                                            CoreErrorV,
                                        >(b));
                                        assert(spec_eval_child(node.right, vars) == Err::<
                                            u64,
                                            CoreErrorV,
                                        >(e));
                                        assert(spec_eval_node(node, vars) == Err::<
                                            u64,
                                            CoreErrorV,
                                        >(e));
                                        assert(eval_stack(nstack2, vars) == Err::<
                                            Seq<u64>,
                                            CoreErrorV,
                                        >(e));
                                    },
                                    Ok(a) => {
                                        assert(eval_stack(nstack, vars) == Ok::<
                                            Seq<u64>,
                                            CoreErrorV,
                                        >(vs0.push(b).push(a)));
                                        assert(spec_eval_child(node.left, vars) == Ok::<
                                            u64,
                                            CoreErrorV,
                                        >(b));
                                        assert(spec_eval_child(node.right, vars) == Ok::<
                                            u64,
                                            CoreErrorV,
                                        >(a));
                                        let vs = vs0.push(b).push(a);
                                        assert(vs.last() == a);
                                        assert(vs[vs.len() - 2] == b);
                                        assert(vs.drop_last().drop_last() =~= vs0);
                                        if op == Operator::Div && spec_is_zero(a) {
                                            assert(spec_eval_node(node, vars) == Err::<
                                                u64,
                                                CoreErrorV,
                                            >(CoreErrorV::Eval(EvalErrorV::DivisionByZero)));
                                        } else if op == Operator::Assign {
                                            assert(spec_eval_node(node, vars) == Err::<
                                                u64,
                                                CoreErrorV,
                                            >(CoreErrorV::Build(BuildError::MalformedExpression)));
                                        } else {
                                            assert(spec_eval_node(node, vars) == Ok::<
                                                u64,
                                                CoreErrorV,
                                            >(spec_apply(op, b, a)));
                                            assert(eval_stack(nstack2, vars) == Ok::<
                                                Seq<u64>,
                                                CoreErrorV,
                                            >(vs0.push(spec_apply(op, b, a))));
                                        }
                                    },
                                }
                            },
                        }
                    },
                }
            }
        },
        _ => {},
    }
}

/// The agreement law: on any postfix stream the tree builder accepts, the
/// direct stack evaluation and the recursive walk of the built tree give
/// the same result — the same value, or the same first error.  (Such a
/// stream holds no function references, so the nesting budget is
/// irrelevant.)  Stated from an arbitrary middle state and specialized
/// below.
proof fn lemma_machine_matches_tree(
    ts: Seq<TokenV>,
    i: int,
    nstack: Seq<NodeV>,
    vars: Seq<(Seq<char>, u64)>,
    fns: Seq<(Seq<char>, FunctionV)>,
    depth: nat,
)
    requires
        0 <= i <= ts.len(),
        spec_build_from(ts, i, nstack) is Ok,
    ensures
        machine_result(ts, i, nstack, vars, fns, depth) == spec_eval_node(
            spec_build_from(ts, i, nstack)->Ok_0,
            vars,
        ),
    decreases ts.len() - i,
{
    lemma_eval_stack_len(nstack, vars);
    if i >= ts.len() {
        assert(nstack.len() == 1);
        assert(nstack.drop_last() =~= Seq::<NodeV>::empty());
        assert(nstack.last() == nstack[0]);
        assert(eval_stack(Seq::<NodeV>::empty(), vars) == Ok::<Seq<u64>, CoreErrorV>(Seq::empty()));
        match spec_eval_node(nstack[0], vars) {
            Err(e) => {
                assert(eval_stack(nstack, vars) == Err::<Seq<u64>, CoreErrorV>(e));
            },
            Ok(v) => {
                assert(eval_stack(nstack, vars) == Ok::<Seq<u64>, CoreErrorV>(
                    Seq::empty().push(v),
                ));
                assert(Seq::<u64>::empty().push(v).len() == 1);
                assert(Seq::<u64>::empty().push(v)[0] == v);
            },
        }
    } else {
        lemma_step_preserves(ts, i, nstack, vars, fns, depth);
        match ts[i] {
            TokenV::Value(_) => {
                let nstack2 = nstack.push(NodeV { token: ts[i], left: None, right: None });
                assert(spec_build_from(ts, i, nstack) == spec_build_from(ts, i + 1, nstack2));
                lemma_machine_matches_tree(ts, i + 1, nstack2, vars, fns, depth);
            },
            TokenV::Identifier(_) => {
                let nstack2 = nstack.push(NodeV { token: ts[i], left: None, right: None });
                assert(spec_build_from(ts, i, nstack) == spec_build_from(ts, i + 1, nstack2));
                lemma_machine_matches_tree(ts, i + 1, nstack2, vars, fns, depth);
            },
            TokenV::Operator(op) => {
                if op == Operator::USub {
                    assert(nstack.len() >= 1);
                    let nstack2 = nstack.drop_last().push(
                        NodeV { token: ts[i], left: None, right: Some(Box::new(nstack.last())) },
                    );
                    assert(spec_build_from(ts, i, nstack) == spec_build_from(ts, i + 1, nstack2));
                    lemma_machine_matches_tree(ts, i + 1, nstack2, vars, fns, depth);
                } else {
                    assert(nstack.len() >= 2);
                    let nstack2 = nstack.drop_last().drop_last().push(
                        NodeV {
                            token: ts[i],
                            left: Some(Box::new(nstack[nstack.len() - 2])),
                            right: Some(Box::new(nstack.last())),
                        },
                    );
                    assert(spec_build_from(ts, i, nstack) == spec_build_from(ts, i + 1, nstack2));
                    lemma_machine_matches_tree(ts, i + 1, nstack2, vars, fns, depth);
                }
            },
            _ => {},
        }
    }
}

/// A tree of plain arithmetic: every node holds a value or an operator
/// other than the assignment.
pub open spec fn node_plain(n: NodeV) -> bool
    decreases n,
{
    &&& crate::reorder::out_token(n.token)
    &&& match n.left {
        Some(b) => node_plain(*b),
        None => true,
    }
    &&& match n.right {
        Some(b) => node_plain(*b),
        None => true,
    }
}

/// The balance of one more token of the stream.
proof fn lemma_wsum_take_step(q: Seq<TokenV>, i: int)
    requires
        0 <= i < q.len(),
    ensures
        crate::reorder::wsum(q.take(i + 1)) == crate::reorder::wsum(q.take(i))
            + crate::reorder::weight(q[i]),
{
    assert(q.take(i + 1).drop_last() =~= q.take(i));
    assert(q.take(i + 1).last() == q[i]);
}

/// Building from a consumable postfix stream: with as many finished
/// subtrees on the stack as the prefix's balance, the rest of the build
/// succeeds and the result is a plain arithmetic tree.
proof fn lemma_build_ok_from(q: Seq<TokenV>, i: int, nstack: Seq<NodeV>)
    requires
        0 <= i <= q.len(),
        crate::reorder::out_ok(q),
        crate::reorder::forest_ok(q),
        crate::reorder::wsum(q) == 1,
        nstack.len() == crate::reorder::wsum(q.take(i)),
        forall|j: int| 0 <= j < nstack.len() ==> node_plain(#[trigger] nstack[j]),
    ensures
        spec_build_from(q, i, nstack) matches Ok(root) && node_plain(root),
    decreases q.len() - i,
{
    if i >= q.len() {
        assert(q.take(i) =~= q);
        assert(nstack.len() == 1);
    } else {
        lemma_wsum_take_step(q, i);
        assert(crate::reorder::out_token(q[i]));
        assert(crate::reorder::wsum(q.take(i + 1)) >= 1);
        match q[i] {
            TokenV::Value(_) => {
                let ns2 = nstack.push(NodeV { token: q[i], left: None, right: None });
                assert(forall|j: int| 0 <= j < nstack.len() ==> ns2[j] == nstack[j]);
                lemma_build_ok_from(q, i + 1, ns2);
            },
            TokenV::Operator(op) => {
                if op == Operator::USub {
                    assert(nstack.len() >= 1);
                    let node = NodeV {
                        token: q[i],
                        left: None,
                        right: Some(Box::new(nstack.last())),
                    };
                    assert(node_plain(nstack[nstack.len() - 1]));
                    let ns2 = nstack.drop_last().push(node);
                    assert(forall|j: int|
                        0 <= j < nstack.drop_last().len() ==> ns2[j] == nstack[j]);
                    lemma_build_ok_from(q, i + 1, ns2);
                } else {
                    assert(nstack.len() >= 2);
                    let node = NodeV {
                        token: q[i],
                        left: Some(Box::new(nstack[nstack.len() - 2])),
                        right: Some(Box::new(nstack.last())),
                    };
                    assert(node_plain(nstack[nstack.len() - 1]));
                    assert(node_plain(nstack[nstack.len() - 2]));
                    let ns2 = nstack.drop_last().drop_last().push(node);
                    assert(forall|j: int|
                        0 <= j < nstack.drop_last().drop_last().len() ==> ns2[j] == nstack[j]);
                    lemma_build_ok_from(q, i + 1, ns2);
                }
            },
            _ => {},
        }
    }
}

/// A plain arithmetic tree evaluates without consulting the context, and
/// the one failure it can meet is a division by zero.
proof fn lemma_plain_eval(n: NodeV, vars: Seq<(Seq<char>, u64)>)
    requires
        node_plain(n),
    ensures
        spec_eval_node(n, vars) matches Ok(_) || spec_eval_node(n, vars) == Err::<u64, CoreErrorV>(
            CoreErrorV::Eval(EvalErrorV::DivisionByZero),
        ),
    decreases n,
{
    match n.token {
        TokenV::Value(_) => {},
        TokenV::Operator(op) => {
            match n.left {
                Some(b) => {
                    lemma_plain_eval(*b, vars);
                },
                None => {},
            }
            match n.right {
                Some(b) => {
                    lemma_plain_eval(*b, vars);
                },
                None => {},
            }
        },
        _ => {},
    }
}

/// The build-and-evaluate guarantee: a postfix stream of values and
/// operators whose every nonempty prefix keeps at least one operand, and
/// whose balance is one, builds a tree, and that tree evaluates to a value
/// unless a division by zero stops it.
pub proof fn lemma_consumable_builds_and_evaluates(q: Seq<TokenV>, vars: Seq<(Seq<char>, u64)>)
    requires
        crate::reorder::out_ok(q),
        crate::reorder::forest_ok(q),
        crate::reorder::wsum(q) == 1,
    ensures
        spec_build(q) matches Ok(root) && node_plain(root) && (spec_eval_node(root, vars) matches
            Ok(_) || spec_eval_node(root, vars) == Err::<u64, CoreErrorV>(
            CoreErrorV::Eval(EvalErrorV::DivisionByZero),
        )),
{
    assert(q.take(0) =~= Seq::<TokenV>::empty());
    lemma_build_ok_from(q, 0, Seq::empty());
    lemma_plain_eval(spec_build(q)->Ok_0, vars);
}

/// The agreement law at the top: whenever `spec_build` accepts a postfix
/// stream, the stack evaluation of the stream equals the recursive
/// evaluation of the built tree, error for error and value for value.
pub proof fn lemma_tree_agrees_with_stack(
    ts: Seq<TokenV>,
    vars: Seq<(Seq<char>, u64)>,
    fns: Seq<(Seq<char>, FunctionV)>,
    depth: nat,
)
    requires
        spec_build(ts) is Ok,
    ensures
        spec_eval_post(ts, 0, Seq::empty(), vars, fns, depth) == spec_eval_node(
            spec_build(ts)->Ok_0,
            vars,
        ),
{
    assert(eval_stack(Seq::<NodeV>::empty(), vars) == Ok::<Seq<u64>, CoreErrorV>(Seq::empty()));
    lemma_machine_matches_tree(ts, 0, Seq::empty(), vars, fns, depth);
}

/// The value of a postfix token stream under a context: one stack pass with
/// a nesting budget of one function call, which covers every stream the
/// lexer can produce (declared bodies never hold function references).
pub open spec fn spec_evaluate(
    ts: Seq<TokenV>,
    vars: Seq<(Seq<char>, u64)>,
    fns: Seq<(Seq<char>, FunctionV)>,
) -> Result<u64, CoreErrorV> {
    spec_eval_post(ts, 0, Seq::empty(), vars, fns, 1)
}

/// Evaluates a postfix token stream against a context, exactly as
/// `spec_evaluate` states.
pub fn evaluate(tokens: &Vec<Token>, ctx: &Context) -> (r: Result<Number, CoreError>)
    ensures
        match r {
            Ok(n) => spec_evaluate(tokens_view(tokens@), ctx.variables@, ctx.functions@)
                == Ok::<u64, CoreErrorV>(n.bits),
            Err(e) => spec_evaluate(tokens_view(tokens@), ctx.variables@, ctx.functions@)
                == Err::<u64, CoreErrorV>(e@),
        },
{
    eval_postfix(tokens, ctx, 1)
}

/// The stack machine over a postfix stream, with an explicit function
/// nesting budget.
pub(crate) fn eval_postfix(tokens: &Vec<Token>, ctx: &Context, depth: u64) -> (r: Result<
    Number,
    CoreError,
>)
    ensures
        match r {
            Ok(n) => spec_eval_post(
                tokens_view(tokens@),
                0,
                Seq::empty(),
                ctx.variables@,
                ctx.functions@,
                depth as nat,
            ) == Ok::<u64, CoreErrorV>(n.bits),
            Err(e) => spec_eval_post(
                tokens_view(tokens@),
                0,
                Seq::empty(),
                ctx.variables@,
                ctx.functions@,
                depth as nat,
            ) == Err::<u64, CoreErrorV>(e@),
        },
    decreases depth, 1int,
{
    let ghost ts = tokens_view(tokens@);
    let ghost vars = ctx.variables@;
    let ghost fns = ctx.functions@;
    let mut stack: Vec<Number> = Vec::new();
    let mut i: usize = 0;
    proof {
        assert(nums_view(stack@) =~= Seq::<u64>::empty());
    }
    while i < tokens.len()
        invariant
            0 <= i <= tokens.len(),
            ts == tokens_view(tokens@),
            vars == ctx.variables@,
            fns == ctx.functions@,
            spec_eval_post(ts, 0, Seq::empty(), vars, fns, depth as nat) == spec_eval_post(
                ts,
                i as int,
                nums_view(stack@),
                vars,
                fns,
                depth as nat,
            ),
        decreases tokens.len() - i,
    {
        let ghost sv = nums_view(stack@);
        assert(ts[i as int] == tokens@[i as int]@);
        match &tokens[i] {
            Token::Value(n) => {
                stack.push(*n);
                proof {
                    assert(nums_view(stack@) =~= sv.push(n.bits));
                }
            },
            Token::Identifier(s) => {
                match ctx.variables.get(s.as_str()) {
                    Some(n) => {
                        stack.push(n);
                        proof {
                            assert(nums_view(stack@) =~= sv.push(n.bits));
                        }
                    },
                    None => {
                        return Err(CoreError::Eval(EvalError::UndefinedVariable(s.clone())));
                    },
                }
            },
            Token::Operator(op) => {
                if *op == Operator::Assign {
                    return Err(CoreError::Build(BuildError::MalformedExpression));
                } else if *op == Operator::USub {
                    if stack.len() < 1 {
                        return Err(CoreError::Build(BuildError::StackUnderflow));
                    }
                    let a = stack.pop().unwrap();
                    stack.push(a.neg());
                    proof {
                        assert(nums_view(stack@) =~= sv.drop_last().push(spec_neg(sv.last())));
                    }
                } else {
                    if stack.len() < 2 {
                        return Err(CoreError::Build(BuildError::StackUnderflow));
                    }
                    let a = stack.pop().unwrap();
                    let b = stack.pop().unwrap();
                    if *op == Operator::Div && a.is_zero() {
                        return Err(CoreError::Eval(EvalError::DivisionByZero));
                    }
                    let v = op.evaluate(b, a);
                    stack.push(v);
                    proof {
                        assert(nums_view(stack@) =~= sv.drop_last().drop_last().push(
                            spec_apply(*op, b.bits, a.bits),
                        ));
                        assert(b.bits == sv[sv.len() - 2]);
                        assert(a.bits == sv.last());
                    }
                }
            },
            Token::Function(name) => {
                match ctx.functions.get(name.as_str()) {
                    None => {
                        return Err(CoreError::Eval(EvalError::UndefinedVariable(name.clone())));
                    },
                    Some(f) => {
                        let k = f.argc();
                        if stack.len() < k {
                            return Err(
                                CoreError::Eval(EvalError::ArityMismatch(k, stack.len())),
                            );
                        }
                        if depth == 0 {
                            return Err(CoreError::Build(BuildError::MalformedExpression));
                        }
                        let mut fargs: Vec<Number> = Vec::new();
                        let mut j: usize = stack.len() - k;
                        proof {
                            assert(nums_view(fargs@) =~= sv.subrange(
                                sv.len() - k,
                                sv.len() - k,
                            ));
                        }
                        while j < stack.len()
                            invariant
                                stack.len() - k <= j <= stack.len(),
                                k <= stack.len(),
                                sv == nums_view(stack@),
                                nums_view(fargs@) == sv.subrange(sv.len() - k, j as int),
                            decreases stack.len() - j,
                        {
                            let ghost fv = fargs@;
                            fargs.push(stack[j]);
                            proof {
                                lemma_nums_push(fv, stack@[j as int]);
                                assert(stack@[j as int].bits == sv[j as int]);
                                lemma_subrange_push(sv, sv.len() - k, j as int);
                            }
                            j = j + 1;
                        }
                        stack.truncate(stack.len() - k);
                        proof {
                            assert(nums_view(stack@) =~= sv.subrange(0, sv.len() - k));
                        }
                        match f.call(fargs, ctx, depth - 1) {
                            Err(e) => {
                                return Err(e);
                            },
                            Ok(v) => {
                                stack.push(v);
                                proof {
                                    assert(nums_view(stack@) =~= sv.subrange(
                                        0,
                                        sv.len() - k,
                                    ).push(v.bits));
                                }
                            },
                        }
                    },
                }
            },
            Token::Paren(_) => {
                return Err(CoreError::Build(BuildError::MalformedExpression));
            },
            Token::Keyword(_) => {
                return Err(CoreError::Build(BuildError::MalformedExpression));
            },
            Token::Data(_) => {
                return Err(CoreError::Build(BuildError::MalformedExpression));
            },
        }
        i = i + 1;
    }
    if stack.len() == 1 {
        Ok(stack[0])
    } else {
        Err(CoreError::Build(BuildError::MalformedExpression))
    }
}

} // verus!

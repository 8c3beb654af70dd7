//! Function definitions.
//!
//! A function owns its name, its ordered parameter names (the arity is
//! their number) and a body: either a single sentinel data tag naming a
//! native operation (`##sin`, `##sum`, ...) or the token stream of its
//! defining expression, with parameter names as free identifiers.  A
//! definition is created once — at context initialization for the builtins
//! or by a `function` declaration — and never mutated.

use vstd::prelude::*;

use crate::context::Context;
use crate::context::VarTable;
use crate::errors::CoreError;
use crate::errors::CoreErrorV;
use crate::errors::EvalError;
use crate::errors::EvalErrorV;
use crate::num::Number;
use crate::num::ZERO_BITS;
use crate::reorder::shunting_yard;
use crate::token::Token;
use crate::token::TokenV;
use crate::token::str_eq;
use crate::token::tokens_view;
use crate::tree::call_bindings;
use crate::tree::eval_postfix;
use crate::tree::nums_view;
use crate::tree::spec_builtin;
use crate::tree::spec_call;
use crate::tree::spec_subst;
use crate::tree::spec_sum;

verus! {

/// A function definition.
#[derive(PartialEq, Debug)]
pub struct Function {
    pub ident: String,
    pub args: Vec<String>,
    pub code: Vec<Token>,
    pub local_idents: Vec<Token>,
}

/// The mathematical shape of a function definition.
pub struct FunctionV {
    pub ident: Seq<char>,
    pub args: Seq<Seq<char>>,
    pub code: Seq<TokenV>,
    pub local_idents: Seq<TokenV>,
}

impl View for Function {
    type V = FunctionV;

    open spec fn view(&self) -> FunctionV {
        FunctionV {
            ident: self.ident@,
            args: self.args.deep_view(),
            code: tokens_view(self.code@),
            local_idents: tokens_view(self.local_idents@),
        }
    }
}

impl Function {
    /// Builds a definition from a name, parameter names and a body token
    /// stream; the parameters are also kept as identifier tokens.
    pub fn new(ident: String, args: Vec<String>, tokens: Vec<Token>) -> (r: Function)
        ensures
            r@.ident == ident@,
            r@.args == args.deep_view(),
            r@.code == tokens_view(tokens@),
            r@.local_idents.len() == args.deep_view().len(),
            forall|i: int|
                0 <= i < args.deep_view().len() ==> r@.local_idents[i] == TokenV::Identifier(
                    args.deep_view()[i],
                ),
    {
        let mut local_idents: Vec<Token> = Vec::new();
        let mut i: usize = 0;
        while i < args.len()
            invariant
                0 <= i <= args.len(),
                local_idents@.len() == i,
                forall|j: int|
                    0 <= j < i ==> local_idents@[j]@ == TokenV::Identifier(args.deep_view()[j]),
            decreases args.len() - i,
        {
            local_idents.push(Token::Identifier(args[i].clone()));
            i = i + 1;
        }
        Function { ident, args, code: tokens, local_idents }
    }

    /// The arity: the number of parameters.
    pub fn argc(&self) -> (r: usize)
        ensures
            r == self@.args.len(),
    {
        self.args.len()
    }

    /// Applies the definition to argument values, exactly as `spec_call`
    /// states: a body that starts with a sentinel data tag dispatches to
    /// the builtin of that tag; any other body is applied by arity-checked
    /// positional substitution of the arguments for the parameter
    /// identifiers, reordered to postfix and evaluated.
    pub fn call(&self, args: Vec<Number>, ctx: &Context, depth: u64) -> (r: Result<
        Number,
        CoreError,
    >)
        ensures
            match r {
                Ok(n) => spec_call(
                    self@,
                    nums_view(args@),
                    ctx.variables@,
                    ctx.functions@,
                    depth as nat,
                ) == Ok::<u64, CoreErrorV>(n.bits),
                Err(e) => spec_call(
                    self@,
                    nums_view(args@),
                    ctx.variables@,
                    ctx.functions@,
                    depth as nat,
                ) == Err::<u64, CoreErrorV>(e@),
            },
        decreases depth, 2int,
    {
        let ghost argsv = nums_view(args@);
        if self.code.len() >= 1 {
            let is_data = match &self.code[0] {
                Token::Data(_) => true,
                _ => false,
            };
            if is_data {
                let d: &String = match &self.code[0] {
                    Token::Data(d) => d,
                    _ => unreached(),
                };
                return Function::apply_builtin(d, args);
            }
        }
        proof {
            if self.code@.len() >= 1 {
                assert(self@.code[0] == self.code@[0]@);
            }
        }
        if args.len() != self.args.len() {
            return Err(CoreError::Eval(EvalError::ArityMismatch(self.args.len(), args.len())));
        }
        let mut binds = VarTable::new();
        let mut i: usize = 0;
        proof {
            assert(binds@ =~= call_bindings(self@.args, argsv).take(0));
        }
        while i < self.args.len()
            invariant
                0 <= i <= self.args.len(),
                args@.len() == self.args.len(),
                argsv == nums_view(args@),
                binds@ == call_bindings(self@.args, argsv).take(i as int),
            decreases self.args.len() - i,
        {
            binds.append(self.args[i].clone(), args[i]);
            proof {
                assert(binds@ =~= call_bindings(self@.args, argsv).take(i as int + 1));
            }
            i = i + 1;
        }
        proof {
            assert(binds@ =~= call_bindings(self@.args, argsv));
        }
        let mut body: Vec<Token> = Vec::new();
        let mut j: usize = 0;
        proof {
            assert(self@.code.take(0) =~= Seq::<TokenV>::empty());
            assert(tokens_view(body@) =~= Seq::<TokenV>::empty());
        }
        while j < self.code.len()
            invariant
                0 <= j <= self.code.len(),
                binds@ == call_bindings(self@.args, argsv),
                argsv == nums_view(args@),
                argsv.len() == self@.args.len(),
                self@.code.len() == 0 || !(self@.code[0] matches TokenV::Data(_)),
                spec_subst(self@.code.take(j as int), binds@) == Ok::<Seq<TokenV>, EvalErrorV>(
                    tokens_view(body@),
                ),
            decreases self.code.len() - j,
        {
            let ghost bodyv = tokens_view(body@);
            proof {
                assert(self@.code.take(j as int + 1).drop_last() =~= self@.code.take(j as int));
                assert(self@.code.take(j as int + 1).last() == self@.code[j as int]);
            }
            match &self.code[j] {
                Token::Identifier(s) => {
                    match binds.get(s.as_str()) {
                        Some(v) => {
                            body.push(Token::Value(v));
                            proof {
                                assert(tokens_view(body@) =~= bodyv.push(TokenV::Value(v.bits)));
                            }
                        },
                        None => {
                            proof {
                                assert(spec_subst(self@.code.take(j as int + 1), binds@)
                                    == Err::<Seq<TokenV>, EvalErrorV>(
                                    EvalErrorV::UndefinedVariable(s@),
                                ));
                                lemma_subst_err(self@.code, j as int + 1, binds@);
                            }
                            return Err(
                                CoreError::Eval(EvalError::UndefinedVariable(s.clone())),
                            );
                        },
                    }
                },
                t => {
                    body.push(t.clone());
                    proof {
                        assert(tokens_view(body@) =~= bodyv.push(self@.code[j as int]));
                    }
                },
            }
            j = j + 1;
        }
        proof {
            assert(self@.code.take(self.code.len() as int) =~= self@.code);
        }
        match shunting_yard(body) {
            Err(e) => Err(CoreError::Reorder(e)),
            Ok(post) => eval_postfix(&post, ctx, depth),
        }
    }

    /// The builtin dispatch: applies the native operation a sentinel tag
    /// names, enforcing its arity.
    fn apply_builtin(tag: &String, args: Vec<Number>) -> (r: Result<Number, CoreError>)
        ensures
            match r {
                Ok(n) => spec_builtin(tag@, nums_view(args@)) == Ok::<u64, CoreErrorV>(n.bits),
                Err(e) => spec_builtin(tag@, nums_view(args@)) == Err::<u64, CoreErrorV>(e@),
            },
    {
        let ghost argsv = nums_view(args@);
        if str_eq(tag.as_str(), "##sin") {
            if args.len() == 1 {
                Ok(args[0].sin())
            } else {
                Err(CoreError::Eval(EvalError::ArityMismatch(1, args.len())))
            }
        } else if str_eq(tag.as_str(), "##cos") {
            if args.len() == 1 {
                Ok(args[0].cos())
            } else {
                Err(CoreError::Eval(EvalError::ArityMismatch(1, args.len())))
            }
        } else if str_eq(tag.as_str(), "##tan") {
            if args.len() == 1 {
                Ok(args[0].tan())
            } else {
                Err(CoreError::Eval(EvalError::ArityMismatch(1, args.len())))
            }
        } else if str_eq(tag.as_str(), "##asin") {
            if args.len() == 1 {
                Ok(args[0].asin())
            } else {
                Err(CoreError::Eval(EvalError::ArityMismatch(1, args.len())))
            }
        } else if str_eq(tag.as_str(), "##acos") {
            if args.len() == 1 {
                Ok(args[0].acos())
            } else {
                Err(CoreError::Eval(EvalError::ArityMismatch(1, args.len())))
            }
        } else if str_eq(tag.as_str(), "##atan") {
            if args.len() == 1 {
                Ok(args[0].atan())
            } else {
                Err(CoreError::Eval(EvalError::ArityMismatch(1, args.len())))
            }
        } else if str_eq(tag.as_str(), "##sum") {
            let mut acc = Number { bits: ZERO_BITS };
            let mut i: usize = 0;
            proof {
                assert(argsv.take(0) =~= Seq::<u64>::empty());
            }
            while i < args.len()
                invariant
                    0 <= i <= args.len(),
                    argsv == nums_view(args@),
                    acc.bits == spec_sum(argsv.take(i as int)),
                decreases args.len() - i,
            {
                proof {
                    assert(argsv.take(i as int + 1).drop_last() =~= argsv.take(i as int));
                    assert(argsv.take(i as int + 1).last() == argsv[i as int]);
                }
                acc = acc.add(&args[i]);
                i = i + 1;
            }
            proof {
                assert(argsv.take(args.len() as int) =~= argsv);
            }
            Ok(acc)
        } else if str_eq(tag.as_str(), "##min") {
            if args.len() == 2 {
                Ok(args[0].min(&args[1]))
            } else {
                Err(CoreError::Eval(EvalError::ArityMismatch(2, args.len())))
            }
        } else if str_eq(tag.as_str(), "##max") {
            if args.len() == 2 {
                Ok(args[0].max(&args[1]))
            } else {
                Err(CoreError::Eval(EvalError::ArityMismatch(2, args.len())))
            }
        } else {
            Err(CoreError::Eval(EvalError::UnknownBuiltin(tag.clone())))
        }
    }
}

/// A substitution that fails on a prefix fails on the whole body, with the
/// same error.
proof fn lemma_subst_err(code: Seq<TokenV>, m: int, binds: Seq<(Seq<char>, u64)>)
    requires
        0 <= m <= code.len(),
        spec_subst(code.take(m), binds) is Err,
    ensures
        spec_subst(code, binds) == spec_subst(code.take(m), binds),
    decreases code.len() - m,
{
    if m == code.len() {
        assert(code.take(m) =~= code);
    } else {
        assert(code.take(m + 1).drop_last() =~= code.take(m));
        lemma_subst_err(code, m + 1, binds);
    }
}

} // verus!

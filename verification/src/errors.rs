//! The error taxonomy, by pipeline stage.
//!
//! Every stage returns a result; no stage recovers from a lower stage's
//! failure, so the first error aborts the whole evaluation and reaches the
//! caller unchanged.

use vstd::prelude::*;

verus! {

/// A failure while scanning source text.
#[derive(PartialEq, Debug)]
pub enum LexError {
    /// A numeric literal with a second decimal point, or one the number
    /// parser rejects.
    MalformedNumber,
    /// An identifier that is neither a keyword, a declared function, a
    /// declared variable nor a parameter in scope.
    UndefinedSymbol(String),
    /// A `var` or `function` keyword that reaches the end of input without
    /// the identifier it declares.
    MissingIdentifierAfterKeyword,
    /// An `=` outside a declaration.
    UnexpectedAssign,
}

/// The mathematical shape of a lexing failure.
pub enum LexErrorV {
    MalformedNumber,
    UndefinedSymbol(Seq<char>),
    MissingIdentifierAfterKeyword,
    UnexpectedAssign,
}

impl View for LexError {
    type V = LexErrorV;

    open spec fn view(&self) -> LexErrorV {
        match self {
            LexError::MalformedNumber => LexErrorV::MalformedNumber,
            LexError::UndefinedSymbol(s) => LexErrorV::UndefinedSymbol(s@),
            LexError::MissingIdentifierAfterKeyword => LexErrorV::MissingIdentifierAfterKeyword,
            LexError::UnexpectedAssign => LexErrorV::UnexpectedAssign,
        }
    }
}

/// A failure while reordering to postfix.
#[derive(Clone, Copy, PartialEq, Eq, Structural, Debug)]
pub enum ReorderError {
    /// An unmatched `(` or `)`.
    MismatchedParens,
}

/// A failure while building the expression tree from a postfix stream.
#[derive(Clone, Copy, PartialEq, Eq, Structural, Debug)]
pub enum BuildError {
    /// An operator arrived with too few operands on the stack.
    StackUnderflow,
    /// The stream left no node, or more than one, on the stack.
    MalformedExpression,
}

/// A failure while evaluating.
#[derive(PartialEq, Debug)]
pub enum EvalError {
    /// A division whose right operand is zero.
    DivisionByZero,
    /// An identifier with no binding in the context; the lexer already
    /// validated names, so this is an internal-consistency check.
    UndefinedVariable(String),
    /// A function applied to the wrong number of arguments: expected, then
    /// received.
    ArityMismatch(usize, usize),
    /// A builtin body tag that names no native operation.
    UnknownBuiltin(String),
}

/// The mathematical shape of an evaluation failure.
pub enum EvalErrorV {
    DivisionByZero,
    UndefinedVariable(Seq<char>),
    ArityMismatch(usize, usize),
    UnknownBuiltin(Seq<char>),
}

impl View for EvalError {
    type V = EvalErrorV;

    open spec fn view(&self) -> EvalErrorV {
        match self {
            EvalError::DivisionByZero => EvalErrorV::DivisionByZero,
            EvalError::UndefinedVariable(s) => EvalErrorV::UndefinedVariable(s@),
            EvalError::ArityMismatch(a, b) => EvalErrorV::ArityMismatch(*a, *b),
            EvalError::UnknownBuiltin(s) => EvalErrorV::UnknownBuiltin(s@),
        }
    }
}

/// The union of the four stages' failures: what `evaluate_source` reports.
#[derive(PartialEq, Debug)]
pub enum CoreError {
    Lex(LexError),
    Reorder(ReorderError),
    Build(BuildError),
    Eval(EvalError),
}

/// The mathematical shape of a pipeline failure.
pub enum CoreErrorV {
    Lex(LexErrorV),
    Reorder(ReorderError),
    Build(BuildError),
    Eval(EvalErrorV),
}

impl View for CoreError {
    type V = CoreErrorV;

    open spec fn view(&self) -> CoreErrorV {
        match self {
            CoreError::Lex(e) => CoreErrorV::Lex(e@),
            CoreError::Reorder(e) => CoreErrorV::Reorder(*e),
            CoreError::Build(e) => CoreErrorV::Build(*e),
            CoreError::Eval(e) => CoreErrorV::Eval(e@),
        }
    }
}

} // verus!

//! The lexer: source text to tokens, against a live context.
//!
//! The scanner walks the text left to right with two accumulation buffers,
//! one for a numeric literal and one for an identifier; at most one is ever
//! non-empty.  A numeral is digits with at most one dot, optionally carrying
//! a decimal exponent (`e` or `E`, an optional sign, digits), so a value the
//! renderer writes in scientific notation scans back.  Any other character first flushes the pending buffer — a
//! numeral becomes a `Value` token, an identifier is resolved against the
//! keywords, then the declared functions, then the parameters in scope and
//! the declared variables — and is then handled itself: a `-` right after
//! an operator, after a left parenthesis or at the start is the unary
//! minus; unrecognized characters (whitespace among them) are skipped.
//!
//! The keywords switch the scanner into a declaration mode.  A `function`
//! declaration collects a name and parameter names up to `=` and registers
//! the tokens after `=` as the body; a `var` declaration collects a name,
//! evaluates the tokens after `=` through the whole pipeline and stores the
//! value.  Either registration happens only at the very end, so a failing
//! declaration leaves the context unchanged.
//!
//! The spec functions below state the machine mathematically; `tokenize` is
//! proved equal to them.

use vstd::prelude::*;

use crate::context::Context;
use crate::context::lookup_fn;
use crate::context::lookup_var;
use crate::errors::CoreError;
use crate::errors::CoreErrorV;
use crate::errors::LexError;
use crate::errors::LexErrorV;
use crate::function::Function;
use crate::function::FunctionV;
use crate::num::Number;
use crate::num::dbl_parse;
use crate::reorder::shunting_yard;
use crate::reorder::spec_shunting_yard;
use crate::token::Keyword;
use crate::token::Operator;
use crate::token::Paren;
use crate::token::Token;
use crate::token::TokenV;
use crate::token::spec_keyword;
use crate::token::spec_operator_from_char;
use crate::token::spec_paren_from_char;
use crate::token::tokens_view;
use crate::tree::evaluate;
use crate::tree::spec_eval_post;

verus! {

/// The scanner's declaration mode.
#[derive(Clone, Copy, PartialEq, Eq, Structural, Debug)]
pub enum Declaration {
    Function,
    Variable,
    Outside,
}

/// The scanner state: the two buffers, the declaration mode, whether the
/// `=` of the declaration has passed, the tokens emitted so far, and the
/// captured declaration head (function name and parameters, or variable
/// name).
pub struct LexState {
    pub nbuffer: Seq<char>,
    pub idbuffer: Seq<char>,
    pub decl: Declaration,
    pub past_assign: bool,
    pub tokens: Seq<TokenV>,
    pub fnident: Seq<char>,
    pub argidents: Seq<Seq<char>>,
    pub varident: Seq<char>,
}

/// The scanner's starting state: everything empty, no declaration.
pub open spec fn lex_init() -> LexState {
    LexState {
        nbuffer: Seq::empty(),
        idbuffer: Seq::empty(),
        decl: Declaration::Outside,
        past_assign: false,
        tokens: Seq::empty(),
        fnident: Seq::empty(),
        argidents: Seq::empty(),
        varident: Seq::empty(),
    }
}

/// An ASCII decimal digit.
pub open spec fn spec_is_digit(c: char) -> bool {
    48 <= c as u32 && c as u32 <= 57
}

/// An ASCII letter.
pub open spec fn spec_is_alpha(c: char) -> bool {
    (65 <= c as u32 && c as u32 <= 90) || (97 <= c as u32 && c as u32 <= 122)
}

/// The exponent marker of a numeral.
pub open spec fn spec_is_exp_mark(c: char) -> bool {
    c == 'e' || c == 'E'
}

/// Whether a `-` at this point is the unary minus: nothing was emitted yet,
/// or the last token is an operator or a left parenthesis.
pub open spec fn unary_position(tokens: Seq<TokenV>) -> bool {
    ||| tokens.len() == 0
    ||| tokens.last() matches TokenV::Operator(_)
    ||| tokens.last() == TokenV::Paren(Paren::Left)
}

/// Resolves a flushed identifier that is no keyword and no declaration
/// head: a declared function name becomes a function-reference token, a
/// parameter in scope or a declared variable becomes an identifier token,
/// and anything else is undefined.
pub open spec fn general_resolve(
    st: LexState,
    s: Seq<char>,
    vars: Seq<(Seq<char>, u64)>,
    fns: Seq<(Seq<char>, FunctionV)>,
) -> Result<LexState, CoreErrorV> {
    if lookup_fn(fns, s) is Some {
        Ok(LexState { tokens: st.tokens.push(TokenV::Function(s)), idbuffer: Seq::empty(), ..st })
    } else if st.argidents.contains(s) || lookup_var(vars, s) is Some {
        Ok(
            LexState {
                tokens: st.tokens.push(TokenV::Identifier(s)),
                idbuffer: Seq::empty(),
                ..st
            },
        )
    } else {
        Err(CoreErrorV::Lex(LexErrorV::UndefinedSymbol(s)))
    }
}

/// Flushes the identifier buffer, if it holds anything: a keyword switches
/// the declaration mode; in a `function` declaration the first identifier
/// is the function name and, up to `=`, the rest are parameter names (a
/// repeated name is re-emitted as an identifier token); in a `var`
/// declaration the first identifier is the variable name; everything else
/// resolves as `general_resolve` says.
pub open spec fn spec_flush_ident(
    st: LexState,
    vars: Seq<(Seq<char>, u64)>,
    fns: Seq<(Seq<char>, FunctionV)>,
) -> Result<LexState, CoreErrorV> {
    let s = st.idbuffer;
    if s.len() == 0 {
        Ok(st)
    } else {
        match spec_keyword(s) {
            Some(Keyword::Function) => Ok(
                LexState { decl: Declaration::Function, idbuffer: Seq::empty(), ..st },
            ),
            Some(Keyword::Var) => Ok(
                LexState { decl: Declaration::Variable, idbuffer: Seq::empty(), ..st },
            ),
            None => match st.decl {
                Declaration::Function => {
                    if st.fnident.len() == 0 {
                        Ok(LexState { fnident: s, idbuffer: Seq::empty(), ..st })
                    } else if !st.past_assign {
                        if st.argidents.contains(s) {
                            Ok(
                                LexState {
                                    tokens: st.tokens.push(TokenV::Identifier(s)),
                                    idbuffer: Seq::empty(),
                                    ..st
                                },
                            )
                        } else {
                            Ok(
                                LexState {
                                    argidents: st.argidents.push(s),
                                    idbuffer: Seq::empty(),
                                    ..st
                                },
                            )
                        }
                    } else {
                        general_resolve(st, s, vars, fns)
                    }
                },
                Declaration::Variable => {
                    if st.varident.len() == 0 {
                        Ok(LexState { varident: s, idbuffer: Seq::empty(), ..st })
                    } else {
                        general_resolve(st, s, vars, fns)
                    }
                },
                Declaration::Outside => general_resolve(st, s, vars, fns),
            },
        }
    }
}

/// Flushes the numeric buffer, if it holds anything: the numeral becomes a
/// value token, or the literal is malformed.
pub open spec fn spec_flush_number(st: LexState) -> Result<LexState, CoreErrorV> {
    if st.nbuffer.len() == 0 {
        Ok(st)
    } else {
        match dbl_parse(st.nbuffer) {
            Some(bits) => Ok(
                LexState {
                    tokens: st.tokens.push(TokenV::Value(bits)),
                    nbuffer: Seq::empty(),
                    ..st
                },
            ),
            None => Err(CoreErrorV::Lex(LexErrorV::MalformedNumber)),
        }
    }
}

/// One scanner step on the character `c`.  A numeral may carry a decimal
/// exponent: an `e` or `E` right after digits, then an optional sign, then
/// digits — so a rendered value in scientific notation scans back.
pub open spec fn lex_step(
    st: LexState,
    c: char,
    vars: Seq<(Seq<char>, u64)>,
    fns: Seq<(Seq<char>, FunctionV)>,
) -> Result<LexState, CoreErrorV> {
    if spec_is_digit(c) || c == '.' {
        match spec_flush_ident(st, vars, fns) {
            Err(e) => Err(e),
            Ok(st1) => {
                if c == '.' && (st1.nbuffer.contains('.') || st1.nbuffer.contains('e')
                    || st1.nbuffer.contains('E')) {
                    Err(CoreErrorV::Lex(LexErrorV::MalformedNumber))
                } else {
                    Ok(LexState { nbuffer: st1.nbuffer.push(c), ..st1 })
                }
            },
        }
    } else if spec_is_exp_mark(c) && st.nbuffer.len() > 0 && !st.nbuffer.contains('e')
        && !st.nbuffer.contains('E') {
        Ok(LexState { nbuffer: st.nbuffer.push(c), ..st })
    } else if spec_is_alpha(c) {
        match spec_flush_number(st) {
            Err(e) => Err(e),
            Ok(st1) => Ok(LexState { idbuffer: st1.idbuffer.push(c), ..st1 }),
        }
    } else if (c == '+' || c == '-') && st.nbuffer.len() > 0 && spec_is_exp_mark(
        st.nbuffer.last(),
    ) {
        Ok(LexState { nbuffer: st.nbuffer.push(c), ..st })
    } else {
        match spec_flush_number(st) {
            Err(e) => Err(e),
            Ok(st1) => match spec_flush_ident(st1, vars, fns) {
                Err(e) => Err(e),
                Ok(st2) => {
                    if c == '-' && unary_position(st2.tokens) {
                        Ok(
                            LexState {
                                tokens: st2.tokens.push(TokenV::Operator(Operator::USub)),
                                ..st2
                            },
                        )
                    } else {
                        match spec_operator_from_char(c) {
                            Some(op) => {
                                if op == Operator::Assign {
                                    if st2.decl == Declaration::Outside {
                                        Err(CoreErrorV::Lex(LexErrorV::UnexpectedAssign))
                                    } else {
                                        Ok(LexState { past_assign: true, ..st2 })
                                    }
                                } else {
                                    Ok(
                                        LexState {
                                            tokens: st2.tokens.push(TokenV::Operator(op)),
                                            ..st2
                                        },
                                    )
                                }
                            },
                            None => match spec_paren_from_char(c) {
                                Some(p) => Ok(
                                    LexState { tokens: st2.tokens.push(TokenV::Paren(p)), ..st2 },
                                ),
                                None => Ok(st2),
                            },
                        }
                    }
                },
            },
        }
    }
}

/// The scanner run from position `i` of the source onwards.
pub open spec fn lex_from(
    src: Seq<char>,
    i: int,
    st: LexState,
    vars: Seq<(Seq<char>, u64)>,
    fns: Seq<(Seq<char>, FunctionV)>,
) -> Result<LexState, CoreErrorV>
    decreases src.len() - i,
{
    if i < 0 || i >= src.len() {
        Ok(st)
    } else {
        match lex_step(st, src[i], vars, fns) {
            Err(e) => Err(e),
            Ok(st2) => lex_from(src, i + 1, st2, vars, fns),
        }
    }
}

/// Commits a finished scan: no declaration returns the tokens and leaves
/// the context alone; a `function` declaration registers the definition and
/// returns no tokens; a `var` declaration evaluates the captured tokens
/// through reordering and evaluation and stores the value.  Either
/// declaration without its identifier is refused, and a failure anywhere
/// leaves both tables exactly as they were.
pub open spec fn lex_finish(
    st: LexState,
    vars: Seq<(Seq<char>, u64)>,
    fns: Seq<(Seq<char>, FunctionV)>,
) -> Result<(Seq<TokenV>, Seq<(Seq<char>, u64)>, Seq<(Seq<char>, FunctionV)>), CoreErrorV> {
    match st.decl {
        Declaration::Outside => Ok((st.tokens, vars, fns)),
        Declaration::Function => {
            if st.fnident.len() == 0 {
                Err(CoreErrorV::Lex(LexErrorV::MissingIdentifierAfterKeyword))
            } else {
                let f = FunctionV {
                    ident: st.fnident,
                    args: st.argidents,
                    code: st.tokens,
                    local_idents: st.argidents.map_values(|a: Seq<char>| TokenV::Identifier(a)),
                };
                Ok((Seq::empty(), vars, fns.insert(0, (st.fnident, f))))
            }
        },
        Declaration::Variable => {
            if st.varident.len() == 0 {
                Err(CoreErrorV::Lex(LexErrorV::MissingIdentifierAfterKeyword))
            } else {
                match spec_shunting_yard(st.tokens) {
                    Err(e) => Err(CoreErrorV::Reorder(e)),
                    Ok(post) => match spec_eval_post(post, 0, Seq::empty(), vars, fns, 1) {
                        Err(e) => Err(e),
                        Ok(v) => Ok((st.tokens, vars.insert(0, (st.varident, v)), fns)),
                    },
                }
            }
        },
    }
}

/// The whole scan of a source string under a context: run the machine over
/// every character, flush what the buffers still hold, and commit.
pub open spec fn spec_tokenize(
    src: Seq<char>,
    vars: Seq<(Seq<char>, u64)>,
    fns: Seq<(Seq<char>, FunctionV)>,
) -> Result<(Seq<TokenV>, Seq<(Seq<char>, u64)>, Seq<(Seq<char>, FunctionV)>), CoreErrorV> {
    match lex_from(src, 0, lex_init(), vars, fns) {
        Err(e) => Err(e),
        Ok(st) => match spec_flush_number(st) {
            Err(e) => Err(e),
            Ok(st1) => match spec_flush_ident(st1, vars, fns) {
                Err(e) => Err(e),
                Ok(st2) => lex_finish(st2, vars, fns),
            },
        },
    }
}

// ---------------------------------------------------------------------------
// The lexer's output guarantee: a successful scan emits only values,
// operators other than the assignment, parentheses, identifiers and
// function references — never a keyword or a data tag.
// ---------------------------------------------------------------------------

/// A token the lexer may emit.
pub open spec fn lexed_token(t: TokenV) -> bool {
    match t {
        TokenV::Value(_) => true,
        TokenV::Operator(op) => op != Operator::Assign,
        TokenV::Paren(_) => true,
        TokenV::Identifier(_) => true,
        TokenV::Function(_) => true,
        TokenV::Keyword(_) => false,
        TokenV::Data(_) => false,
    }
}

/// Every token of the stream is one the lexer may emit.
pub open spec fn lexed_ok(ts: Seq<TokenV>) -> bool {
    forall|j: int| 0 <= j < ts.len() ==> lexed_token(#[trigger] ts[j])
}

/// Appending an emittable token keeps the stream emittable.
proof fn lemma_lexed_push(ts: Seq<TokenV>, t: TokenV)
    requires
        lexed_ok(ts),
        lexed_token(t),
    ensures
        lexed_ok(ts.push(t)),
{
    assert forall|j: int| 0 <= j < ts.push(t).len() implies lexed_token(
        #[trigger] ts.push(t)[j],
    ) by {
        if j < ts.len() {
            assert(ts.push(t)[j] == ts[j]);
        }
    }
}

/// Flushing the numeric buffer emits only a value.
proof fn lemma_flush_number_lexed(st: LexState)
    requires
        lexed_ok(st.tokens),
    ensures
        spec_flush_number(st) matches Ok(st2) ==> lexed_ok(st2.tokens),
{
    match spec_flush_number(st) {
        Ok(st2) => {
            if st.nbuffer.len() > 0 {
                match dbl_parse(st.nbuffer) {
                    Some(bits) => {
                        lemma_lexed_push(st.tokens, TokenV::Value(bits));
                    },
                    None => {},
                }
            }
        },
        Err(_) => {},
    }
}

/// Flushing the identifier buffer emits only identifiers and function
/// references.
proof fn lemma_flush_ident_lexed(
    st: LexState,
    vars: Seq<(Seq<char>, u64)>,
    fns: Seq<(Seq<char>, FunctionV)>,
)
    requires
        lexed_ok(st.tokens),
    ensures
        spec_flush_ident(st, vars, fns) matches Ok(st2) ==> lexed_ok(st2.tokens),
{
    let s = st.idbuffer;
    if s.len() > 0 {
        lemma_lexed_push(st.tokens, TokenV::Identifier(s));
        lemma_lexed_push(st.tokens, TokenV::Function(s));
    }
}

/// One scanner step emits only emittable tokens.
proof fn lemma_step_lexed(
    st: LexState,
    c: char,
    vars: Seq<(Seq<char>, u64)>,
    fns: Seq<(Seq<char>, FunctionV)>,
)
    requires
        lexed_ok(st.tokens),
    ensures
        lex_step(st, c, vars, fns) matches Ok(st2) ==> lexed_ok(st2.tokens),
{
    lemma_flush_number_lexed(st);
    lemma_flush_ident_lexed(st, vars, fns);
    match spec_flush_number(st) {
        Ok(st1) => {
            lemma_flush_ident_lexed(st1, vars, fns);
            match spec_flush_ident(st1, vars, fns) {
                Ok(st2) => {
                    lemma_lexed_push(st2.tokens, TokenV::Operator(Operator::USub));
                    match spec_operator_from_char(c) {
                        Some(op) => {
                            if op != Operator::Assign {
                                lemma_lexed_push(st2.tokens, TokenV::Operator(op));
                            }
                        },
                        None => {
                            match spec_paren_from_char(c) {
                                Some(p) => {
                                    lemma_lexed_push(st2.tokens, TokenV::Paren(p));
                                },
                                None => {},
                            }
                        },
                    }
                },
                Err(_) => {},
            }
        },
        Err(_) => {},
    }
}

/// The whole scan emits only emittable tokens.
proof fn lemma_lex_from_lexed(
    ts: Seq<char>,
    i: int,
    st: LexState,
    vars: Seq<(Seq<char>, u64)>,
    fns: Seq<(Seq<char>, FunctionV)>,
)
    requires
        lexed_ok(st.tokens),
    ensures
        lex_from(ts, i, st, vars, fns) matches Ok(st2) ==> lexed_ok(st2.tokens),
    decreases ts.len() - i,
{
    if 0 <= i < ts.len() {
        lemma_step_lexed(st, ts[i], vars, fns);
        match lex_step(st, ts[i], vars, fns) {
            Ok(st2) => {
                lemma_lex_from_lexed(ts, i + 1, st2, vars, fns);
            },
            Err(_) => {},
        }
    }
}

/// The lexer's output guarantee: a token stream a successful scan returns
/// holds only values, operators other than the assignment, parentheses,
/// identifiers and function references — a well-formed candidate for
/// reordering.
pub proof fn lemma_lexer_guarantee(
    src: Seq<char>,
    vars: Seq<(Seq<char>, u64)>,
    fns: Seq<(Seq<char>, FunctionV)>,
)
    ensures
        spec_tokenize(src, vars, fns) matches Ok((tokens, v2, f2)) ==> lexed_ok(tokens),
{
    assert(lexed_ok(lex_init().tokens));
    lemma_lex_from_lexed(src, 0, lex_init(), vars, fns);
    match lex_from(src, 0, lex_init(), vars, fns) {
        Ok(st) => {
            lemma_flush_number_lexed(st);
            match spec_flush_number(st) {
                Ok(st1) => {
                    lemma_flush_ident_lexed(st1, vars, fns);
                    match spec_flush_ident(st1, vars, fns) {
                        Ok(st2) => {
                            assert(lexed_ok(Seq::<TokenV>::empty()));
                        },
                        Err(_) => {},
                    }
                },
                Err(_) => {},
            }
        },
        Err(_) => {},
    }
}

/// Whether a string slice holds the character `c`.
fn str_has_char(t: &str, c: char) -> (r: bool)
    ensures
        r == t@.contains(c),
{
    let n = t.unicode_len();
    let mut i: usize = 0;
    while i < n
        invariant
            0 <= i <= n,
            n == t@.len(),
            forall|j: int| 0 <= j < i ==> t@[j] != c,
        decreases n - i,
    {
        if t.get_char(i) == c {
            assert(t@.contains(c));
            return true;
        }
        i = i + 1;
    }
    assert(!t@.contains(c));
    false
}

/// Whether one of the strings equals `s`.
fn vec_contains_str(v: &Vec<String>, s: &str) -> (r: bool)
    ensures
        r == v.deep_view().contains(s@),
{
    let mut i: usize = 0;
    while i < v.len()
        invariant
            0 <= i <= v.len(),
            forall|j: int| 0 <= j < i ==> v.deep_view()[j] != s@,
        decreases v.len() - i,
    {
        if crate::token::str_eq(v[i].as_str(), s) {
            assert(v.deep_view()[i as int] == s@);
            assert(v.deep_view().contains(s@));
            return true;
        }
        i = i + 1;
    }
    assert(!v.deep_view().contains(s@));
    false
}

/// A copy of a token stream.
pub fn copy_tokens(v: &Vec<Token>) -> (r: Vec<Token>)
    ensures
        tokens_view(r@) == tokens_view(v@),
{
    let mut r: Vec<Token> = Vec::new();
    let mut i: usize = 0;
    proof {
        assert(tokens_view(r@) =~= tokens_view(v@).take(0));
    }
    while i < v.len()
        invariant
            0 <= i <= v.len(),
            tokens_view(r@) == tokens_view(v@).take(i as int),
        decreases v.len() - i,
    {
        let ghost rv = tokens_view(r@);
        r.push(v[i].clone());
        proof {
            assert(tokens_view(r@) =~= rv.push(v@[i as int]@));
            assert(tokens_view(v@).take(i as int + 1) =~= tokens_view(v@).take(i as int).push(
                tokens_view(v@)[i as int],
            ));
        }
        i = i + 1;
    }
    proof {
        assert(tokens_view(v@).take(v@.len() as int) =~= tokens_view(v@));
    }
    r
}

/// The scanner's executable state.
struct Scan {
    nbuffer: String,
    idbuffer: String,
    decl: Declaration,
    past_assign: bool,
    tokens: Vec<Token>,
    fnident: String,
    argidents: Vec<String>,
    varident: String,
}

impl View for Scan {
    type V = LexState;

    closed spec fn view(&self) -> LexState {
        LexState {
            nbuffer: self.nbuffer@,
            idbuffer: self.idbuffer@,
            decl: self.decl,
            past_assign: self.past_assign,
            tokens: tokens_view(self.tokens@),
            fnident: self.fnident@,
            argidents: self.argidents.deep_view(),
            varident: self.varident@,
        }
    }
}

impl Scan {
    /// The starting state.
    fn new() -> (r: Scan)
        ensures
            r@ == lex_init(),
    {
        let r = Scan {
            nbuffer: String::new(),
            idbuffer: String::new(),
            decl: Declaration::Outside,
            past_assign: false,
            tokens: Vec::new(),
            fnident: String::new(),
            argidents: Vec::new(),
            varident: String::new(),
        };
        proof {
            assert(tokens_view(r.tokens@) =~= Seq::<TokenV>::empty());
            assert(r.argidents.deep_view() =~= Seq::<Seq<char>>::empty());
            assert(r@ =~~= lex_init());
        }
        r
    }

    /// Flushes the numeric buffer, as `spec_flush_number` states.
    fn flush_number(&mut self) -> (r: Result<(), CoreError>)
        ensures
            match r {
                Ok(()) => spec_flush_number(old(self)@) == Ok::<LexState, CoreErrorV>(
                    final(self)@,
                ),
                Err(e) => spec_flush_number(old(self)@) == Err::<LexState, CoreErrorV>(e@),
            },
    {
        if self.nbuffer.as_str().is_empty() {
            return Ok(());
        }
        match Number::parse(self.nbuffer.as_str()) {
            Some(n) => {
                let ghost toks = tokens_view(self.tokens@);
                self.tokens.push(Token::Value(n));
                self.nbuffer = String::new();
                proof {
                    assert(tokens_view(self.tokens@) =~= toks.push(TokenV::Value(n.bits)));
                    assert(final(self)@ =~~= (LexState {
                        tokens: old(self)@.tokens.push(TokenV::Value(n.bits)),
                        nbuffer: Seq::empty(),
                        ..old(self)@
                    }));
                }
                Ok(())
            },
            None => Err(CoreError::Lex(LexError::MalformedNumber)),
        }
    }

    /// Flushes the identifier buffer, as `spec_flush_ident` states.
    fn flush_ident(&mut self, ctx: &Context) -> (r: Result<(), CoreError>)
        ensures
            match r {
                Ok(()) => spec_flush_ident(old(self)@, ctx.variables@, ctx.functions@)
                    == Ok::<LexState, CoreErrorV>(final(self)@),
                Err(e) => spec_flush_ident(old(self)@, ctx.variables@, ctx.functions@)
                    == Err::<LexState, CoreErrorV>(e@),
            },
    {
        if self.idbuffer.as_str().is_empty() {
            return Ok(());
        }
        match Keyword::from_str(self.idbuffer.as_str()) {
            Some(Keyword::Function) => {
                self.decl = Declaration::Function;
                self.idbuffer = String::new();
                proof {
                    assert(final(self)@ =~~= (LexState {
                        decl: Declaration::Function,
                        idbuffer: Seq::empty(),
                        ..old(self)@
                    }));
                }
                return Ok(());
            },
            Some(Keyword::Var) => {
                self.decl = Declaration::Variable;
                self.idbuffer = String::new();
                proof {
                    assert(final(self)@ =~~= (LexState {
                        decl: Declaration::Variable,
                        idbuffer: Seq::empty(),
                        ..old(self)@
                    }));
                }
                return Ok(());
            },
            None => {},
        }
        if self.decl == Declaration::Function && self.fnident.as_str().is_empty() {
            self.fnident = self.idbuffer.clone();
            self.idbuffer = String::new();
            proof {
                assert(final(self)@ =~~= (LexState {
                    fnident: old(self)@.idbuffer,
                    idbuffer: Seq::empty(),
                    ..old(self)@
                }));
            }
            return Ok(());
        }
        if self.decl == Declaration::Function && !self.past_assign {
            if vec_contains_str(&self.argidents, self.idbuffer.as_str()) {
                let ghost toks = tokens_view(self.tokens@);
                let s = self.idbuffer.clone();
                self.tokens.push(Token::Identifier(s));
                self.idbuffer = String::new();
                proof {
                    assert(tokens_view(self.tokens@) =~= toks.push(
                        TokenV::Identifier(old(self)@.idbuffer),
                    ));
                    assert(final(self)@ =~~= (LexState {
                        tokens: old(self)@.tokens.push(TokenV::Identifier(old(self)@.idbuffer)),
                        idbuffer: Seq::empty(),
                        ..old(self)@
                    }));
                }
            } else {
                let ghost ids = self.argidents.deep_view();
                let s = self.idbuffer.clone();
                self.argidents.push(s);
                self.idbuffer = String::new();
                proof {
                    assert(self.argidents.deep_view() =~= ids.push(old(self)@.idbuffer));
                    assert(final(self)@ =~~= (LexState {
                        argidents: old(self)@.argidents.push(old(self)@.idbuffer),
                        idbuffer: Seq::empty(),
                        ..old(self)@
                    }));
                }
            }
            return Ok(());
        }
        if self.decl == Declaration::Variable && self.varident.as_str().is_empty() {
            self.varident = self.idbuffer.clone();
            self.idbuffer = String::new();
            proof {
                assert(final(self)@ =~~= (LexState {
                    varident: old(self)@.idbuffer,
                    idbuffer: Seq::empty(),
                    ..old(self)@
                }));
            }
            return Ok(());
        }
        // General resolution, in the order the design fixes: functions,
        // then parameters and variables.
        if ctx.functions.contains_key(self.idbuffer.as_str()) {
            let ghost toks = tokens_view(self.tokens@);
            let s = self.idbuffer.clone();
            self.tokens.push(Token::Function(s));
            self.idbuffer = String::new();
            proof {
                assert(tokens_view(self.tokens@) =~= toks.push(
                    TokenV::Function(old(self)@.idbuffer),
                ));
                assert(final(self)@ =~~= (LexState {
                    tokens: old(self)@.tokens.push(TokenV::Function(old(self)@.idbuffer)),
                    idbuffer: Seq::empty(),
                    ..old(self)@
                }));
            }
            Ok(())
        } else if vec_contains_str(&self.argidents, self.idbuffer.as_str())
            || ctx.variables.contains_key(self.idbuffer.as_str()) {
            let ghost toks = tokens_view(self.tokens@);
            let s = self.idbuffer.clone();
            self.tokens.push(Token::Identifier(s));
            self.idbuffer = String::new();
            proof {
                assert(tokens_view(self.tokens@) =~= toks.push(
                    TokenV::Identifier(old(self)@.idbuffer),
                ));
                assert(final(self)@ =~~= (LexState {
                    tokens: old(self)@.tokens.push(TokenV::Identifier(old(self)@.idbuffer)),
                    idbuffer: Seq::empty(),
                    ..old(self)@
                }));
            }
            Ok(())
        } else {
            Err(CoreError::Lex(LexError::UndefinedSymbol(self.idbuffer.clone())))
        }
    }
}

/// Scans a source string into tokens against the context, exactly as
/// `spec_tokenize` states; a `var` or `function` declaration commits its
/// binding to the context, atomically and only on success.
pub fn tokenize(s: &str, ctx: &mut Context) -> (r: Result<Vec<Token>, CoreError>)
    ensures
        final(ctx).ans == old(ctx).ans,
        match r {
            Ok(v) => spec_tokenize(s@, old(ctx).variables@, old(ctx).functions@) == Ok::<
                (Seq<TokenV>, Seq<(Seq<char>, u64)>, Seq<(Seq<char>, FunctionV)>),
                CoreErrorV,
            >((tokens_view(v@), final(ctx).variables@, final(ctx).functions@)),
            Err(e) => spec_tokenize(s@, old(ctx).variables@, old(ctx).functions@) == Err::<
                (Seq<TokenV>, Seq<(Seq<char>, u64)>, Seq<(Seq<char>, FunctionV)>),
                CoreErrorV,
            >(e@) && final(ctx).variables@ == old(ctx).variables@ && final(ctx).functions@ == old(
                ctx,
            ).functions@,
        },
{
    let ghost src = s@;
    let ghost vars0 = ctx.variables@;
    let ghost fns0 = ctx.functions@;
    let mut sc = Scan::new();
    let n = s.unicode_len();
    let mut i: usize = 0;
    while i < n
        invariant
            0 <= i <= n,
            n == src.len(),
            src == s@,
            vars0 == ctx.variables@,
            fns0 == ctx.functions@,
            ctx.ans == old(ctx).ans,
            vars0 == old(ctx).variables@,
            fns0 == old(ctx).functions@,
            lex_from(src, 0, lex_init(), vars0, fns0) == lex_from(src, i as int, sc@, vars0, fns0),
        decreases n - i,
    {
        let c = s.get_char(i);
        let is_digit = (c as u32) >= 48 && (c as u32) <= 57;
        let is_alpha = ((c as u32) >= 65 && (c as u32) <= 90) || ((c as u32) >= 97 && (c as u32)
            <= 122);
        let nb_empty = sc.nbuffer.as_str().is_empty();
        let mark_cont = (c == 'e' || c == 'E') && !nb_empty && !str_has_char(
            sc.nbuffer.as_str(),
            'e',
        ) && !str_has_char(sc.nbuffer.as_str(), 'E');
        let mut sign_cont = false;
        if (c == '+' || c == '-') && !nb_empty {
            let bl = sc.nbuffer.as_str().unicode_len();
            let last = sc.nbuffer.as_str().get_char(bl - 1);
            sign_cont = last == 'e' || last == 'E';
        }
        if is_digit || c == '.' {
            match sc.flush_ident(ctx) {
                Ok(()) => {},
                Err(e) => {
                    return Err(e);
                },
            }
            if c == '.' && (str_has_char(sc.nbuffer.as_str(), '.') || str_has_char(
                sc.nbuffer.as_str(),
                'e',
            ) || str_has_char(sc.nbuffer.as_str(), 'E')) {
                return Err(CoreError::Lex(LexError::MalformedNumber));
            }
            let ghost pre = sc@;
            let piece = s.substring_char(i, i + 1);
            sc.nbuffer.append(piece);
            proof {
                assert(piece@ =~= seq![c]);
                assert(sc.nbuffer@ =~= pre.nbuffer.push(c));
                assert(sc@ =~~= (LexState { nbuffer: pre.nbuffer.push(c), ..pre }));
            }
        } else if mark_cont {
            let ghost pre = sc@;
            let piece = s.substring_char(i, i + 1);
            sc.nbuffer.append(piece);
            proof {
                assert(piece@ =~= seq![c]);
                assert(sc.nbuffer@ =~= pre.nbuffer.push(c));
                assert(sc@ =~~= (LexState { nbuffer: pre.nbuffer.push(c), ..pre }));
            }
        } else if is_alpha {
            match sc.flush_number() {
                Ok(()) => {},
                Err(e) => {
                    return Err(e);
                },
            }
            let ghost pre = sc@;
            let piece = s.substring_char(i, i + 1);
            sc.idbuffer.append(piece);
            proof {
                assert(piece@ =~= seq![c]);
                assert(sc.idbuffer@ =~= pre.idbuffer.push(c));
                assert(sc@ =~~= (LexState { idbuffer: pre.idbuffer.push(c), ..pre }));
            }
        } else if sign_cont {
            let ghost pre = sc@;
            let piece = s.substring_char(i, i + 1);
            sc.nbuffer.append(piece);
            proof {
                assert(piece@ =~= seq![c]);
                assert(sc.nbuffer@ =~= pre.nbuffer.push(c));
                assert(sc@ =~~= (LexState { nbuffer: pre.nbuffer.push(c), ..pre }));
            }
        } else {
            match sc.flush_number() {
                Ok(()) => {},
                Err(e) => {
                    return Err(e);
                },
            }
            match sc.flush_ident(ctx) {
                Ok(()) => {},
                Err(e) => {
                    return Err(e);
                },
            }
            let is_unary = c == '-' && {
                if sc.tokens.len() == 0 {
                    true
                } else {
                    match &sc.tokens[sc.tokens.len() - 1] {
                        Token::Operator(_) => true,
                        Token::Paren(p) => p.is_left(),
                        _ => false,
                    }
                }
            };
            proof {
                if sc.tokens@.len() > 0 {
                    assert(tokens_view(sc.tokens@).last() == sc.tokens@.last()@);
                }
            }
            if is_unary {
                let ghost pre = sc@;
                sc.tokens.push(Token::Operator(Operator::USub));
                proof {
                    assert(tokens_view(sc.tokens@) =~= pre.tokens.push(
                        TokenV::Operator(Operator::USub),
                    ));
                    assert(sc@ =~~= (LexState {
                        tokens: pre.tokens.push(TokenV::Operator(Operator::USub)),
                        ..pre
                    }));
                }
            } else {
                match Operator::from_char(c) {
                    Some(op) => {
                        if op == Operator::Assign {
                            if sc.decl == Declaration::Outside {
                                return Err(CoreError::Lex(LexError::UnexpectedAssign));
                            }
                            let ghost pre = sc@;
                            sc.past_assign = true;
                            proof {
                                assert(sc@ =~~= (LexState { past_assign: true, ..pre }));
                            }
                        } else {
                            let ghost pre = sc@;
                            sc.tokens.push(Token::Operator(op));
                            proof {
                                assert(tokens_view(sc.tokens@) =~= pre.tokens.push(
                                    TokenV::Operator(op),
                                ));
                                assert(sc@ =~~= (LexState {
                                    tokens: pre.tokens.push(TokenV::Operator(op)),
                                    ..pre
                                }));
                            }
                        }
                    },
                    None => {
                        match Paren::from_char(c) {
                            Some(p) => {
                                let ghost pre = sc@;
                                sc.tokens.push(Token::Paren(p));
                                proof {
                                    assert(tokens_view(sc.tokens@) =~= pre.tokens.push(
                                        TokenV::Paren(p),
                                    ));
                                    assert(sc@ =~~= (LexState {
                                        tokens: pre.tokens.push(TokenV::Paren(p)),
                                        ..pre
                                    }));
                                }
                            },
                            None => {},
                        }
                    },
                }
            }
        }
        i = i + 1;
    }

    // End of input: flush what the buffers still hold, then commit.
    match sc.flush_number() {
        Ok(()) => {},
        Err(e) => {
            return Err(e);
        },
    }
    match sc.flush_ident(ctx) {
        Ok(()) => {},
        Err(e) => {
            return Err(e);
        },
    }
    match sc.decl {
        Declaration::Outside => Ok(sc.tokens),
        Declaration::Function => {
            if sc.fnident.as_str().is_empty() {
                return Err(CoreError::Lex(LexError::MissingIdentifierAfterKeyword));
            }
            let name = sc.fnident.clone();
            let f = Function::new(sc.fnident, sc.argidents, sc.tokens);
            proof {
                assert(f@.local_idents =~= f@.args.map_values(
                    |a: Seq<char>| TokenV::Identifier(a),
                ));
            }
            ctx.functions.insert(name, f);
            let empty: Vec<Token> = Vec::new();
            proof {
                assert(tokens_view(empty@) =~= Seq::<TokenV>::empty());
            }
            Ok(empty)
        },
        Declaration::Variable => {
            if sc.varident.as_str().is_empty() {
                return Err(CoreError::Lex(LexError::MissingIdentifierAfterKeyword));
            }
            let copy = copy_tokens(&sc.tokens);
            match shunting_yard(copy) {
                Err(e) => Err(CoreError::Reorder(e)),
                Ok(post) => match evaluate(&post, ctx) {
                    Err(e) => Err(e),
                    Ok(v) => {
                        ctx.variables.insert(sc.varident, v);
                        Ok(sc.tokens)
                    },
                },
            }
        },
    }
}

} // verus!

//! Lexical units of the calculator.
//!
//! A token is a number, an operator, a parenthesis, a keyword, a reference
//! to a declared function (by name), a free identifier, or a raw data tag
//! (the sentinel bodies of the builtin functions).  Tokens are immutable
//! once produced and equality is structural.

use vstd::prelude::*;

use crate::num::Number;
use crate::num::dbl_add;
use crate::num::dbl_parse;
use crate::num::dbl_div;
use crate::num::dbl_mul;
use crate::num::dbl_pow;
use crate::num::dbl_sub;
use crate::num::spec_is_zero;
use crate::num::spec_neg;

verus! {

/// Relies on str's `PartialEq`: equality of two string slices is equality
/// of their character contents.
#[verifier::external_body]
pub fn str_eq(a: &str, b: &str) -> (r: bool)
    ensures
        r == (a@ == b@),
{
    a == b
}

/// A declaration keyword.
#[derive(Clone, Copy, PartialEq, Eq, Structural, Debug)]
pub enum Keyword {
    Var,
    Function,
}

/// Whether `c` is the letter `l` or its ASCII-uppercase form: the case
/// folding the keyword match applies.
pub open spec fn char_folds_to(c: char, l: char) -> bool {
    c == l || (65 <= c as u32 && c as u32 <= 90 && c as u32 + 32 == l as u32)
}

/// Whether `s` spells the lowercase word `kw`, ignoring ASCII case.
pub open spec fn folds_to(s: Seq<char>, kw: Seq<char>) -> bool {
    s.len() == kw.len() && forall|i: int| 0 <= i < s.len() ==> char_folds_to(#[trigger] s[i], kw[i])
}

/// Whether `s` spells the lowercase word `kw`, ignoring ASCII case,
/// compared character by character.
fn str_folds_to(s: &str, kw: &str) -> (r: bool)
    ensures
        r == folds_to(s@, kw@),
{
    let n = s.unicode_len();
    if n != kw.unicode_len() {
        return false;
    }
    let mut i: usize = 0;
    while i < n
        invariant
            0 <= i <= n,
            n == s@.len(),
            n == kw@.len(),
            forall|j: int| 0 <= j < i ==> char_folds_to(#[trigger] s@[j], kw@[j]),
        decreases n - i,
    {
        let c = s.get_char(i);
        let l = kw.get_char(i);
        let folds = c == l || ((c as u32) >= 65 && (c as u32) <= 90 && (c as u32) + 32 == (l
            as u32));
        if !folds {
            assert(!char_folds_to(s@[i as int], kw@[i as int]));
            return false;
        }
        i = i + 1;
    }
    true
}

impl Keyword {
    /// The keyword written `s`, if any, ignoring ASCII case: `var`/`let`
    /// declare a variable and `fn`/`func`/`function` declare a function.
    pub fn from_str(s: &str) -> (r: Option<Keyword>)
        ensures
            r == spec_keyword(s@),
    {
        if str_folds_to(s, "var") || str_folds_to(s, "let") {
            Some(Keyword::Var)
        } else if str_folds_to(s, "fn") || str_folds_to(s, "func") || str_folds_to(s, "function") {
            Some(Keyword::Function)
        } else {
            None
        }
    }
}

/// The keyword that the word `s` denotes, if any; the match ignores ASCII
/// case, so `VAR` and `Let` declare like `var` and `let`.
pub open spec fn spec_keyword(s: Seq<char>) -> Option<Keyword> {
    if folds_to(s, "var"@) || folds_to(s, "let"@) {
        Some(Keyword::Var)
    } else if folds_to(s, "fn"@) || folds_to(s, "func"@) || folds_to(s, "function"@) {
        Some(Keyword::Function)
    } else {
        None
    }
}

/// An arithmetic operator.  `USub` is the unary minus; `Assign` only ever
/// appears between a declaration head and its body and never reaches the
/// reordering stage.
#[derive(Clone, Copy, PartialEq, Eq, Structural, Debug)]
pub enum Operator {
    Add,
    Sub,
    Mul,
    Div,
    Pow,
    USub,
    Assign,
}

/// The operator denoted by the character `c`, if any.
pub open spec fn spec_operator_from_char(c: char) -> Option<Operator> {
    if c == '+' {
        Some(Operator::Add)
    } else if c == '-' {
        Some(Operator::Sub)
    } else if c == '*' {
        Some(Operator::Mul)
    } else if c == '/' {
        Some(Operator::Div)
    } else if c == '^' {
        Some(Operator::Pow)
    } else if c == '#' {
        Some(Operator::USub)
    } else if c == '=' {
        Some(Operator::Assign)
    } else {
        None
    }
}

/// The character that renders the operator.
pub open spec fn spec_operator_to_char(op: Operator) -> char {
    match op {
        Operator::Add => '+',
        Operator::Sub => '-',
        Operator::Mul => '*',
        Operator::Div => '/',
        Operator::Pow => '^',
        Operator::USub => '#',
        Operator::Assign => '=',
    }
}

impl Operator {
    /// The operator denoted by `c`, if any; `#` denotes the unary minus.
    pub fn from_char(c: char) -> (r: Option<Operator>)
        ensures
            r == spec_operator_from_char(c),
    {
        match c {
            '+' => Some(Operator::Add),
            '-' => Some(Operator::Sub),
            '*' => Some(Operator::Mul),
            '/' => Some(Operator::Div),
            '^' => Some(Operator::Pow),
            '#' => Some(Operator::USub),
            '=' => Some(Operator::Assign),
            _ => None,
        }
    }

    /// The character that renders the operator.
    pub fn to_char(&self) -> (r: char)
        ensures
            r == spec_operator_to_char(*self),
    {
        match self {
            Operator::Add => '+',
            Operator::Sub => '-',
            Operator::Mul => '*',
            Operator::Div => '/',
            Operator::Pow => '^',
            Operator::USub => '#',
            Operator::Assign => '=',
        }
    }

    /// Applies the operator to two values; the unary minus negates `right`
    /// and ignores `left`.  Callers rule out `Assign` and a division by
    /// zero, on which the operator has no result.
    pub fn evaluate(&self, left: Number, right: Number) -> (r: Number)
        requires
            *self != Operator::Assign,
            *self == Operator::Div ==> !spec_is_zero(right.bits),
        ensures
            r.bits == spec_apply(*self, left.bits, right.bits),
    {
        match self {
            Operator::Add => left.add(&right),
            Operator::Sub => left.sub(&right),
            Operator::Mul => left.mul(&right),
            Operator::Div => left.div(&right),
            Operator::Pow => left.pow(&right),
            Operator::USub => right.neg(),
            Operator::Assign => Number { bits: 0 },  // ruled out by the precondition
        }
    }
}

/// The value of a binary (or unary-minus) application on encodings.
pub open spec fn spec_apply(op: Operator, l: u64, r: u64) -> u64 {
    match op {
        Operator::Add => dbl_add(l, r),
        Operator::Sub => dbl_sub(l, r),
        Operator::Mul => dbl_mul(l, r),
        Operator::Div => dbl_div(l, r),
        Operator::Pow => dbl_pow(l, r),
        Operator::USub => spec_neg(r),
        Operator::Assign => 0,
    }
}

/// A parenthesis.
#[derive(Clone, Copy, PartialEq, Eq, Structural, Debug)]
pub enum Paren {
    Left,
    Right,
}

/// The parenthesis denoted by the character `c`, if any.
pub open spec fn spec_paren_from_char(c: char) -> Option<Paren> {
    if c == '(' {
        Some(Paren::Left)
    } else if c == ')' {
        Some(Paren::Right)
    } else {
        None
    }
}

impl Paren {
    /// The parenthesis denoted by `c`, if any.
    pub fn from_char(c: char) -> (r: Option<Paren>)
        ensures
            r == spec_paren_from_char(c),
    {
        match c {
            '(' => Some(Paren::Left),
            ')' => Some(Paren::Right),
            _ => None,
        }
    }

    /// The character that renders the parenthesis.
    pub fn to_char(&self) -> (r: char)
        ensures
            *self == Paren::Left ==> r == '(',
            *self == Paren::Right ==> r == ')',
    {
        match self {
            Paren::Left => '(',
            Paren::Right => ')',
        }
    }

    /// Whether this is the left (opening) parenthesis.
    pub fn is_left(&self) -> (r: bool)
        ensures
            r == (*self == Paren::Left),
    {
        match self {
            Paren::Left => true,
            Paren::Right => false,
        }
    }

    /// Whether this is the right (closing) parenthesis.
    pub fn is_right(&self) -> (r: bool)
        ensures
            r == (*self == Paren::Right),
    {
        match self {
            Paren::Left => false,
            Paren::Right => true,
        }
    }
}

/// A lexical unit.  A `Function` token refers to a declared function by
/// name; the definition itself lives in the evaluation context.  A `Data`
/// token carries a sentinel tag and appears only inside builtin function
/// bodies.
#[derive(PartialEq, Debug)]
pub enum Token {
    Operator(Operator),
    Value(Number),
    Paren(Paren),
    Keyword(Keyword),
    Function(String),
    Identifier(String),
    Data(String),
}

/// The mathematical shape of a token: strings become character sequences
/// and values become their encodings.
pub enum TokenV {
    Operator(Operator),
    Value(u64),
    Paren(Paren),
    Keyword(Keyword),
    Function(Seq<char>),
    Identifier(Seq<char>),
    Data(Seq<char>),
}

/// The token a literal denotes: a numeral becomes a value; otherwise the
/// first character decides between an operator and a parenthesis; anything
/// else is kept as an identifier.
pub open spec fn spec_token_new(s: Seq<char>) -> TokenV {
    if dbl_parse(s) is Some {
        TokenV::Value(dbl_parse(s)->Some_0)
    } else if s.len() >= 1 && spec_operator_from_char(s[0]) is Some {
        TokenV::Operator(spec_operator_from_char(s[0])->Some_0)
    } else if s.len() >= 1 && spec_paren_from_char(s[0]) is Some {
        TokenV::Paren(spec_paren_from_char(s[0])->Some_0)
    } else {
        TokenV::Identifier(s)
    }
}

impl Token {
    /// The token written `literal`, as `spec_token_new` states.
    pub fn new(literal: &str) -> (r: Token)
        ensures
            r@ == spec_token_new(literal@),
    {
        match Number::parse(literal) {
            Some(n) => Token::Value(n),
            None => {
                if literal.unicode_len() >= 1 {
                    let c = literal.get_char(0);
                    match Operator::from_char(c) {
                        Some(op) => Token::Operator(op),
                        None => match Paren::from_char(c) {
                            Some(p) => Token::Paren(p),
                            None => Token::Identifier(String::from_str(literal)),
                        },
                    }
                } else {
                    Token::Identifier(String::from_str(literal))
                }
            },
        }
    }
}

impl Clone for Token {
    /// A clone is the same token.
    fn clone(&self) -> (r: Self)
        ensures
            r == *self,
    {
        match self {
            Token::Operator(op) => Token::Operator(*op),
            Token::Value(n) => Token::Value(*n),
            Token::Paren(p) => Token::Paren(*p),
            Token::Keyword(k) => Token::Keyword(*k),
            Token::Function(s) => Token::Function(s.clone()),
            Token::Identifier(s) => Token::Identifier(s.clone()),
            Token::Data(s) => Token::Data(s.clone()),
        }
    }
}

impl View for Token {
    type V = TokenV;

    open spec fn view(&self) -> TokenV {
        match self {
            Token::Operator(op) => TokenV::Operator(*op),
            Token::Value(n) => TokenV::Value(n.bits),
            Token::Paren(p) => TokenV::Paren(*p),
            Token::Keyword(k) => TokenV::Keyword(*k),
            Token::Function(s) => TokenV::Function(s@),
            Token::Identifier(s) => TokenV::Identifier(s@),
            Token::Data(s) => TokenV::Data(s@),
        }
    }
}

/// The views of a token sequence.
pub open spec fn tokens_view(ts: Seq<Token>) -> Seq<TokenV> {
    ts.map_values(|t: Token| t@)
}

/// The reordering precedence of a token: operators bind as Add/Sub = 2,
/// Mul/Div = 3, Pow = 4, unary minus = 5, Assign = 6; a function reference
/// binds tighter than every operator, and everything else has no binding
/// power.
pub open spec fn spec_precedence(t: TokenV) -> u32 {
    match t {
        TokenV::Operator(op) => match op {
            Operator::Add => 2,
            Operator::Sub => 2,
            Operator::Mul => 3,
            Operator::Div => 3,
            Operator::Pow => 4,
            Operator::USub => 5,
            Operator::Assign => 6,
        },
        TokenV::Function(_) => 7,
        _ => 0,
    }
}

/// The reordering precedence of a token.
pub fn precedence(token: &Token) -> (r: u32)
    ensures
        r == spec_precedence(token@),
{
    match token {
        Token::Operator(op) => match op {
            Operator::Add => 2,
            Operator::Sub => 2,
            Operator::Mul => 3,
            Operator::Div => 3,
            Operator::Pow => 4,
            Operator::USub => 5,
            Operator::Assign => 6,
        },
        Token::Function(_) => 7,
        _ => 0,
    }
}

/// True for the tokens that group to the right when precedences tie: the
/// power operator, the unary minus and function references.
pub open spec fn spec_right_assoc(t: TokenV) -> bool {
    match t {
        TokenV::Operator(op) => op == Operator::Pow || op == Operator::USub,
        TokenV::Function(_) => true,
        _ => false,
    }
}

/// Whether the token groups to the right when precedences tie.
pub fn right_assoc(token: &Token) -> (r: bool)
    ensures
        r == spec_right_assoc(token@),
{
    match token {
        Token::Operator(op) => match op {
            Operator::Pow => true,
            Operator::USub => true,
            _ => false,
        },
        Token::Function(_) => true,
        _ => false,
    }
}

} // verus!

//! The evaluation context: the one piece of long-lived, mutable state.
//!
//! A context owns a name-to-definition table for functions, a
//! name-to-value table for variables and a last-answer register.  It is
//! read by the lexer (to classify bare identifiers) and by the evaluator
//! (to resolve identifier and function tokens), and written by declaration
//! processing.  Each table is an association list searched from the front,
//! so a new binding shadows an older one of the same name.

use vstd::prelude::*;

use crate::function::Function;
use crate::function::FunctionV;
use crate::num::Number;
use crate::num::ZERO_BITS;
use crate::token::Token;
use crate::token::TokenV;
use crate::token::str_eq;

verus! {

/// The value bound to `k`, reading the binding list from the front.
pub open spec fn lookup_var(s: Seq<(Seq<char>, u64)>, k: Seq<char>) -> Option<u64>
    decreases s.len(),
{
    if s.len() == 0 {
        None
    } else if s[0].0 == k {
        Some(s[0].1)
    } else {
        lookup_var(s.subrange(1, s.len() as int), k)
    }
}

/// The definition bound to `k`, reading the binding list from the front.
pub open spec fn lookup_fn(s: Seq<(Seq<char>, FunctionV)>, k: Seq<char>) -> Option<FunctionV>
    decreases s.len(),
{
    if s.len() == 0 {
        None
    } else if s[0].0 == k {
        Some(s[0].1)
    } else {
        lookup_fn(s.subrange(1, s.len() as int), k)
    }
}

/// The variable table: names bound to values.
pub struct VarTable {
    entries: Vec<(String, Number)>,
}

impl View for VarTable {
    type V = Seq<(Seq<char>, u64)>;

    closed spec fn view(&self) -> Seq<(Seq<char>, u64)> {
        self.entries@.map_values(|p: (String, Number)| (p.0@, p.1.bits))
    }
}

impl VarTable {
    /// An empty table.
    pub fn new() -> (r: VarTable)
        ensures
            r@ == Seq::<(Seq<char>, u64)>::empty(),
    {
        let t = VarTable { entries: Vec::new() };
        proof {
            assert(t@ =~= Seq::<(Seq<char>, u64)>::empty());
        }
        t
    }

    /// The value bound to `name`, if any.
    pub fn get(&self, name: &str) -> (r: Option<Number>)
        ensures
            match r {
                Some(n) => lookup_var(self@, name@) == Some(n.bits),
                None => lookup_var(self@, name@) is None,
            },
    {
        let mut i: usize = 0;
        proof {
            assert(self@.subrange(0, self@.len() as int) =~= self@);
        }
        while i < self.entries.len()
            invariant
                0 <= i <= self.entries.len(),
                lookup_var(self@, name@) == lookup_var(
                    self@.subrange(i as int, self@.len() as int),
                    name@,
                ),
            decreases self.entries.len() - i,
        {
            if str_eq(self.entries[i].0.as_str(), name) {
                return Some(self.entries[i].1);
            }
            proof {
                assert(self@.subrange(i as int, self@.len() as int).subrange(
                    1,
                    self@.len() - i as int,
                ) =~= self@.subrange(i as int + 1, self@.len() as int));
            }
            i = i + 1;
        }
        None
    }

    /// Whether `name` is bound.
    pub fn contains_key(&self, name: &str) -> (r: bool)
        ensures
            r == (lookup_var(self@, name@) is Some),
    {
        match self.get(name) {
            Some(_) => true,
            None => false,
        }
    }

    /// Binds `name` to `v`; the new binding shadows any older one.
    pub fn insert(&mut self, name: String, v: Number)
        ensures
            final(self)@ == old(self)@.insert(0, (name@, v.bits)),
    {
        self.entries.insert(0, (name, v));
        proof {
            assert(self@ =~= old(self)@.insert(0, (name@, v.bits)));
        }
    }

    /// Adds a binding behind the existing ones: an older binding of the
    /// same name keeps precedence.  This builds positional binding lists in
    /// order.
    pub fn append(&mut self, name: String, v: Number)
        ensures
            final(self)@ == old(self)@.push((name@, v.bits)),
    {
        self.entries.push((name, v));
        proof {
            assert(self@ =~= old(self)@.push((name@, v.bits)));
        }
    }

    /// The number of bindings, shadowed ones included.
    pub fn len(&self) -> (r: usize)
        ensures
            r == self@.len(),
    {
        self.entries.len()
    }
}

/// The function table: names bound to definitions.
pub struct FnTable {
    entries: Vec<(String, Function)>,
}

impl View for FnTable {
    type V = Seq<(Seq<char>, FunctionV)>;

    closed spec fn view(&self) -> Seq<(Seq<char>, FunctionV)> {
        self.entries@.map_values(|p: (String, Function)| (p.0@, p.1@))
    }
}

impl FnTable {
    /// An empty table.
    pub fn new() -> (r: FnTable)
        ensures
            r@ == Seq::<(Seq<char>, FunctionV)>::empty(),
    {
        let t = FnTable { entries: Vec::new() };
        proof {
            assert(t@ =~= Seq::<(Seq<char>, FunctionV)>::empty());
        }
        t
    }

    /// The definition bound to `name`, if any.
    pub fn get(&self, name: &str) -> (r: Option<&Function>)
        ensures
            match r {
                Some(f) => lookup_fn(self@, name@) == Some(f@),
                None => lookup_fn(self@, name@) is None,
            },
    {
        let mut i: usize = 0;
        proof {
            assert(self@.subrange(0, self@.len() as int) =~= self@);
        }
        while i < self.entries.len()
            invariant
                0 <= i <= self.entries.len(),
                lookup_fn(self@, name@) == lookup_fn(
                    self@.subrange(i as int, self@.len() as int),
                    name@,
                ),
            decreases self.entries.len() - i,
        {
            if str_eq(self.entries[i].0.as_str(), name) {
                return Some(&self.entries[i].1);
            }
            proof {
                assert(self@.subrange(i as int, self@.len() as int).subrange(
                    1,
                    self@.len() - i as int,
                ) =~= self@.subrange(i as int + 1, self@.len() as int));
            }
            i = i + 1;
        }
        None
    }

    /// Whether `name` is bound.
    pub fn contains_key(&self, name: &str) -> (r: bool)
        ensures
            r == (lookup_fn(self@, name@) is Some),
    {
        match self.get(name) {
            Some(_) => true,
            None => false,
        }
    }

    /// Binds `name` to `f`; the new binding shadows any older one.
    pub fn insert(&mut self, name: String, f: Function)
        ensures
            final(self)@ == old(self)@.insert(0, (name@, f@)),
    {
        self.entries.insert(0, (name, f));
        proof {
            assert(self@ =~= old(self)@.insert(0, (name@, f@)));
        }
    }
}

/// The shared evaluation context.
pub struct Context {
    pub functions: FnTable,
    pub variables: VarTable,
    pub ans: Number,
}

/// The definition of one builtin: placeholder parameter names, one per
/// argument, and a single sentinel data token as the body.
pub open spec fn builtin_def(name: Seq<char>, tag: Seq<char>, arity: int) -> FunctionV {
    FunctionV {
        ident: name,
        args: if arity == 1 {
            seq!["_"@]
        } else {
            seq!["_"@, "_"@]
        },
        code: seq![TokenV::Data(tag)],
        local_idents: if arity == 1 {
            seq![TokenV::Identifier("_"@)]
        } else {
            seq![TokenV::Identifier("_"@), TokenV::Identifier("_"@)]
        },
    }
}

/// The function table of a fresh context: the nine builtins, later
/// registrations first.
pub open spec fn builtin_table() -> Seq<(Seq<char>, FunctionV)> {
    seq![
        ("sum"@, builtin_def("sum"@, "##sum"@, 2)),
        ("max"@, builtin_def("max"@, "##max"@, 2)),
        ("min"@, builtin_def("min"@, "##min"@, 2)),
        ("atan"@, builtin_def("atan"@, "##atan"@, 1)),
        ("acos"@, builtin_def("acos"@, "##acos"@, 1)),
        ("asin"@, builtin_def("asin"@, "##asin"@, 1)),
        ("tan"@, builtin_def("tan"@, "##tan"@, 1)),
        ("cos"@, builtin_def("cos"@, "##cos"@, 1)),
        ("sin"@, builtin_def("sin"@, "##sin"@, 1)),
    ]
}

impl Context {
    /// A fresh context: no variables, a zero last answer, and the nine
    /// builtin functions registered under their names, each with the arity
    /// its native operation takes (`sum` is registered binary but accepts
    /// any number of arguments).
    pub fn new() -> (r: Context)
        ensures
            r.variables@ == Seq::<(Seq<char>, u64)>::empty(),
            r.ans.bits == ZERO_BITS,
            r.functions@ == builtin_table(),
    {
        let mut functions = FnTable::new();
        functions.insert(String::from_str("sin"), Context::builtin("sin", "##sin", 1));
        functions.insert(String::from_str("cos"), Context::builtin("cos", "##cos", 1));
        functions.insert(String::from_str("tan"), Context::builtin("tan", "##tan", 1));
        functions.insert(String::from_str("asin"), Context::builtin("asin", "##asin", 1));
        functions.insert(String::from_str("acos"), Context::builtin("acos", "##acos", 1));
        functions.insert(String::from_str("atan"), Context::builtin("atan", "##atan", 1));
        functions.insert(String::from_str("min"), Context::builtin("min", "##min", 2));
        functions.insert(String::from_str("max"), Context::builtin("max", "##max", 2));
        functions.insert(String::from_str("sum"), Context::builtin("sum", "##sum", 2));
        proof {
            assert(functions@ =~= builtin_table());
        }
        Context { functions, variables: VarTable::new(), ans: Number { bits: ZERO_BITS } }
    }

    /// One builtin definition.
    fn builtin(ident: &str, tag: &str, arity: usize) -> (r: Function)
        requires
            1 <= arity <= 2,
        ensures
            r@ == builtin_def(ident@, tag@, arity as int),
    {
        let mut args: Vec<String> = Vec::new();
        args.push(String::from_str("_"));
        if arity == 2 {
            args.push(String::from_str("_"));
        }
        let mut code: Vec<Token> = Vec::new();
        code.push(Token::Data(String::from_str(tag)));
        let f = Function::new(String::from_str(ident), args, code);
        proof {
            if arity == 1 {
                assert(f@.args =~= seq!["_"@]);
                assert(f@.local_idents =~= seq![TokenV::Identifier("_"@)]);
            } else {
                assert(f@.args =~= seq!["_"@, "_"@]);
                assert(f@.local_idents =~= seq![TokenV::Identifier("_"@), TokenV::Identifier("_"@)]);
            }
            assert(f@.code =~= seq![TokenV::Data(tag@)]);
        }
        f
    }
}

} // verus!

//! The fixed table of named constants and functions.
use vstd::prelude::*;

verus! {

/// A name the table knows: a constant (arity 0) or a function of one or two
/// arguments.
#[derive(Clone, Copy, Debug, PartialEq, Eq, Structural)]
pub enum Builtin {
    Pi,
    E,
    Sin,
    Cos,
    Tan,
    Sqrt,
    Abs,
    Ln,
    Log10,
    Exp,
    Floor,
    Ceil,
    Pow,
}

/// Number of arguments `b` takes.
pub open spec fn arity_of(b: Builtin) -> nat {
    match b {
        Builtin::Pi | Builtin::E => 0,
        Builtin::Pow => 2,
        _ => 1,
    }
}

/// The entry named `n`, matched exactly and case-sensitively.
pub open spec fn builtin_of(n: Seq<char>) -> Option<Builtin> {
    if n == seq!['p', 'i'] {
        Some(Builtin::Pi)
    } else if n == seq!['e'] {
        Some(Builtin::E)
    } else if n == seq!['s', 'i', 'n'] {
        Some(Builtin::Sin)
    } else if n == seq!['c', 'o', 's'] {
        Some(Builtin::Cos)
    } else if n == seq!['t', 'a', 'n'] {
        Some(Builtin::Tan)
    } else if n == seq!['s', 'q', 'r', 't'] {
        Some(Builtin::Sqrt)
    } else if n == seq!['a', 'b', 's'] {
        Some(Builtin::Abs)
    } else if n == seq!['l', 'n'] {
        Some(Builtin::Ln)
    } else if n == seq!['l', 'o', 'g', '1', '0'] {
        Some(Builtin::Log10)
    } else if n == seq!['e', 'x', 'p'] {
        Some(Builtin::Exp)
    } else if n == seq!['f', 'l', 'o', 'o', 'r'] {
        Some(Builtin::Floor)
    } else if n == seq!['c', 'e', 'i', 'l'] {
        Some(Builtin::Ceil)
    } else if n == seq!['p', 'o', 'w'] {
        Some(Builtin::Pow)
    } else {
        None
    }
}

impl Builtin {
    /// Number of arguments this entry takes.
    pub fn arity(self) -> (r: usize)
        ensures
            r == arity_of(self),
    {
        match self {
            Builtin::Pi | Builtin::E => 0,
            Builtin::Pow => 2,
            _ => 1,
        }
    }
}

fn named(name: &String, lit: &str) -> (r: bool)
    ensures
        r == (name@ == lit@),
{
    *name == String::from_str(lit)
}

/// Looks `name` up in the table.
pub fn lookup(name: &String) -> (r: Option<Builtin>)
    ensures
        r == builtin_of(name@),
{
    proof {
        reveal_strlit("pi");
        assert("pi"@ =~= seq!['p', 'i']);
        reveal_strlit("e");
        assert("e"@ =~= seq!['e']);
        reveal_strlit("sin");
        assert("sin"@ =~= seq!['s', 'i', 'n']);
        reveal_strlit("cos");
        assert("cos"@ =~= seq!['c', 'o', 's']);
        reveal_strlit("tan");
        assert("tan"@ =~= seq!['t', 'a', 'n']);
        reveal_strlit("sqrt");
        assert("sqrt"@ =~= seq!['s', 'q', 'r', 't']);
        reveal_strlit("abs");
        assert("abs"@ =~= seq!['a', 'b', 's']);
        reveal_strlit("ln");
        assert("ln"@ =~= seq!['l', 'n']);
        reveal_strlit("log10");
        assert("log10"@ =~= seq!['l', 'o', 'g', '1', '0']);
        reveal_strlit("exp");
        assert("exp"@ =~= seq!['e', 'x', 'p']);
        reveal_strlit("floor");
        assert("floor"@ =~= seq!['f', 'l', 'o', 'o', 'r']);
        reveal_strlit("ceil");
        assert("ceil"@ =~= seq!['c', 'e', 'i', 'l']);
        reveal_strlit("pow");
        assert("pow"@ =~= seq!['p', 'o', 'w']);
    }
    if named(name, "pi") {
        Some(Builtin::Pi)
    } else if named(name, "e") {
        Some(Builtin::E)
    } else if named(name, "sin") {
        Some(Builtin::Sin)
    } else if named(name, "cos") {
        Some(Builtin::Cos)
    } else if named(name, "tan") {
        Some(Builtin::Tan)
    } else if named(name, "sqrt") {
        Some(Builtin::Sqrt)
    } else if named(name, "abs") {
        Some(Builtin::Abs)
    } else if named(name, "ln") {
        Some(Builtin::Ln)
    } else if named(name, "log10") {
        Some(Builtin::Log10)
    } else if named(name, "exp") {
        Some(Builtin::Exp)
    } else if named(name, "floor") {
        Some(Builtin::Floor)
    } else if named(name, "ceil") {
        Some(Builtin::Ceil)
    } else if named(name, "pow") {
        Some(Builtin::Pow)
    } else {
        None
    }
}

} // verus!

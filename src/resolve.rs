//! Name resolution: checks every name of a tree against the table and
//! produces a tree whose constants and function applications are known.
//!
//! The walk goes left to right and stops at the first failure. The operands
//! of a call are resolved before its name is looked up; a bare name is a use
//! with no arguments, so a function named without arguments, or a constant
//! given some, is an arity mismatch.
use vstd::prelude::*;
use crate::registry::{Builtin, arity_of, builtin_of, lookup};
use crate::syntax::{Ast, BinaryOp, Expr, UnaryOp, views};

verus! {

broadcast use vstd::std_specs::vec::axiom_vec_index_decreases, vstd::seq::axiom_seq_index_decreases;

/// A resolved tree: every constant and function is an entry of the table,
/// applied to as many operands as it takes.
#[derive(Debug, PartialEq)]
pub enum Node {
    Number(String),
    Constant(Builtin),
    Unary(UnaryOp, Box<Node>),
    Binary(BinaryOp, Box<Node>, Box<Node>),
    Apply1(Builtin, Box<Node>),
    Apply2(Builtin, Box<Node>, Box<Node>),
}

/// The mathematical value of a `Node`.
pub enum Resolved {
    Number(Seq<char>),
    Constant(Builtin),
    Unary(UnaryOp, Box<Resolved>),
    Binary(BinaryOp, Box<Resolved>, Box<Resolved>),
    Apply1(Builtin, Box<Resolved>),
    Apply2(Builtin, Box<Resolved>, Box<Resolved>),
}

impl Node {
    pub open spec fn view(&self) -> Resolved
        decreases self,
    {
        match self {
            Node::Number(t) => Resolved::Number(t@),
            Node::Constant(b) => Resolved::Constant(*b),
            Node::Unary(op, x) => Resolved::Unary(*op, Box::new(x.view())),
            Node::Binary(op, l, r) => Resolved::Binary(*op, Box::new(l.view()), Box::new(r.view())),
            Node::Apply1(b, x) => Resolved::Apply1(*b, Box::new(x.view())),
            Node::Apply2(b, x, y) => Resolved::Apply2(*b, Box::new(x.view()), Box::new(y.view())),
        }
    }
}

/// A name that is not in the table, or one used with the wrong number of
/// arguments (name, arguments it takes, arguments given); or an expression
/// nested too deeply to be handled.
#[derive(Debug, PartialEq)]
pub enum EvalError {
    UnknownIdentifier(String),
    ArityMismatch(String, usize, usize),
    TooComplex,
}

/// The mathematical value of an `EvalError`.
pub enum Fault {
    UnknownIdentifier(Seq<char>),
    ArityMismatch(Seq<char>, nat, nat),
    TooComplex,
}

impl EvalError {
    pub open spec fn view(&self) -> Fault {
        match self {
            EvalError::UnknownIdentifier(n) => Fault::UnknownIdentifier(n@),
            EvalError::ArityMismatch(n, want, got) => Fault::ArityMismatch(n@, *want as nat, *got as nat),
            EvalError::TooComplex => Fault::TooComplex,
        }
    }
}

/// The entry `n` applied to the resolved operands `xs`, if it takes that many.
pub open spec fn spec_apply(n: Seq<char>, xs: Seq<Resolved>) -> Result<Resolved, Fault> {
    match builtin_of(n) {
        None => Err(Fault::UnknownIdentifier(n)),
        Some(b) => if arity_of(b) != xs.len() {
            Err(Fault::ArityMismatch(n, arity_of(b), xs.len()))
        } else if xs.len() == 0 {
            Ok(Resolved::Constant(b))
        } else if xs.len() == 1 {
            Ok(Resolved::Apply1(b, Box::new(xs[0])))
        } else {
            Ok(Resolved::Apply2(b, Box::new(xs[0]), Box::new(xs[1])))
        },
    }
}

pub open spec fn spec_resolve(a: Ast) -> Result<Resolved, Fault>
    decreases a, 0int,
{
    match a {
        Ast::Number(t) => Ok(Resolved::Number(t)),
        Ast::Variable(n) => spec_apply(n, seq![]),
        Ast::Unary(op, x) => match spec_resolve(*x) {
            Ok(rx) => Ok(Resolved::Unary(op, Box::new(rx))),
            Err(f) => Err(f),
        },
        Ast::Binary(op, l, r) => match spec_resolve(*l) {
            Ok(rl) => match spec_resolve(*r) {
                Ok(rr) => Ok(Resolved::Binary(op, Box::new(rl), Box::new(rr))),
                Err(f) => Err(f),
            },
            Err(f) => Err(f),
        },
        Ast::Call(n, args) => match spec_resolve_from(args, 0, seq![]) {
            Ok(xs) => spec_apply(n, xs),
            Err(f) => Err(f),
        },
    }
}

/// Resolves `args[i..]` in order after the operands `done`, stopping at the
/// first failure.
pub open spec fn spec_resolve_from(args: Seq<Ast>, i: int, done: Seq<Resolved>) -> Result<
    Seq<Resolved>,
    Fault,
>
    decreases args, args.len() - i,
{
    if i < 0 || i >= args.len() {
        Ok(done)
    } else {
        match spec_resolve(args[i]) {
            Ok(x) => spec_resolve_from(args, i + 1, done.push(x)),
            Err(f) => Err(f),
        }
    }
}

/// The executable result `r` is the outcome `spec`.
pub open spec fn resolves_to(r: Result<Node, EvalError>, spec: Result<Resolved, Fault>) -> bool {
    match (r, spec) {
        (Ok(n), Ok(m)) => n.view() == m,
        (Err(x), Err(y)) => x.view() == y,
        _ => false,
    }
}

pub open spec fn node_views(v: Seq<Node>) -> Seq<Resolved> {
    Seq::new(v.len(), |i: int| v[i].view())
}

fn apply(name: String, xs: Vec<Node>) -> (r: Result<Node, EvalError>)
    ensures
        resolves_to(r, spec_apply(name@, node_views(xs@))),
{
    let mut xs = xs;
    let ghost vs = node_views(xs@);
    match lookup(&name) {
        None => Err(EvalError::UnknownIdentifier(name)),
        Some(b) => {
            let want = b.arity();
            let got = xs.len();
            if want != got {
                Err(EvalError::ArityMismatch(name, want, got))
            } else if got == 0 {
                Ok(Node::Constant(b))
            } else if got == 1 {
                match xs.pop() {
                    Some(x) => Ok(Node::Apply1(b, Box::new(x))),
                    None => Ok(Node::Constant(b)),
                }
            } else {
                let second = xs.pop();
                let first = xs.pop();
                match (first, second) {
                    (Some(x), Some(y)) => Ok(Node::Apply2(b, Box::new(x), Box::new(y))),
                    _ => Ok(Node::Constant(b)),
                }
            }
        },
    }
}

/// Resolves every name of `e` against the table.
#[verifier::loop_isolation(false)]
pub fn resolve(e: &Expr) -> (r: Result<Node, EvalError>)
    ensures
        resolves_to(r, spec_resolve(e.view())),
    decreases e,
{
    match e {
        Expr::Number(t) => Ok(Node::Number(t.clone())),
        Expr::Variable(n) => {
            proof {
                assert(node_views(Seq::<Node>::empty()) =~= seq![]);
            }
            apply(n.clone(), Vec::new())
        },
        Expr::Unary(op, x) => match resolve(x) {
            Ok(rx) => Ok(Node::Unary(*op, Box::new(rx))),
            Err(f) => Err(f),
        },
        Expr::Binary(op, l, r) => match resolve(l) {
            Ok(rl) => match resolve(r) {
                Ok(rr) => Ok(Node::Binary(*op, Box::new(rl), Box::new(rr))),
                Err(f) => Err(f),
            },
            Err(f) => Err(f),
        },
        Expr::Call(n, args) => {
            let ghost av = views(args@);
            proof {
                assert(e.view() == Ast::Call(n@, av)) by {
                    assert(av =~= e.view()->Call_1);
                }
            }
            let mut xs: Vec<Node> = Vec::new();
            let mut i: usize = 0;
            proof {
                assert(node_views(xs@) =~= seq![]);
            }
            while i < args.len()
                invariant
                    i <= args@.len(),
                    av == views(args@),
                    spec_resolve_from(av, 0, seq![]) == spec_resolve_from(
                        av,
                        i as int,
                        node_views(xs@),
                    ),
                decreases args@.len() - i,
            {
                proof {
                    assert(av[i as int] == args@[i as int].view());
                    assert(decreases_to!(*e => args[i as int]));
                }
                match resolve(&args[i]) {
                    Ok(x) => {
                        proof {
                            assert(node_views(xs@.push(x)) =~= node_views(xs@).push(x.view()));
                        }
                        xs.push(x);
                    },
                    Err(f) => return Err(f),
                }
                i = i + 1;
            }
            apply(n.clone(), xs)
        },
    }
}

} // verus!

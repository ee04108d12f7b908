//! Expression trees and the recursive-descent parser that builds them.
//!
//! Grammar, from the loosest binding to the tightest:
//!
//! ```text
//! expr    := mul (('+' | '-') mul)*
//! mul     := unary (('*' | '/' | '%') unary)*
//! unary   := ('-' | '+') unary | power
//! power   := primary ('^' unary)?
//! primary := number | name | name '(' expr (',' expr)* ')' | '(' expr ')'
//! ```
//!
//! `^` takes a (possibly signed) power on its right, so it associates to the
//! right and `-2^2` is `-(2^2)`. Every nested step (a parenthesis, an
//! argument list, a further argument, a sign, a `^`, or a binary operator in
//! a chain) spends one unit of a depth budget; when the budget runs out the
//! expression is reported as too complex.
use vstd::prelude::*;
use crate::lexer::{Op, Token, TokenKind};

verus! {

/// Largest depth budget an expression may use.
pub const MAX_DEPTH: usize = 200;

#[derive(Clone, Copy, Debug, PartialEq, Eq, Structural)]
pub enum UnaryOp {
    Neg,
    Plus,
}

#[derive(Clone, Copy, Debug, PartialEq, Eq, Structural)]
pub enum BinaryOp {
    Add,
    Sub,
    Mul,
    Div,
    Rem,
    Pow,
}

/// An expression tree. Numbers keep the text of their literal.
#[derive(Debug, PartialEq)]
pub enum Expr {
    Number(String),
    Variable(String),
    Unary(UnaryOp, Box<Expr>),
    Binary(BinaryOp, Box<Expr>, Box<Expr>),
    Call(String, Vec<Expr>),
}

/// The mathematical value of an `Expr`.
pub enum Ast {
    Number(Seq<char>),
    Variable(Seq<char>),
    Unary(UnaryOp, Box<Ast>),
    Binary(BinaryOp, Box<Ast>, Box<Ast>),
    Call(Seq<char>, Seq<Ast>),
}

impl Expr {
    pub open spec fn view(&self) -> Ast
        decreases self,
    {
        match self {
            Expr::Number(t) => Ast::Number(t@),
            Expr::Variable(n) => Ast::Variable(n@),
            Expr::Unary(op, x) => Ast::Unary(*op, Box::new(x.view())),
            Expr::Binary(op, l, r) => Ast::Binary(*op, Box::new(l.view()), Box::new(r.view())),
            Expr::Call(n, args) => Ast::Call(
                n@,
                Seq::new(
                    args.len() as nat,
                    |i: int|
                        if 0 <= i < args.len() {
                            args[i].view()
                        } else {
                            Ast::Number(Seq::empty())
                        },
                ),
            ),
        }
    }
}

/// What the parser was looking for when it met an unexpected token.
#[derive(Clone, Copy, Debug, PartialEq, Eq, Structural)]
pub enum Expected {
    Expression,
    RightParen,
    CommaOrRightParen,
    End,
}

/// An unexpected token: its byte offset, what was expected there, and what
/// was found.
#[derive(Clone, Copy, Debug, PartialEq, Eq, Structural)]
pub struct ParseError {
    pub position: usize,
    pub expected: Expected,
    pub found: TokenKind,
}

#[derive(Clone, Copy, Debug, PartialEq, Eq, Structural)]
pub enum SyntaxError {
    Unexpected(ParseError),
    TooDeep,
}

/// The outcome of parsing one rule: a tree and the index of the next token.
pub type Parsed = Result<(Ast, int), SyntaxError>;

/// Tokens of `ts` lie within a text of `n` characters.
pub open spec fn tokens_fit(ts: Seq<Token>, n: nat) -> bool {
    forall|i: int| 0 <= i < ts.len() ==> #[trigger] ts[i].start <= ts[i].end && ts[i].end <= n
}

/// The kind of token `p`; past the end, `End`.
pub open spec fn kind_at(ts: Seq<Token>, p: int) -> TokenKind {
    if 0 <= p < ts.len() {
        ts[p].kind
    } else {
        TokenKind::End
    }
}

/// The byte offset of token `p`; past the end, that of the last token.
pub open spec fn offset_at(ts: Seq<Token>, p: int) -> usize {
    if 0 <= p < ts.len() {
        ts[p].offset
    } else if ts.len() > 0 {
        ts[ts.len() - 1].offset
    } else {
        0
    }
}

pub open spec fn unexpected(ts: Seq<Token>, p: int, expected: Expected) -> SyntaxError {
    SyntaxError::Unexpected(
        ParseError { position: offset_at(ts, p), expected, found: kind_at(ts, p) },
    )
}

/// The text that token `p` covers.
pub open spec fn text_of(s: Seq<char>, ts: Seq<Token>, p: int) -> Seq<char> {
    s.subrange(ts[p].start as int, ts[p].end as int)
}

pub open spec fn add_op(k: TokenKind) -> Option<BinaryOp> {
    match k {
        TokenKind::Operator(Op::Plus) => Some(BinaryOp::Add),
        TokenKind::Operator(Op::Minus) => Some(BinaryOp::Sub),
        _ => None,
    }
}

pub open spec fn mul_op(k: TokenKind) -> Option<BinaryOp> {
    match k {
        TokenKind::Operator(Op::Star) => Some(BinaryOp::Mul),
        TokenKind::Operator(Op::Slash) => Some(BinaryOp::Div),
        TokenKind::Operator(Op::Percent) => Some(BinaryOp::Rem),
        _ => None,
    }
}

pub open spec fn sign_op(k: TokenKind) -> Option<UnaryOp> {
    match k {
        TokenKind::Operator(Op::Minus) => Some(UnaryOp::Neg),
        TokenKind::Operator(Op::Plus) => Some(UnaryOp::Plus),
        _ => None,
    }
}

pub open spec fn spec_primary(s: Seq<char>, ts: Seq<Token>, p: int, d: nat) -> Parsed
    decreases d, 0nat,
{
    match kind_at(ts, p) {
        TokenKind::Number => Ok((Ast::Number(text_of(s, ts, p)), p + 1)),
        TokenKind::Identifier => {
            if kind_at(ts, p + 1) == TokenKind::LeftParen {
                if d == 0 {
                    Err(SyntaxError::TooDeep)
                } else {
                    match spec_call_args(s, ts, p + 2, (d - 1) as nat) {
                        Ok((args, q)) => Ok((Ast::Call(text_of(s, ts, p), args), q)),
                        Err(e) => Err(e),
                    }
                }
            } else {
                Ok((Ast::Variable(text_of(s, ts, p)), p + 1))
            }
        },
        TokenKind::LeftParen => {
            if d == 0 {
                Err(SyntaxError::TooDeep)
            } else {
                match spec_expr(s, ts, p + 1, (d - 1) as nat) {
                    Ok((e, q)) => if kind_at(ts, q) == TokenKind::RightParen {
                        Ok((e, q + 1))
                    } else {
                        Err(unexpected(ts, q, Expected::RightParen))
                    },
                    Err(e) => Err(e),
                }
            }
        },
        _ => Err(unexpected(ts, p, Expected::Expression)),
    }
}

pub open spec fn spec_power(s: Seq<char>, ts: Seq<Token>, p: int, d: nat) -> Parsed
    decreases d, 1nat,
{
    match spec_primary(s, ts, p, d) {
        Ok((b, q)) => if kind_at(ts, q) == TokenKind::Operator(Op::Caret) {
            if d == 0 {
                Err(SyntaxError::TooDeep)
            } else {
                match spec_unary(s, ts, q + 1, (d - 1) as nat) {
                    Ok((x, r)) => Ok((Ast::Binary(BinaryOp::Pow, Box::new(b), Box::new(x)), r)),
                    Err(e) => Err(e),
                }
            }
        } else {
            Ok((b, q))
        },
        Err(e) => Err(e),
    }
}

pub open spec fn spec_unary(s: Seq<char>, ts: Seq<Token>, p: int, d: nat) -> Parsed
    decreases d, 2nat,
{
    match sign_op(kind_at(ts, p)) {
        Some(op) => if d == 0 {
            Err(SyntaxError::TooDeep)
        } else {
            match spec_unary(s, ts, p + 1, (d - 1) as nat) {
                Ok((x, q)) => Ok((Ast::Unary(op, Box::new(x)), q)),
                Err(e) => Err(e),
            }
        },
        None => spec_power(s, ts, p, d),
    }
}

/// The rest of a chain of `* / %` after the operand `lhs`, from token `p`.
pub open spec fn spec_mul_rest(s: Seq<char>, ts: Seq<Token>, lhs: Ast, p: int, d: nat) -> Parsed
    decreases d, 3nat,
{
    match mul_op(kind_at(ts, p)) {
        Some(op) => if d == 0 {
            Err(SyntaxError::TooDeep)
        } else {
            match spec_unary(s, ts, p + 1, d) {
                Ok((r, q)) => spec_mul_rest(
                    s,
                    ts,
                    Ast::Binary(op, Box::new(lhs), Box::new(r)),
                    q,
                    (d - 1) as nat,
                ),
                Err(e) => Err(e),
            }
        },
        None => Ok((lhs, p)),
    }
}

pub open spec fn spec_mul(s: Seq<char>, ts: Seq<Token>, p: int, d: nat) -> Parsed
    decreases d, 4nat,
{
    match spec_unary(s, ts, p, d) {
        Ok((l, q)) => spec_mul_rest(s, ts, l, q, d),
        Err(e) => Err(e),
    }
}

/// The rest of a chain of `+ -` after the operand `lhs`, from token `p`.
pub open spec fn spec_add_rest(s: Seq<char>, ts: Seq<Token>, lhs: Ast, p: int, d: nat) -> Parsed
    decreases d, 5nat,
{
    match add_op(kind_at(ts, p)) {
        Some(op) => if d == 0 {
            Err(SyntaxError::TooDeep)
        } else {
            match spec_mul(s, ts, p + 1, d) {
                Ok((r, q)) => spec_add_rest(
                    s,
                    ts,
                    Ast::Binary(op, Box::new(lhs), Box::new(r)),
                    q,
                    (d - 1) as nat,
                ),
                Err(e) => Err(e),
            }
        },
        None => Ok((lhs, p)),
    }
}

pub open spec fn spec_expr(s: Seq<char>, ts: Seq<Token>, p: int, d: nat) -> Parsed
    decreases d, 6nat,
{
    match spec_mul(s, ts, p, d) {
        Ok((l, q)) => spec_add_rest(s, ts, l, q, d),
        Err(e) => Err(e),
    }
}

/// The rest of an argument list after the arguments `acc`, from token `p`;
/// on success, the index after the closing parenthesis.
pub open spec fn spec_args_rest(
    s: Seq<char>,
    ts: Seq<Token>,
    acc: Seq<Ast>,
    p: int,
    d: nat,
) -> Result<(Seq<Ast>, int), SyntaxError>
    decreases d, 7nat,
{
    match kind_at(ts, p) {
        TokenKind::Comma => if d == 0 {
            Err(SyntaxError::TooDeep)
        } else {
            match spec_expr(s, ts, p + 1, d) {
                Ok((a, q)) => spec_args_rest(s, ts, acc.push(a), q, (d - 1) as nat),
                Err(e) => Err(e),
            }
        },
        TokenKind::RightParen => Ok((acc, p + 1)),
        _ => Err(unexpected(ts, p, Expected::CommaOrRightParen)),
    }
}

/// The arguments of a call, from the token after `(`.
pub open spec fn spec_call_args(s: Seq<char>, ts: Seq<Token>, p: int, d: nat) -> Result<
    (Seq<Ast>, int),
    SyntaxError,
>
    decreases d, 8nat,
{
    match spec_expr(s, ts, p, d) {
        Ok((a, q)) => spec_args_rest(s, ts, seq![a], q, d),
        Err(e) => Err(e),
    }
}

/// The tree of the whole token sequence, which must end after one expression.
pub open spec fn spec_parse(s: Seq<char>, ts: Seq<Token>) -> Result<Ast, SyntaxError> {
    match spec_expr(s, ts, 0, MAX_DEPTH as nat) {
        Ok((e, q)) => if kind_at(ts, q) == TokenKind::End {
            Ok(e)
        } else {
            Err(unexpected(ts, q, Expected::End))
        },
        Err(e) => Err(e),
    }
}

/// The trees of a sequence of expressions.
pub open spec fn views(v: Seq<Expr>) -> Seq<Ast> {
    Seq::new(v.len(), |i: int| v[i].view())
}

proof fn lemma_call_view(n: String, args: Vec<Expr>)
    ensures
        Expr::Call(n, args).view() == Ast::Call(n@, views(args@)),
{
    assert(views(args@) =~= Expr::Call(n, args).view()->Call_1);
}

proof fn lemma_views_push(v: Seq<Expr>, a: Expr)
    ensures
        views(v.push(a)) == views(v).push(a.view()),
{
    assert(views(v.push(a)) =~= views(v).push(a.view()));
}

/// The executable result `r` is the outcome `spec`.
pub open spec fn agrees(r: Result<(Expr, usize), SyntaxError>, spec: Parsed) -> bool {
    match (r, spec) {
        (Ok((e, q)), Ok((a, sq))) => e.view() == a && q == sq,
        (Err(x), Err(y)) => x == y,
        _ => false,
    }
}

/// A successful outcome stops at or before index `n`.
pub open spec fn stops_within<T>(r: Result<(T, usize), SyntaxError>, n: nat) -> bool {
    match r {
        Ok((_, q)) => q <= n,
        Err(_) => true,
    }
}

fn kind(ts: &Vec<Token>, p: usize) -> (r: TokenKind)
    ensures
        r == kind_at(ts@, p as int),
        r != TokenKind::End ==> p < ts@.len(),
        ts@.len() <= usize::MAX,
{
    if p < ts.len() {
        ts[p].kind
    } else {
        TokenKind::End
    }
}

fn fail(ts: &Vec<Token>, p: usize, expected: Expected) -> (r: SyntaxError)
    ensures
        r == unexpected(ts@, p as int, expected),
{
    let position = if p < ts.len() {
        ts[p].offset
    } else if ts.len() > 0 {
        ts[ts.len() - 1].offset
    } else {
        0
    };
    SyntaxError::Unexpected(ParseError { position, expected, found: kind(ts, p) })
}

fn text(src: &str, ts: &Vec<Token>, p: usize) -> (r: String)
    requires
        p < ts@.len(),
        tokens_fit(ts@, src@.len()),
    ensures
        r@ == text_of(src@, ts@, p as int),
{
    let t = ts[p];
    String::from_str(src.substring_char(t.start, t.end))
}

fn binary_op(k: TokenKind, multiplicative: bool) -> (r: Option<BinaryOp>)
    ensures
        r == if multiplicative {
            mul_op(k)
        } else {
            add_op(k)
        },
{
    match k {
        TokenKind::Operator(Op::Plus) if !multiplicative => Some(BinaryOp::Add),
        TokenKind::Operator(Op::Minus) if !multiplicative => Some(BinaryOp::Sub),
        TokenKind::Operator(Op::Star) if multiplicative => Some(BinaryOp::Mul),
        TokenKind::Operator(Op::Slash) if multiplicative => Some(BinaryOp::Div),
        TokenKind::Operator(Op::Percent) if multiplicative => Some(BinaryOp::Rem),
        _ => None,
    }
}

fn primary(src: &str, ts: &Vec<Token>, p: usize, d: usize) -> (r: Result<(Expr, usize), SyntaxError>)
    requires
        tokens_fit(ts@, src@.len()),
        p <= ts@.len(),
    ensures
        agrees(r, spec_primary(src@, ts@, p as int, d as nat)),
        stops_within(r, ts@.len()),
    decreases d, 0nat,
{
    match kind(ts, p) {
        TokenKind::Number => Ok((Expr::Number(text(src, ts, p)), p + 1)),
        TokenKind::Identifier => {
            let name = text(src, ts, p);
            if kind(ts, p + 1) == TokenKind::LeftParen {
                if d == 0 {
                    return Err(SyntaxError::TooDeep);
                }
                match call_args(src, ts, p + 2, d - 1) {
                    Ok((args, q)) => {
                        proof {
                            lemma_call_view(name, args);
                        }
                        Ok((Expr::Call(name, args), q))
                    },
                    Err(e) => Err(e),
                }
            } else {
                Ok((Expr::Variable(name), p + 1))
            }
        },
        TokenKind::LeftParen => {
            if d == 0 {
                return Err(SyntaxError::TooDeep);
            }
            match expr(src, ts, p + 1, d - 1) {
                Ok((e, q)) => if kind(ts, q) == TokenKind::RightParen {
                    Ok((e, q + 1))
                } else {
                    Err(fail(ts, q, Expected::RightParen))
                },
                Err(e) => Err(e),
            }
        },
        _ => Err(fail(ts, p, Expected::Expression)),
    }
}

fn power(src: &str, ts: &Vec<Token>, p: usize, d: usize) -> (r: Result<(Expr, usize), SyntaxError>)
    requires
        tokens_fit(ts@, src@.len()),
        p <= ts@.len(),
    ensures
        agrees(r, spec_power(src@, ts@, p as int, d as nat)),
        stops_within(r, ts@.len()),
    decreases d, 1nat,
{
    match primary(src, ts, p, d) {
        Ok((b, q)) => if kind(ts, q) == TokenKind::Operator(Op::Caret) {
            if d == 0 {
                return Err(SyntaxError::TooDeep);
            }
            match unary(src, ts, q + 1, d - 1) {
                Ok((x, r)) => Ok((Expr::Binary(BinaryOp::Pow, Box::new(b), Box::new(x)), r)),
                Err(e) => Err(e),
            }
        } else {
            Ok((b, q))
        },
        Err(e) => Err(e),
    }
}

fn unary(src: &str, ts: &Vec<Token>, p: usize, d: usize) -> (r: Result<(Expr, usize), SyntaxError>)
    requires
        tokens_fit(ts@, src@.len()),
        p <= ts@.len(),
    ensures
        agrees(r, spec_unary(src@, ts@, p as int, d as nat)),
        stops_within(r, ts@.len()),
    decreases d, 2nat,
{
    let sign = match kind(ts, p) {
        TokenKind::Operator(Op::Minus) => Some(UnaryOp::Neg),
        TokenKind::Operator(Op::Plus) => Some(UnaryOp::Plus),
        _ => None,
    };
    match sign {
        Some(op) => {
            if d == 0 {
                return Err(SyntaxError::TooDeep);
            }
            match unary(src, ts, p + 1, d - 1) {
                Ok((x, q)) => Ok((Expr::Unary(op, Box::new(x)), q)),
                Err(e) => Err(e),
            }
        },
        None => power(src, ts, p, d),
    }
}

#[verifier::loop_isolation(false)]
fn mul_rest(src: &str, ts: &Vec<Token>, lhs: Expr, p: usize, d: usize) -> (r: Result<
    (Expr, usize),
    SyntaxError,
>)
    requires
        tokens_fit(ts@, src@.len()),
        p <= ts@.len(),
    ensures
        agrees(r, spec_mul_rest(src@, ts@, lhs.view(), p as int, d as nat)),
        stops_within(r, ts@.len()),
    decreases d, 3nat,
{
    let ghost goal = spec_mul_rest(src@, ts@, lhs.view(), p as int, d as nat);
    let ghost d0 = d;
    let mut lhs = lhs;
    let mut p = p;
    let mut d = d;
    loop
        invariant
            tokens_fit(ts@, src@.len()),
            p <= ts@.len(),
            d <= d0,
            goal == spec_mul_rest(src@, ts@, lhs.view(), p as int, d as nat),
        decreases d,
    {
        match binary_op(kind(ts, p), true) {
            Some(op) => {
                if d == 0 {
                    return Err(SyntaxError::TooDeep);
                }
                match unary(src, ts, p + 1, d) {
                    Ok((r, q)) => {
                        lhs = Expr::Binary(op, Box::new(lhs), Box::new(r));
                        p = q;
                        d = d - 1;
                    },
                    Err(e) => return Err(e),
                }
            },
            None => return Ok((lhs, p)),
        }
    }
}

fn product(src: &str, ts: &Vec<Token>, p: usize, d: usize) -> (r: Result<(Expr, usize), SyntaxError>)
    requires
        tokens_fit(ts@, src@.len()),
        p <= ts@.len(),
    ensures
        agrees(r, spec_mul(src@, ts@, p as int, d as nat)),
        stops_within(r, ts@.len()),
    decreases d, 4nat,
{
    match unary(src, ts, p, d) {
        Ok((l, q)) => mul_rest(src, ts, l, q, d),
        Err(e) => Err(e),
    }
}

#[verifier::loop_isolation(false)]
fn add_rest(src: &str, ts: &Vec<Token>, lhs: Expr, p: usize, d: usize) -> (r: Result<
    (Expr, usize),
    SyntaxError,
>)
    requires
        tokens_fit(ts@, src@.len()),
        p <= ts@.len(),
    ensures
        agrees(r, spec_add_rest(src@, ts@, lhs.view(), p as int, d as nat)),
        stops_within(r, ts@.len()),
    decreases d, 5nat,
{
    let ghost goal = spec_add_rest(src@, ts@, lhs.view(), p as int, d as nat);
    let ghost d0 = d;
    let mut lhs = lhs;
    let mut p = p;
    let mut d = d;
    loop
        invariant
            tokens_fit(ts@, src@.len()),
            p <= ts@.len(),
            d <= d0,
            goal == spec_add_rest(src@, ts@, lhs.view(), p as int, d as nat),
        decreases d,
    {
        match binary_op(kind(ts, p), false) {
            Some(op) => {
                if d == 0 {
                    return Err(SyntaxError::TooDeep);
                }
                match product(src, ts, p + 1, d) {
                    Ok((r, q)) => {
                        lhs = Expr::Binary(op, Box::new(lhs), Box::new(r));
                        p = q;
                        d = d - 1;
                    },
                    Err(e) => return Err(e),
                }
            },
            None => return Ok((lhs, p)),
        }
    }
}

fn expr(src: &str, ts: &Vec<Token>, p: usize, d: usize) -> (r: Result<(Expr, usize), SyntaxError>)
    requires
        tokens_fit(ts@, src@.len()),
        p <= ts@.len(),
    ensures
        agrees(r, spec_expr(src@, ts@, p as int, d as nat)),
        stops_within(r, ts@.len()),
    decreases d, 6nat,
{
    match product(src, ts, p, d) {
        Ok((l, q)) => add_rest(src, ts, l, q, d),
        Err(e) => Err(e),
    }
}

/// The executable argument list `r` is the outcome `spec`.
pub open spec fn args_agree(
    r: Result<(Vec<Expr>, usize), SyntaxError>,
    spec: Result<(Seq<Ast>, int), SyntaxError>,
) -> bool {
    match (r, spec) {
        (Ok((v, q)), Ok((a, sq))) => views(v@) == a && q == sq,
        (Err(x), Err(y)) => x == y,
        _ => false,
    }
}

#[verifier::loop_isolation(false)]
fn call_args(src: &str, ts: &Vec<Token>, p: usize, d: usize) -> (r: Result<
    (Vec<Expr>, usize),
    SyntaxError,
>)
    requires
        tokens_fit(ts@, src@.len()),
        p <= ts@.len(),
    ensures
        args_agree(r, spec_call_args(src@, ts@, p as int, d as nat)),
        stops_within(r, ts@.len()),
    decreases d, 8nat,
{
    let first = match expr(src, ts, p, d) {
        Ok(x) => x,
        Err(e) => return Err(e),
    };
    let (a, q0) = first;
    let ghost goal = spec_args_rest(src@, ts@, seq![a.view()], q0 as int, d as nat);
    let mut args: Vec<Expr> = Vec::new();
    args.push(a);
    proof {
        assert(views(args@) =~= seq![args@[0].view()]);
    }
    let mut p = q0;
    let mut d = d;
    let ghost d0 = d;
    loop
        invariant
            tokens_fit(ts@, src@.len()),
            p <= ts@.len(),
            d <= d0,
            goal == spec_args_rest(src@, ts@, views(args@), p as int, d as nat),
        decreases d,
    {
        match kind(ts, p) {
            TokenKind::Comma => {
                if d == 0 {
                    return Err(SyntaxError::TooDeep);
                }
                match expr(src, ts, p + 1, d) {
                    Ok((a, q)) => {
                        proof {
                            lemma_views_push(args@, a);
                        }
                        args.push(a);
                        p = q;
                        d = d - 1;
                    },
                    Err(e) => return Err(e),
                }
            },
            TokenKind::RightParen => return Ok((args, p + 1)),
            _ => return Err(fail(ts, p, Expected::CommaOrRightParen)),
        }
    }
}

/// Parses the tokens of `src` into one expression tree.
pub fn parse(src: &str, ts: &Vec<Token>) -> (r: Result<Expr, SyntaxError>)
    requires
        tokens_fit(ts@, src@.len()),
    ensures
        match (r, spec_parse(src@, ts@)) {
            (Ok(e), Ok(a)) => e.view() == a,
            (Err(x), Err(y)) => x == y,
            _ => false,
        },
{
    match expr(src, ts, 0, MAX_DEPTH) {
        Ok((e, q)) => if kind(ts, q) == TokenKind::End {
            Ok(e)
        } else {
            Err(fail(ts, q, Expected::End))
        },
        Err(e) => Err(e),
    }
}

} // verus!

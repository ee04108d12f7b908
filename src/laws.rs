//! Properties of the parser and of the whole pipeline.
use vstd::prelude::*;
use crate::lexer::{Op, Token, TokenKind};
use crate::resolve::{Fault, Node, Resolved, spec_resolve};
use crate::syntax::{
    Ast, BinaryOp, MAX_DEPTH, UnaryOp, SyntaxError, add_op, kind_at, mul_op, spec_add_rest, spec_expr, spec_mul,
    spec_mul_rest, spec_parse, spec_args_rest, spec_call_args, spec_power, spec_primary, spec_unary, text_of,
};
use crate::lexer::lex;
use crate::{Failed, Failure, compiled, spec_compile};

verus! {

/// The binary operation that the operator token `o` stands for.
pub open spec fn binary_of(o: Op) -> BinaryOp {
    match o {
        Op::Plus => BinaryOp::Add,
        Op::Minus => BinaryOp::Sub,
        Op::Star => BinaryOp::Mul,
        Op::Slash => BinaryOp::Div,
        Op::Percent => BinaryOp::Rem,
        Op::Caret => BinaryOp::Pow,
    }
}

/// `*`, `/` and `%` bind tighter than `+` and `-`.
pub open spec fn multiplicative(o: Op) -> bool {
    o == Op::Star || o == Op::Slash || o == Op::Percent
}

/// The tokens of `ts` have the kinds `ks`.
pub open spec fn kinds_are(ts: Seq<Token>, ks: Seq<TokenKind>) -> bool {
    ts.len() == ks.len() && forall|i: int| 0 <= i < ts.len() ==> #[trigger] ts[i].kind == ks[i]
}

/// The literal that token `p` holds, as a tree.
pub open spec fn number_at(s: Seq<char>, ts: Seq<Token>, p: int) -> Ast {
    Ast::Number(text_of(s, ts, p))
}

pub open spec fn bin(op: BinaryOp, l: Ast, r: Ast) -> Ast {
    Ast::Binary(op, Box::new(l), Box::new(r))
}

/// A number that no `^` follows is a whole operand.
proof fn lemma_operand(s: Seq<char>, ts: Seq<Token>, p: int, d: nat)
    requires
        0 <= p,
        kind_at(ts, p) == TokenKind::Number,
        kind_at(ts, p + 1) != TokenKind::Operator(Op::Caret),
    ensures
        spec_unary(s, ts, p, d) == Ok::<(Ast, int), SyntaxError>((number_at(s, ts, p), p + 1)),
{
    assert(spec_primary(s, ts, p, d) == Ok::<(Ast, int), SyntaxError>((number_at(s, ts, p), p + 1)));
    assert(spec_power(s, ts, p, d) == Ok::<(Ast, int), SyntaxError>((number_at(s, ts, p), p + 1)));
}

/// Two binary operators between three numbers group by the usual
/// precedence: `*`, `/` and `%` before `+` and `-`, and operators of the same
/// precedence from the left.
pub proof fn lemma_standard_precedence(s: Seq<char>, ts: Seq<Token>, o1: Op, o2: Op)
    requires
        o1 != Op::Caret,
        o2 != Op::Caret,
        kinds_are(
            ts,
            seq![
                TokenKind::Number,
                TokenKind::Operator(o1),
                TokenKind::Number,
                TokenKind::Operator(o2),
                TokenKind::Number,
                TokenKind::End,
            ],
        ),
    ensures
        spec_parse(s, ts) == Ok::<Ast, SyntaxError>(
            if multiplicative(o2) && !multiplicative(o1) {
                bin(
                    binary_of(o1),
                    number_at(s, ts, 0),
                    bin(binary_of(o2), number_at(s, ts, 2), number_at(s, ts, 4)),
                )
            } else {
                bin(
                    binary_of(o2),
                    bin(binary_of(o1), number_at(s, ts, 0), number_at(s, ts, 2)),
                    number_at(s, ts, 4),
                )
            },
        ),
{
    let d = MAX_DEPTH as nat;
    assert(kind_at(ts, 0) == TokenKind::Number);
    assert(kind_at(ts, 1) == TokenKind::Operator(o1));
    assert(kind_at(ts, 2) == TokenKind::Number);
    assert(kind_at(ts, 3) == TokenKind::Operator(o2));
    assert(kind_at(ts, 4) == TokenKind::Number);
    assert(kind_at(ts, 5) == TokenKind::End);
    let n0 = number_at(s, ts, 0);
    let n2 = number_at(s, ts, 2);
    let n4 = number_at(s, ts, 4);
    let b1 = binary_of(o1);
    let b2 = binary_of(o2);
    lemma_operand(s, ts, 0, d);
    lemma_operand(s, ts, 2, d);
    lemma_operand(s, ts, 4, d);
    lemma_operand(s, ts, 4, (d - 1) as nat);
    lemma_operand(s, ts, 4, (d - 2) as nat);
    if multiplicative(o1) {
        assert(mul_op(TokenKind::Operator(o1)) == Some(b1));
        let l = bin(b1, n0, n2);
        if multiplicative(o2) {
            assert(mul_op(TokenKind::Operator(o2)) == Some(b2));
            let t = bin(b2, l, n4);
            assert(spec_mul_rest(s, ts, t, 5, (d - 2) as nat) == Ok::<(Ast, int), SyntaxError>((t, 5)));
            assert(spec_mul_rest(s, ts, l, 3, (d - 1) as nat) == Ok::<(Ast, int), SyntaxError>((t, 5)));
            assert(spec_mul(s, ts, 0, d) == Ok::<(Ast, int), SyntaxError>((t, 5)));
            assert(spec_add_rest(s, ts, t, 5, d) == Ok::<(Ast, int), SyntaxError>((t, 5)));
            assert(spec_expr(s, ts, 0, d) == Ok::<(Ast, int), SyntaxError>((t, 5)));
        } else {
            assert(add_op(TokenKind::Operator(o2)) == Some(b2));
            let t = bin(b2, l, n4);
            assert(spec_mul_rest(s, ts, l, 3, (d - 1) as nat) == Ok::<(Ast, int), SyntaxError>((l, 3)));
            assert(spec_mul(s, ts, 0, d) == Ok::<(Ast, int), SyntaxError>((l, 3)));
            assert(spec_mul_rest(s, ts, n4, 5, d) == Ok::<(Ast, int), SyntaxError>((n4, 5)));
            assert(spec_mul(s, ts, 4, d) == Ok::<(Ast, int), SyntaxError>((n4, 5)));
            assert(spec_add_rest(s, ts, t, 5, (d - 1) as nat) == Ok::<(Ast, int), SyntaxError>((t, 5)));
            assert(spec_add_rest(s, ts, l, 3, d) == Ok::<(Ast, int), SyntaxError>((t, 5)));
            assert(spec_expr(s, ts, 0, d) == Ok::<(Ast, int), SyntaxError>((t, 5)));
        }
    } else {
        assert(add_op(TokenKind::Operator(o1)) == Some(b1));
        assert(spec_mul_rest(s, ts, n0, 1, d) == Ok::<(Ast, int), SyntaxError>((n0, 1)));
        assert(spec_mul(s, ts, 0, d) == Ok::<(Ast, int), SyntaxError>((n0, 1)));
        if multiplicative(o2) {
            assert(mul_op(TokenKind::Operator(o2)) == Some(b2));
            let r = bin(b2, n2, n4);
            let t = bin(b1, n0, r);
            assert(spec_mul_rest(s, ts, r, 5, (d - 1) as nat) == Ok::<(Ast, int), SyntaxError>((r, 5)));
            assert(spec_mul_rest(s, ts, n2, 3, d) == Ok::<(Ast, int), SyntaxError>((r, 5)));
            assert(spec_mul(s, ts, 2, d) == Ok::<(Ast, int), SyntaxError>((r, 5)));
            assert(spec_add_rest(s, ts, t, 5, (d - 1) as nat) == Ok::<(Ast, int), SyntaxError>((t, 5)));
            assert(spec_add_rest(s, ts, n0, 1, d) == Ok::<(Ast, int), SyntaxError>((t, 5)));
            assert(spec_expr(s, ts, 0, d) == Ok::<(Ast, int), SyntaxError>((t, 5)));
        } else {
            assert(add_op(TokenKind::Operator(o2)) == Some(b2));
            let l = bin(b1, n0, n2);
            let t = bin(b2, l, n4);
            assert(spec_mul_rest(s, ts, n2, 3, d) == Ok::<(Ast, int), SyntaxError>((n2, 3)));
            assert(spec_mul(s, ts, 2, d) == Ok::<(Ast, int), SyntaxError>((n2, 3)));
            assert(spec_mul_rest(s, ts, n4, 5, (d - 1) as nat) == Ok::<(Ast, int), SyntaxError>((n4, 5)));
            assert(spec_mul(s, ts, 4, (d - 1) as nat) == Ok::<(Ast, int), SyntaxError>((n4, 5)));
            assert(spec_add_rest(s, ts, t, 5, (d - 2) as nat) == Ok::<(Ast, int), SyntaxError>((t, 5)));
            assert(spec_add_rest(s, ts, l, 3, (d - 1) as nat) == Ok::<(Ast, int), SyntaxError>((t, 5)));
            assert(spec_add_rest(s, ts, n0, 1, d) == Ok::<(Ast, int), SyntaxError>((t, 5)));
            assert(spec_expr(s, ts, 0, d) == Ok::<(Ast, int), SyntaxError>((t, 5)));
        }
    }
}

/// `^` groups from the right: `a^b^c` is `a^(b^c)`.
pub proof fn lemma_power_right_assoc(s: Seq<char>, ts: Seq<Token>)
    requires
        kinds_are(
            ts,
            seq![
                TokenKind::Number,
                TokenKind::Operator(Op::Caret),
                TokenKind::Number,
                TokenKind::Operator(Op::Caret),
                TokenKind::Number,
                TokenKind::End,
            ],
        ),
    ensures
        spec_parse(s, ts) == Ok::<Ast, SyntaxError>(
            bin(
                BinaryOp::Pow,
                number_at(s, ts, 0),
                bin(BinaryOp::Pow, number_at(s, ts, 2), number_at(s, ts, 4)),
            ),
        ),
{
    let d = MAX_DEPTH as nat;
    assert(kind_at(ts, 0) == TokenKind::Number);
    assert(kind_at(ts, 1) == TokenKind::Operator(Op::Caret));
    assert(kind_at(ts, 2) == TokenKind::Number);
    assert(kind_at(ts, 3) == TokenKind::Operator(Op::Caret));
    assert(kind_at(ts, 4) == TokenKind::Number);
    assert(kind_at(ts, 5) == TokenKind::End);
    let n0 = number_at(s, ts, 0);
    let n2 = number_at(s, ts, 2);
    let r = bin(BinaryOp::Pow, n2, number_at(s, ts, 4));
    let t = bin(BinaryOp::Pow, n0, r);
    lemma_operand(s, ts, 4, (d - 2) as nat);
    assert(spec_primary(s, ts, 2, (d - 1) as nat) == Ok::<(Ast, int), SyntaxError>((n2, 3)));
    assert(spec_power(s, ts, 2, (d - 1) as nat) == Ok::<(Ast, int), SyntaxError>((r, 5)));
    assert(spec_unary(s, ts, 2, (d - 1) as nat) == Ok::<(Ast, int), SyntaxError>((r, 5)));
    assert(spec_primary(s, ts, 0, d) == Ok::<(Ast, int), SyntaxError>((n0, 1)));
    assert(spec_power(s, ts, 0, d) == Ok::<(Ast, int), SyntaxError>((t, 5)));
    assert(spec_unary(s, ts, 0, d) == Ok::<(Ast, int), SyntaxError>((t, 5)));
    assert(spec_mul_rest(s, ts, t, 5, d) == Ok::<(Ast, int), SyntaxError>((t, 5)));
    assert(spec_mul(s, ts, 0, d) == Ok::<(Ast, int), SyntaxError>((t, 5)));
    assert(spec_add_rest(s, ts, t, 5, d) == Ok::<(Ast, int), SyntaxError>((t, 5)));
    assert(spec_expr(s, ts, 0, d) == Ok::<(Ast, int), SyntaxError>((t, 5)));
}

/// A leading minus takes the whole power after it: `-a^b` is `-(a^b)`.
pub proof fn lemma_sign_below_power(s: Seq<char>, ts: Seq<Token>)
    requires
        kinds_are(
            ts,
            seq![
                TokenKind::Operator(Op::Minus),
                TokenKind::Number,
                TokenKind::Operator(Op::Caret),
                TokenKind::Number,
                TokenKind::End,
            ],
        ),
    ensures
        spec_parse(s, ts) == Ok::<Ast, SyntaxError>(
            Ast::Unary(
                UnaryOp::Neg,
                Box::new(bin(BinaryOp::Pow, number_at(s, ts, 1), number_at(s, ts, 3))),
            ),
        ),
{
    let d = MAX_DEPTH as nat;
    assert(kind_at(ts, 0) == TokenKind::Operator(Op::Minus));
    assert(kind_at(ts, 1) == TokenKind::Number);
    assert(kind_at(ts, 2) == TokenKind::Operator(Op::Caret));
    assert(kind_at(ts, 3) == TokenKind::Number);
    assert(kind_at(ts, 4) == TokenKind::End);
    let n1 = number_at(s, ts, 1);
    let p = bin(BinaryOp::Pow, n1, number_at(s, ts, 3));
    let t = Ast::Unary(UnaryOp::Neg, Box::new(p));
    lemma_operand(s, ts, 3, (d - 2) as nat);
    assert(spec_primary(s, ts, 1, (d - 1) as nat) == Ok::<(Ast, int), SyntaxError>((n1, 2)));
    assert(spec_power(s, ts, 1, (d - 1) as nat) == Ok::<(Ast, int), SyntaxError>((p, 4)));
    assert(spec_unary(s, ts, 1, (d - 1) as nat) == Ok::<(Ast, int), SyntaxError>((p, 4)));
    assert(spec_unary(s, ts, 0, d) == Ok::<(Ast, int), SyntaxError>((t, 4)));
    assert(spec_mul_rest(s, ts, t, 4, d) == Ok::<(Ast, int), SyntaxError>((t, 4)));
    assert(spec_mul(s, ts, 0, d) == Ok::<(Ast, int), SyntaxError>((t, 4)));
    assert(spec_add_rest(s, ts, t, 4, d) == Ok::<(Ast, int), SyntaxError>((t, 4)));
    assert(spec_expr(s, ts, 0, d) == Ok::<(Ast, int), SyntaxError>((t, 4)));
}

/// The tree names no constant or function: only numbers and operators.
pub open spec fn names_free(a: Ast) -> bool
    decreases a,
{
    match a {
        Ast::Number(_) => true,
        Ast::Unary(_, x) => names_free(*x),
        Ast::Binary(_, l, r) => names_free(*l) && names_free(*r),
        _ => false,
    }
}

/// A tree of numbers and operators always resolves: no operator, division
/// and remainder by zero included, is an error before evaluation.
pub proof fn lemma_operators_never_fail(a: Ast)
    requires
        names_free(a),
    ensures
        spec_resolve(a) is Ok,
    decreases a,
{
    match a {
        Ast::Unary(_, x) => lemma_operators_never_fail(*x),
        Ast::Binary(_, l, r) => {
            lemma_operators_never_fail(*l);
            lemma_operators_never_fail(*r);
        },
        _ => {},
    }
}

/// Two results hold the same tree, or the same failure.
pub open spec fn same_outcome(r1: Result<Node, Failure>, r2: Result<Node, Failure>) -> bool {
    match (r1, r2) {
        (Ok(a), Ok(b)) => a.view() == b.view(),
        (Err(x), Err(y)) => x.view() == y.view(),
        _ => false,
    }
}

/// Compiling is a function of the text alone: any two results that
/// `compile` may give for one text agree.
pub proof fn lemma_repeatable(s: Seq<char>, r1: Result<Node, Failure>, r2: Result<Node, Failure>)
    requires
        compiled(s, r1),
        compiled(s, r2),
    ensures
        same_outcome(r1, r2),
{
}

/// The two token sequences have the same kinds and, for numbers and names,
/// the same text; where the tokens stand may differ.
pub open spec fn same_tokens(s1: Seq<char>, ts1: Seq<Token>, s2: Seq<char>, ts2: Seq<Token>) -> bool {
    &&& forall|q: int| #[trigger] kind_at(ts1, q) == kind_at(ts2, q)
    &&& forall|q: int|
        0 <= q < ts1.len() && 0 <= q < ts2.len() && (ts1[q].kind == TokenKind::Number
            || ts1[q].kind == TokenKind::Identifier) ==> #[trigger] text_of(s1, ts1, q) == text_of(
            s2,
            ts2,
            q,
        )
}

/// Two outcomes agree but for the positions in an error.
pub open spec fn alike<T>(r1: Result<(T, int), SyntaxError>, r2: Result<(T, int), SyntaxError>) -> bool {
    match (r1, r2) {
        (Ok(x), Ok(y)) => x == y,
        (Err(SyntaxError::TooDeep), Err(SyntaxError::TooDeep)) => true,
        (Err(SyntaxError::Unexpected(e1)), Err(SyntaxError::Unexpected(e2))) => e1.expected
            == e2.expected && e1.found == e2.found,
        _ => false,
    }
}

proof fn lemma_alike_primary(s1: Seq<char>, ts1: Seq<Token>, s2: Seq<char>, ts2: Seq<Token>, p: int, d: nat)
    requires
        same_tokens(s1, ts1, s2, ts2),
    ensures
        alike(spec_primary(s1, ts1, p, d), spec_primary(s2, ts2, p, d)),
    decreases d, 0nat,
{
    assert(kind_at(ts1, p) == kind_at(ts2, p));
    assert(kind_at(ts1, p + 1) == kind_at(ts2, p + 1));
    if kind_at(ts1, p) == TokenKind::Number || kind_at(ts1, p) == TokenKind::Identifier {
        assert(text_of(s1, ts1, p) == text_of(s2, ts2, p));
    }
    if d > 0 {
        lemma_alike_call_args(s1, ts1, s2, ts2, p + 2, (d - 1) as nat);
        lemma_alike_expr(s1, ts1, s2, ts2, p + 1, (d - 1) as nat);
        if let Ok((_, q)) = spec_expr(s1, ts1, p + 1, (d - 1) as nat) {
            assert(kind_at(ts1, q) == kind_at(ts2, q));
        }
        if let Err(_) = spec_expr(s1, ts1, p + 1, (d - 1) as nat) {
        }
    }
    assert(kind_at(ts1, p) == TokenKind::LeftParen ==> d > 0 || spec_primary(s1, ts1, p, d)
        == Err::<(Ast, int), SyntaxError>(SyntaxError::TooDeep));
}

proof fn lemma_alike_power(s1: Seq<char>, ts1: Seq<Token>, s2: Seq<char>, ts2: Seq<Token>, p: int, d: nat)
    requires
        same_tokens(s1, ts1, s2, ts2),
    ensures
        alike(spec_power(s1, ts1, p, d), spec_power(s2, ts2, p, d)),
    decreases d, 1nat,
{
    lemma_alike_primary(s1, ts1, s2, ts2, p, d);
    if let Ok((_, q)) = spec_primary(s1, ts1, p, d) {
        assert(kind_at(ts1, q) == kind_at(ts2, q));
        if d > 0 {
            lemma_alike_unary(s1, ts1, s2, ts2, q + 1, (d - 1) as nat);
        }
    }
}

proof fn lemma_alike_unary(s1: Seq<char>, ts1: Seq<Token>, s2: Seq<char>, ts2: Seq<Token>, p: int, d: nat)
    requires
        same_tokens(s1, ts1, s2, ts2),
    ensures
        alike(spec_unary(s1, ts1, p, d), spec_unary(s2, ts2, p, d)),
    decreases d, 2nat,
{
    assert(kind_at(ts1, p) == kind_at(ts2, p));
    if d > 0 {
        lemma_alike_unary(s1, ts1, s2, ts2, p + 1, (d - 1) as nat);
    }
    lemma_alike_power(s1, ts1, s2, ts2, p, d);
}

proof fn lemma_alike_mul_rest(
    s1: Seq<char>,
    ts1: Seq<Token>,
    s2: Seq<char>,
    ts2: Seq<Token>,
    lhs: Ast,
    p: int,
    d: nat,
)
    requires
        same_tokens(s1, ts1, s2, ts2),
    ensures
        alike(spec_mul_rest(s1, ts1, lhs, p, d), spec_mul_rest(s2, ts2, lhs, p, d)),
    decreases d, 3nat,
{
    assert(kind_at(ts1, p) == kind_at(ts2, p));
    if d > 0 {
        lemma_alike_unary(s1, ts1, s2, ts2, p + 1, d);
        if let Ok((r, q)) = spec_unary(s1, ts1, p + 1, d) {
            if let Some(op) = mul_op(kind_at(ts1, p)) {
                lemma_alike_mul_rest(
                    s1,
                    ts1,
                    s2,
                    ts2,
                    Ast::Binary(op, Box::new(lhs), Box::new(r)),
                    q,
                    (d - 1) as nat,
                );
            }
        }
    }
}

proof fn lemma_alike_mul(s1: Seq<char>, ts1: Seq<Token>, s2: Seq<char>, ts2: Seq<Token>, p: int, d: nat)
    requires
        same_tokens(s1, ts1, s2, ts2),
    ensures
        alike(spec_mul(s1, ts1, p, d), spec_mul(s2, ts2, p, d)),
    decreases d, 4nat,
{
    lemma_alike_unary(s1, ts1, s2, ts2, p, d);
    if let Ok((l, q)) = spec_unary(s1, ts1, p, d) {
        lemma_alike_mul_rest(s1, ts1, s2, ts2, l, q, d);
    }
}

proof fn lemma_alike_add_rest(
    s1: Seq<char>,
    ts1: Seq<Token>,
    s2: Seq<char>,
    ts2: Seq<Token>,
    lhs: Ast,
    p: int,
    d: nat,
)
    requires
        same_tokens(s1, ts1, s2, ts2),
    ensures
        alike(spec_add_rest(s1, ts1, lhs, p, d), spec_add_rest(s2, ts2, lhs, p, d)),
    decreases d, 5nat,
{
    assert(kind_at(ts1, p) == kind_at(ts2, p));
    if d > 0 {
        lemma_alike_mul(s1, ts1, s2, ts2, p + 1, d);
        if let Ok((r, q)) = spec_mul(s1, ts1, p + 1, d) {
            if let Some(op) = add_op(kind_at(ts1, p)) {
                lemma_alike_add_rest(
                    s1,
                    ts1,
                    s2,
                    ts2,
                    Ast::Binary(op, Box::new(lhs), Box::new(r)),
                    q,
                    (d - 1) as nat,
                );
            }
        }
    }
}

proof fn lemma_alike_expr(s1: Seq<char>, ts1: Seq<Token>, s2: Seq<char>, ts2: Seq<Token>, p: int, d: nat)
    requires
        same_tokens(s1, ts1, s2, ts2),
    ensures
        alike(spec_expr(s1, ts1, p, d), spec_expr(s2, ts2, p, d)),
    decreases d, 6nat,
{
    lemma_alike_mul(s1, ts1, s2, ts2, p, d);
    if let Ok((l, q)) = spec_mul(s1, ts1, p, d) {
        lemma_alike_add_rest(s1, ts1, s2, ts2, l, q, d);
    }
}

proof fn lemma_alike_args_rest(
    s1: Seq<char>,
    ts1: Seq<Token>,
    s2: Seq<char>,
    ts2: Seq<Token>,
    acc: Seq<Ast>,
    p: int,
    d: nat,
)
    requires
        same_tokens(s1, ts1, s2, ts2),
    ensures
        alike(spec_args_rest(s1, ts1, acc, p, d), spec_args_rest(s2, ts2, acc, p, d)),
    decreases d, 7nat,
{
    assert(kind_at(ts1, p) == kind_at(ts2, p));
    if d > 0 {
        lemma_alike_expr(s1, ts1, s2, ts2, p + 1, d);
        if let Ok((a, q)) = spec_expr(s1, ts1, p + 1, d) {
            lemma_alike_args_rest(s1, ts1, s2, ts2, acc.push(a), q, (d - 1) as nat);
        }
    }
}

proof fn lemma_alike_call_args(
    s1: Seq<char>,
    ts1: Seq<Token>,
    s2: Seq<char>,
    ts2: Seq<Token>,
    p: int,
    d: nat,
)
    requires
        same_tokens(s1, ts1, s2, ts2),
    ensures
        alike(spec_call_args(s1, ts1, p, d), spec_call_args(s2, ts2, p, d)),
    decreases d, 8nat,
{
    lemma_alike_expr(s1, ts1, s2, ts2, p, d);
    if let Ok((a, q)) = spec_expr(s1, ts1, p, d) {
        lemma_alike_args_rest(s1, ts1, s2, ts2, seq![a], q, d);
    }
}

/// Texts whose tokens have the same kinds and the same text for numbers and
/// names, whatever the offsets of those tokens (and so whatever whitespace
/// stands between them), compile to the same tree, or fail in the same stage
/// with the same kind of failure.
pub proof fn lemma_layout_insignificant(s1: Seq<char>, s2: Seq<char>)
    requires
        lex(s1) is Ok,
        lex(s2) is Ok,
        same_tokens(s1, lex(s1)->Ok_0, s2, lex(s2)->Ok_0),
    ensures
        spec_compile(s1) is Ok <==> spec_compile(s2) is Ok,
        spec_compile(s1) is Ok ==> spec_compile(s1) == spec_compile(s2),
        spec_compile(s1) == Err::<Resolved, Failed>(Failed::Eval(Fault::TooComplex))
            <==> spec_compile(s2) == Err::<Resolved, Failed>(Failed::Eval(Fault::TooComplex)),
{
    let ts1 = lex(s1)->Ok_0;
    let ts2 = lex(s2)->Ok_0;
    lemma_alike_expr(s1, ts1, s2, ts2, 0, MAX_DEPTH as nat);
    if let Ok((_, q)) = spec_expr(s1, ts1, 0, MAX_DEPTH as nat) {
        assert(kind_at(ts1, q) == kind_at(ts2, q));
    }
}

} // verus!

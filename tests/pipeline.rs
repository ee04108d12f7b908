use rust_calc::lexer::{LexError, Op, TokenKind, tokenize};
use rust_calc::registry::{Builtin, lookup};
use rust_calc::resolve::{EvalError, Node, resolve};
use rust_calc::syntax::{BinaryOp, Expected, Expr, ParseError, SyntaxError, UnaryOp, parse};
use rust_calc::{Failure, compile};

fn value(n: &Node) -> f64 {
    match n {
        Node::Number(t) => t.parse::<f64>().unwrap(),
        Node::Constant(Builtin::Pi) => std::f64::consts::PI,
        Node::Constant(_) => std::f64::consts::E,
        Node::Unary(UnaryOp::Neg, x) => -value(x),
        Node::Unary(UnaryOp::Plus, x) => value(x),
        Node::Binary(op, l, r) => {
            let (a, b) = (value(l), value(r));
            match op {
                BinaryOp::Add => a + b,
                BinaryOp::Sub => a - b,
                BinaryOp::Mul => a * b,
                BinaryOp::Div => a / b,
                BinaryOp::Rem => a % b,
                BinaryOp::Pow => a.powf(b),
            }
        }
        Node::Apply1(Builtin::Sqrt, x) => value(x).sqrt(),
        Node::Apply1(Builtin::Abs, x) => value(x).abs(),
        Node::Apply1(_, _) => panic!("function not used in these tests"),
        Node::Apply2(_, x, y) => value(x).powf(value(y)),
    }
}

fn eval(s: &str) -> f64 {
    value(&compile(s).unwrap())
}

fn num(t: &str) -> Box<Node> {
    Box::new(Node::Number(t.to_string()))
}

fn parse_error(position: usize, expected: Expected, found: TokenKind) -> Failure {
    Failure::Parse(ParseError { position, expected, found })
}

#[test]
fn precedence_of_products() {
    assert_eq!(eval("2+3*4"), 14.0);
    assert_eq!(eval("(2+3)*4"), 20.0);
    assert_eq!(eval("2*3+4"), 10.0);
    assert_eq!(eval("10-4-3"), 3.0);
    assert_eq!(eval("8/4/2"), 1.0);
    assert_eq!(eval("7%4*2"), 6.0);
}

#[test]
fn precedence_tree() {
    let expected = Node::Binary(
        BinaryOp::Add,
        num("2"),
        Box::new(Node::Binary(BinaryOp::Mul, num("3"), num("4"))),
    );
    assert_eq!(compile("2+3*4").unwrap(), expected);
}

#[test]
fn power_is_right_associative() {
    assert_eq!(eval("2^3^2"), 512.0);
    let expected = Node::Binary(
        BinaryOp::Pow,
        num("2"),
        Box::new(Node::Binary(BinaryOp::Pow, num("3"), num("2"))),
    );
    assert_eq!(compile("2^3^2").unwrap(), expected);
}

#[test]
fn minus_below_power() {
    assert_eq!(eval("-2^2"), -4.0);
    assert_eq!(eval("2^-1"), 0.5);
    assert_eq!(eval("--3"), 3.0);
    assert_eq!(eval("+3"), 3.0);
    assert_eq!(eval("2*-3"), -6.0);
}

#[test]
fn division_by_zero_is_no_error() {
    assert_eq!(eval("1/0"), f64::INFINITY);
    assert!(eval("0/0").is_nan());
    assert!(eval("1%0").is_nan());
}

#[test]
fn unknown_identifier() {
    assert_eq!(
        compile("foo(1)"),
        Err(Failure::Eval(EvalError::UnknownIdentifier("foo".to_string())))
    );
    assert_eq!(
        compile("x + y"),
        Err(Failure::Eval(EvalError::UnknownIdentifier("x".to_string())))
    );
    assert_eq!(
        compile("PI"),
        Err(Failure::Eval(EvalError::UnknownIdentifier("PI".to_string())))
    );
}

#[test]
fn arguments_resolve_before_the_name() {
    assert_eq!(
        compile("foo(bar)"),
        Err(Failure::Eval(EvalError::UnknownIdentifier("bar".to_string())))
    );
}

#[test]
fn arity_mismatch() {
    assert_eq!(
        compile("sqrt(1,2)"),
        Err(Failure::Eval(EvalError::ArityMismatch("sqrt".to_string(), 1, 2)))
    );
    assert_eq!(
        compile("sqrt"),
        Err(Failure::Eval(EvalError::ArityMismatch("sqrt".to_string(), 1, 0)))
    );
    assert_eq!(
        compile("pi(1)"),
        Err(Failure::Eval(EvalError::ArityMismatch("pi".to_string(), 0, 1)))
    );
    assert_eq!(
        compile("pow(2)"),
        Err(Failure::Eval(EvalError::ArityMismatch("pow".to_string(), 2, 1)))
    );
}

#[test]
fn builtins_resolve() {
    assert_eq!(compile("pi").unwrap(), Node::Constant(Builtin::Pi));
    assert_eq!(compile("e").unwrap(), Node::Constant(Builtin::E));
    assert_eq!(compile("sqrt(16)").unwrap(), Node::Apply1(Builtin::Sqrt, num("16")));
    assert_eq!(compile("pow(2,10)").unwrap(), Node::Apply2(Builtin::Pow, num("2"), num("10")));
    assert_eq!(eval("pow(2,10)"), 1024.0);
    assert_eq!(eval("abs(-3)"), 3.0);
    assert_eq!(eval("sqrt(16)+1"), 5.0);
}

#[test]
fn lookup_table() {
    assert_eq!(lookup(&"log10".to_string()), Some(Builtin::Log10));
    assert_eq!(lookup(&"ceil".to_string()), Some(Builtin::Ceil));
    assert_eq!(lookup(&"Sin".to_string()), None);
    assert_eq!(lookup(&"".to_string()), None);
    assert_eq!(Builtin::Pow.arity(), 2);
    assert_eq!(Builtin::Floor.arity(), 1);
    assert_eq!(Builtin::E.arity(), 0);
}

#[test]
fn malformed_input_positions() {
    assert_eq!(compile("2+"), Err(parse_error(2, Expected::Expression, TokenKind::End)));
    assert_eq!(
        compile("2+*3"),
        Err(parse_error(2, Expected::Expression, TokenKind::Operator(Op::Star)))
    );
}

#[test]
fn distinct_syntax_errors() {
    assert_eq!(compile(""), Err(parse_error(0, Expected::Expression, TokenKind::End)));
    assert_eq!(compile("   "), Err(parse_error(3, Expected::Expression, TokenKind::End)));
    assert_eq!(compile("(2"), Err(parse_error(2, Expected::RightParen, TokenKind::End)));
    assert_eq!(compile("2)"), Err(parse_error(1, Expected::End, TokenKind::RightParen)));
    assert_eq!(compile("2pi"), Err(parse_error(1, Expected::End, TokenKind::Identifier)));
    assert_eq!(compile("2(3)"), Err(parse_error(1, Expected::End, TokenKind::LeftParen)));
    assert_eq!(
        compile("sin()"),
        Err(parse_error(4, Expected::Expression, TokenKind::RightParen))
    );
    assert_eq!(
        compile("pow(1 2)"),
        Err(parse_error(6, Expected::CommaOrRightParen, TokenKind::Number))
    );
}

#[test]
fn whitespace_is_insignificant() {
    assert_eq!(compile("2 + 3"), compile("2+3"));
    assert_eq!(compile(" \t2\n*\r( 1 +2)"), compile("2*(1+2)"));
    assert_eq!(eval("2 + 3"), eval("2+3"));
}

#[test]
fn repeated_calls_agree() {
    for s in ["2+3*4", "0/0", "foo(1)", "2+", "1.2.3"] {
        assert_eq!(compile(s), compile(s));
    }
    assert_eq!(eval("1/3").to_bits(), eval("1/3").to_bits());
}

#[test]
fn lexical_errors() {
    assert_eq!(compile("2 $ 3"), Err(Failure::Lex(LexError { position: 2, character: '$' })));
    assert_eq!(compile("1.2.3"), Err(Failure::Lex(LexError { position: 3, character: '.' })));
    assert_eq!(compile("2..3"), Err(Failure::Lex(LexError { position: 2, character: '.' })));
    assert_eq!(compile("."), Err(Failure::Lex(LexError { position: 0, character: '.' })));
    assert_eq!(compile("x_1"), Err(Failure::Lex(LexError { position: 1, character: '_' })));
}

#[test]
fn positions_are_byte_offsets() {
    assert_eq!(compile("é+1"), Err(Failure::Lex(LexError { position: 0, character: 'é' })));
    let ts = tokenize("(1)+\u{20ac}").err().unwrap();
    assert_eq!(ts, LexError { position: 4, character: '\u{20ac}' });
    assert_eq!(compile("\u{a0}2"), Err(Failure::Lex(LexError { position: 0, character: '\u{a0}' })));
}

#[test]
fn number_literals() {
    assert_eq!(compile("1e3").unwrap(), Node::Number("1e3".to_string()));
    assert_eq!(compile("2.5E-2").unwrap(), Node::Number("2.5E-2".to_string()));
    assert_eq!(compile(".5").unwrap(), Node::Number(".5".to_string()));
    assert_eq!(compile("2.").unwrap(), Node::Number("2.".to_string()));
    assert_eq!(eval("1e3"), 1000.0);
    assert_eq!(eval("2.5E-2"), 0.025);
    assert_eq!(compile("1e"), Err(parse_error(1, Expected::End, TokenKind::Identifier)));
}

#[test]
fn tokens_and_offsets() {
    let ts = tokenize("sin(x1) ^ 2").unwrap();
    let kinds: Vec<TokenKind> = ts.iter().map(|t| t.kind).collect();
    assert_eq!(
        kinds,
        vec![
            TokenKind::Identifier,
            TokenKind::LeftParen,
            TokenKind::Identifier,
            TokenKind::RightParen,
            TokenKind::Operator(Op::Caret),
            TokenKind::Number,
            TokenKind::End,
        ]
    );
    let offsets: Vec<usize> = ts.iter().map(|t| t.offset).collect();
    assert_eq!(offsets, vec![0, 3, 4, 6, 8, 10, 11]);
    assert_eq!((ts[2].start, ts[2].end), (4, 6));
}

#[test]
fn deep_nesting_is_too_complex() {
    let deep = format!("{}1{}", "(".repeat(300), ")".repeat(300));
    assert_eq!(compile(&deep), Err(Failure::Eval(EvalError::TooComplex)));
    let fine = format!("{}1{}", "(".repeat(100), ")".repeat(100));
    assert_eq!(eval(&fine), 1.0);
    let long_sum = vec!["1"; 300].join("+");
    assert_eq!(compile(&long_sum), Err(Failure::Eval(EvalError::TooComplex)));
    let short_sum = vec!["1"; 100].join("+");
    assert_eq!(eval(&short_sum), 100.0);
}

#[test]
fn stages_one_by_one() {
    let text = "max(1, 2)";
    let ts = tokenize(text).unwrap();
    let tree = parse(text, &ts).unwrap();
    assert_eq!(
        tree,
        Expr::Call(
            "max".to_string(),
            vec![Expr::Number("1".to_string()), Expr::Number("2".to_string())]
        )
    );
    assert_eq!(resolve(&tree), Err(EvalError::UnknownIdentifier("max".to_string())));
    let text = "-x";
    let tree = parse(text, &tokenize(text).unwrap()).unwrap();
    assert_eq!(
        tree,
        Expr::Unary(UnaryOp::Neg, Box::new(Expr::Variable("x".to_string())))
    );
    let text = "1 +";
    assert_eq!(
        parse(text, &tokenize(text).unwrap()),
        Err(SyntaxError::Unexpected(ParseError {
            position: 3,
            expected: Expected::Expression,
            found: TokenKind::End
        }))
    );
    let deep = "-".repeat(250) + "1";
    assert_eq!(parse(&deep, &tokenize(&deep).unwrap()), Err(SyntaxError::TooDeep));
}

//! Tokenizer: turns expression text into a sequence of tokens.
//!
//! Positions are kept twice: as character indices into the text (`start`,
//! `end`, used to recover the text of a number or a name) and as the byte
//! offset of the token's first character (`offset`, used in error reports).
use vstd::prelude::*;
use vstd::std_specs::iter::IteratorSpec;

verus! {

/// The single-character operators.
#[derive(Clone, Copy, Debug, PartialEq, Eq, Structural)]
pub enum Op {
    Plus,
    Minus,
    Star,
    Slash,
    Caret,
    Percent,
}

#[derive(Clone, Copy, Debug, PartialEq, Eq, Structural)]
pub enum TokenKind {
    Number,
    Identifier,
    Operator(Op),
    LeftParen,
    RightParen,
    Comma,
    End,
}

/// A token covers the characters `start..end` of the text; `offset` is the
/// byte offset of its first character (for `End`, the byte length of the text).
#[derive(Clone, Copy, Debug, PartialEq, Eq, Structural)]
pub struct Token {
    pub kind: TokenKind,
    pub start: usize,
    pub end: usize,
    pub offset: usize,
}

/// An unrecognized character, or a second decimal point in a number.
#[derive(Clone, Copy, Debug, PartialEq, Eq, Structural)]
pub struct LexError {
    pub position: usize,
    pub character: char,
}

pub open spec fn is_digit(c: char) -> bool {
    '0' <= c && c <= '9'
}

pub open spec fn is_letter(c: char) -> bool {
    ('a' <= c && c <= 'z') || ('A' <= c && c <= 'Z')
}

pub open spec fn is_space(c: char) -> bool {
    c == ' ' || c == '\t' || c == '\n' || c == '\r'
}

pub open spec fn op_of(c: char) -> Option<Op> {
    if c == '+' {
        Some(Op::Plus)
    } else if c == '-' {
        Some(Op::Minus)
    } else if c == '*' {
        Some(Op::Star)
    } else if c == '/' {
        Some(Op::Slash)
    } else if c == '^' {
        Some(Op::Caret)
    } else if c == '%' {
        Some(Op::Percent)
    } else {
        None
    }
}

/// Number of bytes of `c` in UTF-8.
pub open spec fn utf8_len(c: char) -> nat {
    if (c as u32) < 0x80 {
        1
    } else if (c as u32) < 0x800 {
        2
    } else if (c as u32) < 0x10000 {
        3
    } else {
        4
    }
}

/// Byte offset of the character at index `i` of `s`.
pub open spec fn byte_offset(s: Seq<char>, i: int) -> nat
    decreases i,
{
    if i <= 0 || i > s.len() {
        0
    } else {
        byte_offset(s, i - 1) + utf8_len(s[i - 1])
    }
}

/// Length of `s` in bytes.
pub open spec fn byte_len(s: Seq<char>) -> nat {
    byte_offset(s, s.len() as int)
}

/// The first index at or after `i` that does not hold a character of the
/// class `letters_too` selects: digits alone, or letters and digits.
pub open spec fn run_end(s: Seq<char>, i: int, letters_too: bool) -> int
    decreases s.len() - i,
{
    if i < 0 || i >= s.len() || !(is_digit(s[i]) || (letters_too && is_letter(s[i]))) {
        i
    } else {
        run_end(s, i + 1, letters_too)
    }
}

/// Where a number could start: a digit, or a decimal point before a digit.
pub open spec fn starts_number(s: Seq<char>, i: int) -> bool {
    0 <= i < s.len() && (is_digit(s[i]) || (s[i] == '.' && i + 1 < s.len() && is_digit(
        s[i + 1],
    )))
}

/// End of the mantissa `digits [. digits]` that starts at `i`.
pub open spec fn mantissa_end(s: Seq<char>, i: int) -> int {
    let m = run_end(s, i, false);
    if 0 <= m < s.len() && s[m] == '.' {
        run_end(s, m + 1, false)
    } else {
        m
    }
}

/// Index of the first exponent digit, if an exponent `e|E [+|-] digit` starts at `m`.
pub open spec fn exponent_digits(s: Seq<char>, m: int) -> Option<int> {
    if 0 <= m < s.len() && (s[m] == 'e' || s[m] == 'E') {
        let k = if m + 1 < s.len() && (s[m + 1] == '+' || s[m + 1] == '-') {
            m + 2
        } else {
            m + 1
        };
        if k < s.len() && is_digit(s[k]) {
            Some(k)
        } else {
            None
        }
    } else {
        None
    }
}

/// End of the number literal that starts at `i`. An `e` that is not followed
/// by an exponent is left for the next token.
pub open spec fn number_end(s: Seq<char>, i: int) -> int {
    let m = mantissa_end(s, i);
    match exponent_digits(s, m) {
        Some(k) => run_end(s, k, false),
        None => m,
    }
}

pub open spec fn token(kind: TokenKind, s: Seq<char>, start: int, end: int) -> Token {
    Token {
        kind,
        start: start as usize,
        end: end as usize,
        offset: byte_offset(s, start) as usize,
    }
}

pub open spec fn lex_error(s: Seq<char>, i: int) -> LexError {
    LexError { position: byte_offset(s, i) as usize, character: s[i] }
}

pub open spec fn prepend(t: Token, r: Result<Seq<Token>, LexError>) -> Result<
    Seq<Token>,
    LexError,
> {
    match r {
        Ok(ts) => Ok(seq![t] + ts),
        Err(e) => Err(e),
    }
}

/// The tokens of `s` from index `i` on, ending with `End`, or the first error.
pub open spec fn lex_from(s: Seq<char>, i: int) -> Result<Seq<Token>, LexError>
    decreases s.len() - i,
{
    if i < 0 || i >= s.len() {
        Ok(seq![token(TokenKind::End, s, s.len() as int, s.len() as int)])
    } else if is_space(s[i]) {
        lex_from(s, i + 1)
    } else if starts_number(s, i) {
        let e = number_end(s, i);
        if i < e < s.len() && s[e] == '.' {
            Err(lex_error(s, e))
        } else if e <= i || e > s.len() {
            // not taken: a number covers at least one character of `s`
            Err(lex_error(s, i))
        } else {
            prepend(token(TokenKind::Number, s, i, e), lex_from(s, e))
        }
    } else if is_letter(s[i]) {
        let e = run_end(s, i, true);
        if e <= i || e > s.len() {
            // not taken: a name covers at least one character of `s`
            Err(lex_error(s, i))
        } else {
            prepend(token(TokenKind::Identifier, s, i, e), lex_from(s, e))
        }
    } else if op_of(s[i]) is Some {
        prepend(token(TokenKind::Operator(op_of(s[i])->0), s, i, i + 1), lex_from(s, i + 1))
    } else if s[i] == '(' {
        prepend(token(TokenKind::LeftParen, s, i, i + 1), lex_from(s, i + 1))
    } else if s[i] == ')' {
        prepend(token(TokenKind::RightParen, s, i, i + 1), lex_from(s, i + 1))
    } else if s[i] == ',' {
        prepend(token(TokenKind::Comma, s, i, i + 1), lex_from(s, i + 1))
    } else {
        Err(lex_error(s, i))
    }
}

/// The tokens of the whole text.
pub open spec fn lex(s: Seq<char>) -> Result<Seq<Token>, LexError> {
    lex_from(s, 0)
}

pub proof fn lemma_byte_offset_mono(s: Seq<char>, i: int, j: int)
    requires
        0 <= i <= j <= s.len(),
    ensures
        byte_offset(s, i) <= byte_offset(s, j),
    decreases j - i,
{
    if i < j {
        lemma_byte_offset_mono(s, i, j - 1);
    }
}

proof fn lemma_run_end_bounds(s: Seq<char>, i: int, letters_too: bool)
    requires
        0 <= i <= s.len(),
    ensures
        i <= run_end(s, i, letters_too) <= s.len(),
    decreases s.len() - i,
{
    if i < s.len() && (is_digit(s[i]) || (letters_too && is_letter(s[i]))) {
        lemma_run_end_bounds(s, i + 1, letters_too);
    }
}

fn char_len(c: char) -> (r: usize)
    ensures
        r == utf8_len(c),
{
    if (c as u32) < 0x80 {
        1
    } else if (c as u32) < 0x800 {
        2
    } else if (c as u32) < 0x10000 {
        3
    } else {
        4
    }
}

fn digit(c: char) -> (r: bool)
    ensures
        r == is_digit(c),
{
    '0' <= c && c <= '9'
}

fn letter(c: char) -> (r: bool)
    ensures
        r == is_letter(c),
{
    ('a' <= c && c <= 'z') || ('A' <= c && c <= 'Z')
}

fn space(c: char) -> (r: bool)
    ensures
        r == is_space(c),
{
    c == ' ' || c == '\t' || c == '\n' || c == '\r'
}

fn operator(c: char) -> (r: Option<Op>)
    ensures
        r == op_of(c),
{
    if c == '+' {
        Some(Op::Plus)
    } else if c == '-' {
        Some(Op::Minus)
    } else if c == '*' {
        Some(Op::Star)
    } else if c == '/' {
        Some(Op::Slash)
    } else if c == '^' {
        Some(Op::Caret)
    } else if c == '%' {
        Some(Op::Percent)
    } else {
        None
    }
}

/// The characters of `text`, in order.
pub fn chars_of(text: &str) -> (r: Vec<char>)
    ensures
        r@ == text@,
{
    broadcast use vstd::string::axiom_spec_iter, vstd::string::next_postcondition;

    let mut r: Vec<char> = Vec::new();
    let mut it = text.chars();
    loop
        invariant
            r@ + it.remaining() == text@,
            it.obeys_prophetic_iter_laws(),
        decreases text@.len() - r@.len(),
    {
        let ghost before = it.remaining();
        match it.next() {
            Some(c) => {
                r.push(c);
                assert(r@ + it.remaining() =~= text@) by {
                    assert(before =~= seq![c] + it.remaining());
                }
            },
            None => {
                assert(r@ =~= text@);
                return r;
            },
        }
    }
}

/// Advances over a run of digits (or of letters and digits) from `i`,
/// keeping the byte offset.
fn scan_run(s: &Vec<char>, i: usize, off: usize, letters_too: bool) -> (r: (usize, usize))
    requires
        i <= s@.len(),
        off == byte_offset(s@, i as int),
        byte_len(s@) <= usize::MAX,
    ensures
        r.0 == run_end(s@, i as int, letters_too),
        r.1 == byte_offset(s@, r.0 as int),
{
    let mut j = i;
    let mut o = off;
    while j < s.len() && (digit(s[j]) || (letters_too && letter(s[j])))
        invariant
            i <= j <= s@.len(),
            o == byte_offset(s@, j as int),
            byte_len(s@) <= usize::MAX,
            run_end(s@, i as int, letters_too) == run_end(s@, j as int, letters_too),
        decreases s@.len() - j,
    {
        proof {
            lemma_byte_offset_mono(s@, j + 1, s@.len() as int);
        }
        o = o + char_len(s[j]);
        j = j + 1;
    }
    (j, o)
}

proof fn lemma_number_end_bounds(s: Seq<char>, i: int)
    requires
        starts_number(s, i),
    ensures
        i < number_end(s, i) <= s.len(),
{
    lemma_run_end_bounds(s, i, false);
    let m = run_end(s, i, false);
    if 0 <= m < s.len() && s[m] == '.' {
        lemma_run_end_bounds(s, m + 1, false);
        if m == i {
            lemma_run_end_bounds(s, m + 2, false);
        }
    } else if m == i {
        assert(is_digit(s[i]));
        assert(run_end(s, i + 1, false) >= i + 1) by {
            lemma_run_end_bounds(s, i + 1, false);
        }
    }
    let m2 = mantissa_end(s, i);
    if let Some(k) = exponent_digits(s, m2) {
        lemma_run_end_bounds(s, k, false);
    }
}

/// Scans the number literal that starts at `i`.
fn scan_number(s: &Vec<char>, i: usize, off: usize) -> (r: (usize, usize))
    requires
        starts_number(s@, i as int),
        off == byte_offset(s@, i as int),
        byte_len(s@) <= usize::MAX,
    ensures
        r.0 == number_end(s@, i as int),
        r.1 == byte_offset(s@, r.0 as int),
{
    let ghost g = s@;
    let (m, mo) = scan_run(s, i, off, false);
    proof {
        lemma_run_end_bounds(g, i as int, false);
    }
    let (mut e, mut eo) = (m, mo);
    if m < s.len() && s[m] == '.' {
        proof {
            lemma_byte_offset_mono(g, m + 1, g.len() as int);
            assert(byte_offset(g, m + 1) == mo + 1);
        }
        let r = scan_run(s, m + 1, mo + 1, false);
        proof {
            lemma_run_end_bounds(g, m + 1, false);
        }
        e = r.0;
        eo = r.1;
    }
    assert(e == mantissa_end(g, i as int));
    if e < s.len() && (s[e] == 'e' || s[e] == 'E') {
        let mut k = e + 1;
        if k < s.len() && (s[k] == '+' || s[k] == '-') {
            k = k + 1;
        }
        if k < s.len() && digit(s[k]) {
            proof {
                lemma_byte_offset_mono(g, k as int, g.len() as int);
                assert(byte_offset(g, e + 1) == eo + 1);
                if k == e + 2 {
                    assert(byte_offset(g, e + 2) == eo + 2);
                }
            }
            let ko = if k == e + 2 {
                eo + 2
            } else {
                eo + 1
            };
            let r = scan_run(s, k, ko, false);
            e = r.0;
            eo = r.1;
        }
    }
    (e, eo)
}

/// Splits `text` into tokens, ending with an `End` token, or reports the
/// first character that no token can start with (or a second decimal point
/// in a number).
pub fn tokenize(text: &str) -> (r: Result<Vec<Token>, LexError>)
    requires
        byte_len(text@) <= usize::MAX,
    ensures
        match (r, lex(text@)) {
            (Ok(ts), Ok(spec_ts)) => ts@ == spec_ts,
            (Err(e), Err(spec_e)) => e == spec_e,
            _ => false,
        },
{
    let s = chars_of(text);
    let ghost g = s@;
    let mut out: Vec<Token> = Vec::new();
    let mut i: usize = 0;
    let mut off: usize = 0;
    while i < s.len()
        invariant
            g == s@,
            g == text@,
            i <= s@.len(),
            off == byte_offset(g, i as int),
            byte_len(g) <= usize::MAX,
            lex(g) == prepend_all(out@, lex_from(g, i as int)),
        decreases s@.len() - i,
    {
        proof {
            lemma_byte_offset_mono(g, i + 1, g.len() as int);
        }
        let c = s[i];
        let start_off = off;
        if space(c) {
            off = off + char_len(c);
            i = i + 1;
        } else if digit(c) || (c == '.' && i + 1 < s.len() && digit(s[i + 1])) {
            let (e, eo) = scan_number(&s, i, off);
            proof {
                lemma_number_end_bounds(g, i as int);
            }
            if e < s.len() && s[e] == '.' {
                proof {
                    lemma_byte_offset_mono(g, e as int, g.len() as int);
                }
                return Err(LexError { position: eo, character: '.' });
            }
            proof {
                lemma_prepend_all_push(out@, token(TokenKind::Number, g, i as int, e as int), lex_from(g, e as int));
            }
            out.push(Token { kind: TokenKind::Number, start: i, end: e, offset: start_off });
            i = e;
            off = eo;
        } else if letter(c) {
            let (e, eo) = scan_run(&s, i, off, true);
            proof {
                lemma_run_end_bounds(g, i + 1, true);
                lemma_prepend_all_push(out@, token(TokenKind::Identifier, g, i as int, e as int), lex_from(g, e as int));
            }
            out.push(Token { kind: TokenKind::Identifier, start: i, end: e, offset: start_off });
            i = e;
            off = eo;
        } else {
            let kind = match operator(c) {
                Some(op) => TokenKind::Operator(op),
                None => {
                    if c == '(' {
                        TokenKind::LeftParen
                    } else if c == ')' {
                        TokenKind::RightParen
                    } else if c == ',' {
                        TokenKind::Comma
                    } else {
                        return Err(LexError { position: off, character: c });
                    }
                },
            };
            proof {
                lemma_prepend_all_push(out@, token(kind, g, i as int, i + 1), lex_from(g, i + 1));
            }
            out.push(Token { kind, start: i, end: i + 1, offset: start_off });
            off = off + char_len(c);
            i = i + 1;
        }
    }
    proof {
        lemma_prepend_all_push(out@, token(TokenKind::End, g, g.len() as int, g.len() as int), Ok(Seq::empty()));
    }
    out.push(Token { kind: TokenKind::End, start: i, end: i, offset: off });
    proof {
        assert(out@ =~= out@ + Seq::<Token>::empty());
    }
    Ok(out)
}

/// Every token that lexing yields lies within the text.
pub proof fn lemma_lex_fits(s: Seq<char>, i: int)
    requires
        0 <= i,
        s.len() <= usize::MAX,
    ensures
        lex_from(s, i) matches Ok(ts) ==> forall|k: int|
            0 <= k < ts.len() ==> #[trigger] ts[k].start <= ts[k].end && ts[k].end <= s.len(),
    decreases s.len() - i,
{
    if i < s.len() {
        let e = if is_space(s[i]) || op_of(s[i]) is Some || s[i] == '(' || s[i] == ')' || s[i]
            == ',' {
            i + 1
        } else if starts_number(s, i) {
            number_end(s, i)
        } else {
            run_end(s, i, true)
        };
        if i < e <= s.len() {
            lemma_lex_fits(s, e);
            if let Ok(ts) = lex_from(s, i) {
                if !is_space(s[i]) {
                    let rest = lex_from(s, e)->Ok_0;
                    assert(ts =~= seq![ts[0]] + rest);
                    assert forall|k: int| 0 <= k < ts.len() implies #[trigger] ts[k].start
                        <= ts[k].end && ts[k].end <= s.len() by {
                        if k > 0 {
                            assert(ts[k] == rest[k - 1]);
                        }
                    }
                }
            }
        }
    }
}

/// `r` with the tokens `done` in front.
pub open spec fn prepend_all(done: Seq<Token>, r: Result<Seq<Token>, LexError>) -> Result<
    Seq<Token>,
    LexError,
> {
    match r {
        Ok(ts) => Ok(done + ts),
        Err(e) => Err(e),
    }
}

proof fn lemma_prepend_all_push(done: Seq<Token>, t: Token, r: Result<Seq<Token>, LexError>)
    ensures
        prepend_all(done, prepend(t, r)) == prepend_all(done.push(t), r),
{
    if let Ok(ts) = r {
        assert(done + (seq![t] + ts) =~= done.push(t) + ts);
    }
}

} // verus!

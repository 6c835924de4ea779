use vstd::prelude::*;
use crate::ops::{Op, op_of_symbol};

verus! {

/// A lexical token. `Number` holds the literal text as scanned (digits,
/// decimal points and a fused leading minus); whether it is a well-formed
/// number is decided when it is evaluated.
#[derive(Clone, Debug, PartialEq, Eq)]
pub enum Token {
    Number(String),
    Operator(Op),
    OpenParen,
    CloseParen,
    /// A character outside the calculator's alphabet.
    Invalid(char),
}

/// The mathematical value of a token.
pub enum Lexeme {
    Number(Seq<char>),
    Operator(Op),
    OpenParen,
    CloseParen,
    Invalid(char),
}

impl View for Token {
    type V = Lexeme;

    open spec fn view(&self) -> Lexeme {
        match self {
            Token::Number(s) => Lexeme::Number(s@),
            Token::Operator(op) => Lexeme::Operator(*op),
            Token::OpenParen => Lexeme::OpenParen,
            Token::CloseParen => Lexeme::CloseParen,
            Token::Invalid(c) => Lexeme::Invalid(*c),
        }
    }
}

pub open spec fn view_tokens(ts: Seq<Token>) -> Seq<Lexeme> {
    ts.map_values(|t: Token| t@)
}

pub open spec fn is_digit(c: char) -> bool {
    '0' <= c <= '9'
}

/// Characters that extend a numeric literal.
pub open spec fn is_literal_char(c: char) -> bool {
    is_digit(c) || c == '.'
}

/// The Unicode `White_Space` characters.
pub open spec fn is_white_space(c: char) -> bool {
    ('\u{9}' <= c <= '\u{d}') || c == ' ' || c == '\u{85}' || c == '\u{a0}' || c == '\u{1680}'
        || ('\u{2000}' <= c <= '\u{200a}') || c == '\u{2028}' || c == '\u{2029}' || c
        == '\u{202f}' || c == '\u{205f}' || c == '\u{3000}'
}

/// Operator symbols and parentheses.
pub open spec fn is_symbol(c: char) -> bool {
    op_of_symbol(c) is Some || c == '(' || c == ')'
}

/// A minus directly after one of these characters is a sign, not subtraction.
pub open spec fn precedes_sign(c: char) -> bool {
    op_of_symbol(c) is Some || c == '('
}

/// Whether the minus at position `i` of `s` is fused into a literal.
pub open spec fn is_sign_at(s: Seq<char>, i: int) -> bool {
    i == 0 || precedes_sign(s[i - 1])
}

pub open spec fn symbol_lexeme(c: char) -> Lexeme {
    if c == '(' {
        Lexeme::OpenParen
    } else if c == ')' {
        Lexeme::CloseParen
    } else {
        Lexeme::Operator(op_of_symbol(c)->0)
    }
}

/// Tokens emitted so far, the literal being accumulated, and the first
/// character outside the alphabet, if one was met.
pub struct LexState {
    pub tokens: Seq<Lexeme>,
    pub pending: Seq<char>,
    pub bad: Option<char>,
}

/// Completes the pending literal, if any, as a number token.
pub open spec fn flush(tokens: Seq<Lexeme>, pending: Seq<char>) -> Seq<Lexeme> {
    if pending.len() == 0 {
        tokens
    } else {
        tokens.push(Lexeme::Number(pending))
    }
}

/// The scanner's state after the first `n` characters of `s`.
pub open spec fn scan(s: Seq<char>, n: int) -> LexState
    decreases n,
{
    if n <= 0 {
        LexState { tokens: Seq::empty(), pending: Seq::empty(), bad: None }
    } else {
        let st = scan(s, n - 1);
        let c = s[n - 1];
        if st.bad is Some {
            st
        } else if is_literal_char(c) || (c == '-' && is_sign_at(s, n - 1)) {
            LexState { pending: st.pending.push(c), ..st }
        } else if is_symbol(c) {
            LexState {
                tokens: flush(st.tokens, st.pending).push(symbol_lexeme(c)),
                pending: Seq::empty(),
                bad: None,
            }
        } else if is_white_space(c) {
            LexState { tokens: flush(st.tokens, st.pending), pending: Seq::empty(), bad: None }
        } else {
            LexState { bad: Some(c), ..st }
        }
    }
}

/// The token sequence of the text `s`: a single `Invalid` token for the
/// first character outside the alphabet, else every token in order.
pub open spec fn lex(s: Seq<char>) -> Seq<Lexeme> {
    let st = scan(s, s.len() as int);
    match st.bad {
        Some(c) => seq![Lexeme::Invalid(c)],
        None => flush(st.tokens, st.pending),
    }
}

proof fn lemma_bad_sticks(s: Seq<char>, n: int, m: int)
    requires
        0 <= n <= m,
        scan(s, n).bad is Some,
    ensures
        scan(s, m) == scan(s, n),
    decreases m - n,
{
    if m > n {
        lemma_bad_sticks(s, n, m - 1);
    }
}

/// Re-tokenizing the same text yields the same token sequence.
pub proof fn lemma_lex_deterministic(s: Seq<char>, t: Seq<char>)
    requires
        s == t,
    ensures
        lex(s) == lex(t),
{
}

/// Relies on `String::push`: appends one character.
#[verifier::external_body]
fn push_char(s: &mut String, c: char)
    ensures
        final(s)@ == old(s)@.push(c),
{
    s.push(c)
}

/// Whether `c` has the Unicode `White_Space` property.
pub fn is_whitespace(c: char) -> (r: bool)
    ensures
        r == is_white_space(c),
{
    ('\u{9}' <= c && c <= '\u{d}') || c == ' ' || c == '\u{85}' || c == '\u{a0}' || c == '\u{1680}'
        || ('\u{2000}' <= c && c <= '\u{200a}') || c == '\u{2028}' || c == '\u{2029}' || c
        == '\u{202f}' || c == '\u{205f}' || c == '\u{3000}'
}

fn symbol_token(c: char) -> (r: Token)
    requires
        is_symbol(c),
    ensures
        r@ == symbol_lexeme(c),
{
    if c == '(' {
        Token::OpenParen
    } else if c == ')' {
        Token::CloseParen
    } else {
        match Op::from_symbol(c) {
            Some(op) => Token::Operator(op),
            None => unreached(),
        }
    }
}

fn flush_pending(tokens: &mut Vec<Token>, pending: &mut String)
    ensures
        view_tokens(final(tokens)@) == flush(view_tokens(old(tokens)@), old(pending)@),
        final(pending)@ == Seq::<char>::empty(),
{
    if pending.unicode_len() > 0 {
        let lit = pending.clone();
        *pending = String::new();
        tokens.push(Token::Number(lit));
        assert(view_tokens(tokens@) =~= view_tokens(old(tokens)@).push(
            Lexeme::Number(old(pending)@),
        ));
    } else {
        assert(pending@ =~= Seq::<char>::empty());
    }
}

/// Splits `input` into tokens, scanning left to right. A minus that starts
/// the input or follows an operator symbol or `(` is fused into the
/// following literal. A character outside the alphabet yields the single
/// token `Invalid` of the first such character.
pub fn tokenize(input: &str) -> (r: Vec<Token>)
    ensures
        view_tokens(r@) == lex(input@),
{
    let n = input.unicode_len();
    let mut tokens: Vec<Token> = Vec::new();
    let mut current = String::new();
    let mut i: usize = 0;
    assert(view_tokens(tokens@) =~= Seq::<Lexeme>::empty());
    while i < n
        invariant
            n == input@.len(),
            0 <= i <= n,
            scan(input@, i as int) == (LexState {
                tokens: view_tokens(tokens@),
                pending: current@,
                bad: None,
            }),
        decreases n - i,
    {
        let c = input.get_char(i);
        let sign = c == '-' && (i == 0 || {
            let p = input.get_char(i - 1);
            Op::from_symbol(p).is_some() || p == '('
        });
        if ('0' <= c && c <= '9') || c == '.' || sign {
            push_char(&mut current, c);
        } else if Op::from_symbol(c).is_some() || c == '(' || c == ')' {
            flush_pending(&mut tokens, &mut current);
            let ghost before = tokens@;
            let t = symbol_token(c);
            tokens.push(t);
            assert(view_tokens(tokens@) =~= view_tokens(before).push(t@));
        } else if is_whitespace(c) {
            flush_pending(&mut tokens, &mut current);
        } else {
            proof {
                lemma_bad_sticks(input@, i + 1, n as int);
            }
            return vec![Token::Invalid(c)];
        }
        i = i + 1;
    }
    flush_pending(&mut tokens, &mut current);
    tokens
}

} // verus!

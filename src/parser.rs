//! The surface syntax: a lexer over characters and a precedence-climbing
//! parser over tokens.
//!
//! ```text
//! program    = decl* expression
//! decl       = "pub" ident ":" ("F" | "Bool") ";" | "let" ident "=" expression ";"
//! ```
//! Operators, loosest first: `+ - ||`, then `* &&` (both left), prefix `-`,
//! `^` (right), `==` (left). Atoms are integers, `true`, `false`,
//! identifiers, parenthesised expressions and `if c then a else b`. `//`
//! starts a comment that runs to the end of the line.
use vstd::prelude::*;
use vstd::string::*;
use crate::ast::{Expr, Ident, Literal, Opcode, SourePos, Span, UOpcode};
use crate::declaration::{Binder, Declaration};
use crate::error::ASTError;
use crate::program::{acyclic, dependency_order, names_unique, refs_declared, Program};
use crate::typechecker::Ty;

verus! {

#[derive(Debug, PartialEq, Eq, Clone)]
pub enum Tok {
    Int(i32),
    True,
    False,
    Ident(String),
    Pub,
    Let,
    If,
    Then,
    Else,
    TyField,
    TyBool,
    Colon,
    Semi,
    Assign,
    EqEq,
    Plus,
    Minus,
    Star,
    Caret,
    AndAnd,
    OrOr,
    LParen,
    RParen,
}

/// A token and the text it spans.
#[derive(Debug, PartialEq, Eq, Clone)]
pub struct Token {
    pub tok: Tok,
    pub span: Span,
}

#[derive(Debug, PartialEq, Eq)]
pub enum ParseError {
    /// A character that starts no token.
    UnexpectedChar(SourePos, char),
    /// An integer literal outside the range of `i32`.
    IntegerOutOfRange(Span),
    /// A token where the grammar allows none of its kind.
    UnexpectedToken(Span),
    /// The input ended inside a declaration or an expression.
    UnexpectedEnd,
    /// The declarations are rejected by the program constructor.
    Program(ASTError),
}

/// The parser type of the language.
pub struct CalcParser;

pub open spec fn is_digit(c: char) -> bool {
    '0' <= c <= '9'
}

pub open spec fn is_ident_start(c: char) -> bool {
    ('a' <= c <= 'z') || ('A' <= c <= 'Z') || c == '_'
}

pub open spec fn is_ident_char(c: char) -> bool {
    is_ident_start(c) || is_digit(c)
}

fn next_col(c: u32) -> (r: u32)
    ensures
        r == if c < u32::MAX {
            (c + 1) as u32
        } else {
            c
        },
{
    if c < u32::MAX {
        c + 1
    } else {
        c
    }
}

/// The reserved words.
pub open spec fn is_keyword(s: Seq<char>) -> bool {
    ||| s == seq!['p', 'u', 'b']
    ||| s == seq!['l', 'e', 't']
    ||| s == seq!['i', 'f']
    ||| s == seq!['t', 'h', 'e', 'n']
    ||| s == seq!['e', 'l', 's', 'e']
    ||| s == seq!['t', 'r', 'u', 'e']
    ||| s == seq!['f', 'a', 'l', 's', 'e']
    ||| s == seq!['F']
    ||| s == seq!['B', 'o', 'o', 'l']
}

/// A name: a letter or `_`, then letters, digits and `_`, and no reserved
/// word.
pub open spec fn is_identifier(s: Seq<char>) -> bool {
    &&& s.len() > 0
    &&& is_ident_start(s[0])
    &&& forall|i: int| 0 <= i < s.len() ==> is_ident_char(#[trigger] s[i])
    &&& !is_keyword(s)
}

fn keyword(word: &Vec<char>) -> (r: Option<Tok>)
    ensures
        r is None <==> !is_keyword(word@),
        r matches Some(t) ==> !(t is Ident),
        r == kw_tok(word@),
{
    let n = word.len();
    if n == 2 && word[0] == 'i' && word[1] == 'f' {
        assert(word@ =~= seq!['i', 'f']);
        Some(Tok::If)
    } else if n == 1 && word[0] == 'F' {
        assert(word@ =~= seq!['F']);
        Some(Tok::TyField)
    } else if n == 3 && word[0] == 'p' && word[1] == 'u' && word[2] == 'b' {
        assert(word@ =~= seq!['p', 'u', 'b']);
        Some(Tok::Pub)
    } else if n == 3 && word[0] == 'l' && word[1] == 'e' && word[2] == 't' {
        assert(word@ =~= seq!['l', 'e', 't']);
        Some(Tok::Let)
    } else if n == 4 && word[0] == 't' && word[1] == 'h' && word[2] == 'e' && word[3] == 'n' {
        assert(word@ =~= seq!['t', 'h', 'e', 'n']);
        Some(Tok::Then)
    } else if n == 4 && word[0] == 'e' && word[1] == 'l' && word[2] == 's' && word[3] == 'e' {
        assert(word@ =~= seq!['e', 'l', 's', 'e']);
        Some(Tok::Else)
    } else if n == 4 && word[0] == 't' && word[1] == 'r' && word[2] == 'u' && word[3] == 'e' {
        assert(word@ =~= seq!['t', 'r', 'u', 'e']);
        Some(Tok::True)
    } else if n == 5 && word[0] == 'f' && word[1] == 'a' && word[2] == 'l' && word[3] == 's' && word[4] == 'e' {
        assert(word@ =~= seq!['f', 'a', 'l', 's', 'e']);
        Some(Tok::False)
    } else if n == 4 && word[0] == 'B' && word[1] == 'o' && word[2] == 'o' && word[3] == 'l' {
        assert(word@ =~= seq!['B', 'o', 'o', 'l']);
        Some(Tok::TyBool)
    } else {
        proof {
            if word@ == seq!['i', 'f'] {
                assert(word@[0] == seq!['i', 'f'][0] && word@[1] == seq!['i', 'f'][1]);
            }
            if word@ == seq!['F'] {
                assert(word@[0] == seq!['F'][0]);
            }
            if word@ == seq!['p', 'u', 'b'] {
                assert(word@[0] == seq!['p', 'u', 'b'][0] && word@[1] == seq!['p', 'u', 'b'][1] && word@[2] == seq!['p', 'u', 'b'][2]);
            }
            if word@ == seq!['l', 'e', 't'] {
                assert(word@[0] == seq!['l', 'e', 't'][0] && word@[1] == seq!['l', 'e', 't'][1] && word@[2] == seq!['l', 'e', 't'][2]);
            }
            if word@ == seq!['t', 'h', 'e', 'n'] {
                assert(word@[0] == seq!['t', 'h', 'e', 'n'][0] && word@[1] == seq!['t', 'h', 'e', 'n'][1] && word@[2] == seq!['t', 'h', 'e', 'n'][2] && word@[3] == seq!['t', 'h', 'e', 'n'][3]);
            }
            if word@ == seq!['e', 'l', 's', 'e'] {
                assert(word@[0] == seq!['e', 'l', 's', 'e'][0] && word@[1] == seq!['e', 'l', 's', 'e'][1] && word@[2] == seq!['e', 'l', 's', 'e'][2] && word@[3] == seq!['e', 'l', 's', 'e'][3]);
            }
            if word@ == seq!['t', 'r', 'u', 'e'] {
                assert(word@[0] == seq!['t', 'r', 'u', 'e'][0] && word@[1] == seq!['t', 'r', 'u', 'e'][1] && word@[2] == seq!['t', 'r', 'u', 'e'][2] && word@[3] == seq!['t', 'r', 'u', 'e'][3]);
            }
            if word@ == seq!['f', 'a', 'l', 's', 'e'] {
                assert(word@[0] == seq!['f', 'a', 'l', 's', 'e'][0] && word@[1] == seq!['f', 'a', 'l', 's', 'e'][1] && word@[2] == seq!['f', 'a', 'l', 's', 'e'][2] && word@[3] == seq!['f', 'a', 'l', 's', 'e'][3] && word@[4] == seq!['f', 'a', 'l', 's', 'e'][4]);
            }
            if word@ == seq!['B', 'o', 'o', 'l'] {
                assert(word@[0] == seq!['B', 'o', 'o', 'l'][0] && word@[1] == seq!['B', 'o', 'o', 'l'][1] && word@[2] == seq!['B', 'o', 'o', 'l'][2] && word@[3] == seq!['B', 'o', 'o', 'l'][3]);
            }
        }
        None
    }
}

/// Identifier tokens that are names, one more token appended.
proof fn lemma_push_token(before: Seq<Token>, t: Token)
    requires
        forall|k: int|
            0 <= k < before.len() ==> ((#[trigger] before[k]).tok matches Tok::Ident(name)
                ==> is_identifier(name@)),
        t.tok matches Tok::Ident(name) ==> is_identifier(name@),
    ensures
        forall|k: int|
            0 <= k < before.push(t).len() ==> ((#[trigger] before.push(t)[k]).tok matches Tok::Ident(
                name,
            ) ==> is_identifier(name@)),
{
    assert forall|k: int| 0 <= k < before.push(t).len() implies ((#[trigger] before.push(
        t,
    )[k]).tok matches Tok::Ident(name) ==> is_identifier(name@)) by {
        if k < before.len() {
            assert(before.push(t)[k] == before[k]);
        }
    }
}

fn ident_char_at(input: &str, i: usize) -> (r: bool)
    requires
        i < input@.len(),
    ensures
        r == is_ident_char(input@[i as int]),
{
    let d = input.get_char(i);
    ('a' <= d && d <= 'z') || ('A' <= d && d <= 'Z') || d == '_' || ('0' <= d && d <= '9')
}

/// Relies on `String: FromIterator<char>`: the characters as a string.
#[verifier::external_body]
fn string_of(cs: &Vec<char>) -> (r: String)
    ensures
        r@ == cs@,
{
    cs.iter().collect()
}

/// What the lexer sees in a token: a name's characters, or the token itself.
pub enum Lexeme {
    Name(Seq<char>),
    Plain(Tok),
}

pub open spec fn token_view(t: Token) -> (Lexeme, Span) {
    match t.tok {
        Tok::Ident(name) => (Lexeme::Name(name@), t.span),
        other => (Lexeme::Plain(other), t.span),
    }
}

pub open spec fn next_col_spec(c: u32) -> u32 {
    if c < u32::MAX {
        (c + 1) as u32
    } else {
        c
    }
}

/// The end of a comment that runs from `j`: the next line break, or the end.
pub open spec fn skip_comment(cs: Seq<char>, j: int) -> int
    decreases cs.len() - j,
{
    if 0 <= j < cs.len() && cs[j] != '\n' {
        skip_comment(cs, j + 1)
    } else {
        j
    }
}

pub open spec fn digit_value(c: char) -> i32 {
    (c as u32 - '0' as u32) as i32
}

/// Reads digits from `j` into `value`: the end, the value, whether it left
/// the range of `i32`, and the column after.
pub open spec fn scan_digits(cs: Seq<char>, j: int, value: i32, overflow: bool, col: u32) -> (
    int,
    i32,
    bool,
    u32,
)
    decreases cs.len() - j,
{
    if 0 <= j < cs.len() && is_digit(cs[j]) {
        let d = digit_value(cs[j]);
        if value <= (i32::MAX - d) / 10 {
            scan_digits(cs, j + 1, (value * 10 + d) as i32, overflow, next_col_spec(col))
        } else {
            scan_digits(cs, j + 1, value, true, next_col_spec(col))
        }
    } else {
        (j, value, overflow, col)
    }
}

/// Reads name characters from `j`: the end and the column after.
pub open spec fn scan_ident(cs: Seq<char>, j: int, col: u32) -> (int, u32)
    decreases cs.len() - j,
{
    if 0 <= j < cs.len() && is_ident_char(cs[j]) {
        scan_ident(cs, j + 1, next_col_spec(col))
    } else {
        (j, col)
    }
}

/// The reserved word that `w` spells, if any.
pub open spec fn kw_tok(w: Seq<char>) -> Option<Tok> {
    if w == seq!['i', 'f'] {
        Some(Tok::If)
    } else if w == seq!['F'] {
        Some(Tok::TyField)
    } else if w == seq!['p', 'u', 'b'] {
        Some(Tok::Pub)
    } else if w == seq!['l', 'e', 't'] {
        Some(Tok::Let)
    } else if w == seq!['t', 'h', 'e', 'n'] {
        Some(Tok::Then)
    } else if w == seq!['e', 'l', 's', 'e'] {
        Some(Tok::Else)
    } else if w == seq!['t', 'r', 'u', 'e'] {
        Some(Tok::True)
    } else if w == seq!['f', 'a', 'l', 's', 'e'] {
        Some(Tok::False)
    } else if w == seq!['B', 'o', 'o', 'l'] {
        Some(Tok::TyBool)
    } else {
        None
    }
}

/// The operator or punctuation token that starts with `c`, followed by
/// `two` when there is a next character, and its length.
pub open spec fn punct(c: char, two: Option<char>) -> Option<(Tok, int)> {
    if c == '=' && two == Some('=') {
        Some((Tok::EqEq, 2))
    } else if c == '&' && two == Some('&') {
        Some((Tok::AndAnd, 2))
    } else if c == '|' && two == Some('|') {
        Some((Tok::OrOr, 2))
    } else if c == '=' {
        Some((Tok::Assign, 1))
    } else if c == ':' {
        Some((Tok::Colon, 1))
    } else if c == ';' {
        Some((Tok::Semi, 1))
    } else if c == '+' {
        Some((Tok::Plus, 1))
    } else if c == '-' {
        Some((Tok::Minus, 1))
    } else if c == '*' {
        Some((Tok::Star, 1))
    } else if c == '^' {
        Some((Tok::Caret, 1))
    } else if c == '(' {
        Some((Tok::LParen, 1))
    } else if c == ')' {
        Some((Tok::RParen, 1))
    } else {
        None
    }
}

/// The tokens of `cs` from position `i`, at `line` and `col`, after those in
/// `acc`: line breaks, blanks and `//` comments separate tokens; an integer
/// beyond `i32` and a character that starts no token are errors.
pub open spec fn lex_from(cs: Seq<char>, i: int, line: u32, col: u32, acc: Seq<(Lexeme, Span)>) -> Result<
    Seq<(Lexeme, Span)>,
    ParseError,
>
    decreases cs.len() - i,
{
    if i < 0 || i >= cs.len() {
        Ok(acc)
    } else {
        let c = cs[i];
        let start = SourePos { line, column: col };
        if c == '\n' {
            lex_from(cs, i + 1, next_col_spec(line), 1, acc)
        } else if c == ' ' || c == '\t' || c == '\r' {
            lex_from(cs, i + 1, line, next_col_spec(col), acc)
        } else if c == '/' && i + 1 < cs.len() && cs[i + 1] == '/' {
            let j = skip_comment(cs, i + 2);
            if i < j <= cs.len() {
                lex_from(cs, j, line, col, acc)
            } else {
                Ok(acc)
            }
        } else if is_digit(c) {
            let (j, v, overflow, col2) = scan_digits(cs, i + 1, digit_value(c), false, next_col_spec(col));
            let span = Span { start, end: SourePos { line, column: col2 } };
            if overflow {
                Err(ParseError::IntegerOutOfRange(span))
            } else if i < j <= cs.len() {
                lex_from(cs, j, line, col2, acc.push((Lexeme::Plain(Tok::Int(v)), span)))
            } else {
                Ok(acc)
            }
        } else if is_ident_start(c) {
            let (j, col2) = scan_ident(cs, i + 1, next_col_spec(col));
            let span = Span { start, end: SourePos { line, column: col2 } };
            if i < j <= cs.len() {
                let word = cs.subrange(i, j);
                let lx = match kw_tok(word) {
                    Some(t) => Lexeme::Plain(t),
                    None => Lexeme::Name(word),
                };
                lex_from(cs, j, line, col2, acc.push((lx, span)))
            } else {
                Ok(acc)
            }
        } else {
            let two = if i + 1 < cs.len() {
                Some(cs[i + 1])
            } else {
                None
            };
            match punct(c, two) {
                None => Err(ParseError::UnexpectedChar(start, c)),
                Some((t, len)) => {
                    let col2 = if len == 2 {
                        next_col_spec(next_col_spec(col))
                    } else {
                        next_col_spec(col)
                    };
                    lex_from(
                        cs,
                        i + len,
                        line,
                        col2,
                        acc.push((Lexeme::Plain(t), Span { start, end: SourePos { line, column: col2 } })),
                    )
                },
            }
        }
    }
}

/// The tokens of a text, lines and columns counted from one.
pub open spec fn tokens_of(cs: Seq<char>) -> Result<Seq<(Lexeme, Span)>, ParseError> {
    lex_from(cs, 0, 1, 1, Seq::empty())
}

pub open spec fn token_views(ts: Seq<Token>) -> Seq<(Lexeme, Span)> {
    ts.map_values(|t: Token| token_view(t))
}

fn punct_tok(c: char, two: Option<char>) -> (r: Option<(Tok, usize)>)
    ensures
        r matches Some((t, len)) ==> punct(c, two) == Some((t, len as int)),
        r is None <==> punct(c, two) is None,
{
    if c == '=' && two == Some('=') {
        Some((Tok::EqEq, 2))
    } else if c == '&' && two == Some('&') {
        Some((Tok::AndAnd, 2))
    } else if c == '|' && two == Some('|') {
        Some((Tok::OrOr, 2))
    } else if c == '=' {
        Some((Tok::Assign, 1))
    } else if c == ':' {
        Some((Tok::Colon, 1))
    } else if c == ';' {
        Some((Tok::Semi, 1))
    } else if c == '+' {
        Some((Tok::Plus, 1))
    } else if c == '-' {
        Some((Tok::Minus, 1))
    } else if c == '*' {
        Some((Tok::Star, 1))
    } else if c == '^' {
        Some((Tok::Caret, 1))
    } else if c == '(' {
        Some((Tok::LParen, 1))
    } else if c == ')' {
        Some((Tok::RParen, 1))
    } else {
        None
    }
}

/// Splits `input` into tokens as [`tokens_of`] states; each token's span runs
/// from its first character to just past its last. Every identifier token is
/// a name that is no reserved word.
pub fn tokenize(input: &str) -> (r: Result<Vec<Token>, ParseError>)
    ensures
        r is Ok <==> tokens_of(input@) is Ok,
        r matches Ok(toks) ==> token_views(toks@) == tokens_of(input@)->Ok_0,
        r matches Err(e) ==> tokens_of(input@) == Err::<Seq<(Lexeme, Span)>, ParseError>(e),
        r matches Ok(toks) ==> forall|k: int|
            0 <= k < toks@.len() ==> ((#[trigger] toks@[k]).tok matches Tok::Ident(name)
                ==> is_identifier(name@)),
{
    let n = input.unicode_len();
    let ghost cs = input@;
    let mut out: Vec<Token> = Vec::new();
    let mut i: usize = 0;
    let mut line: u32 = 1;
    let mut col: u32 = 1;
    assert(token_views(out@) =~= Seq::<(Lexeme, Span)>::empty());
    while i < n
        invariant
            n == input@.len(),
            cs == input@,
            i <= n,
            forall|k: int|
                0 <= k < out@.len() ==> ((#[trigger] out@[k]).tok matches Tok::Ident(name)
                    ==> is_identifier(name@)),
            tokens_of(cs) == lex_from(cs, i as int, line, col, token_views(out@)),
        decreases n - i,
    {
        let i0 = i;
        let ghost line0 = line;
        let ghost col0 = col;
        let ghost acc = token_views(out@);
        let c = input.get_char(i);
        let start = SourePos { line, column: col };
        if c == '\n' {
            line = next_col(line);
            col = 1;
            i = i + 1;
        } else if c == ' ' || c == '\t' || c == '\r' {
            col = next_col(col);
            i = i + 1;
        } else if c == '/' && i + 1 < n && input.get_char(i + 1) == '/' {
            i = i + 2;
            while i < n && input.get_char(i) != '\n'
                invariant
                    n == input@.len(),
                    cs == input@,
                    i <= n,
                    i0 < i,
                    skip_comment(cs, i0 + 2) == skip_comment(cs, i as int),
                decreases n - i,
            {
                i = i + 1;
            }
        } else if '0' <= c && c <= '9' {
            let mut value: i32 = (c as u32 - '0' as u32) as i32;
            let mut overflow = false;
            col = next_col(col);
            i = i + 1;
            while i < n && '0' <= input.get_char(i) && input.get_char(i) <= '9'
                invariant
                    n == input@.len(),
                    cs == input@,
                    i <= n,
                    i0 < i,
                    value >= 0,
                    scan_digits(cs, i0 + 1, digit_value(c), false, next_col_spec(col0))
                        == scan_digits(cs, i as int, value, overflow, col),
                decreases n - i,
            {
                let d = (input.get_char(i) as u32 - '0' as u32) as i32;
                if value <= (i32::MAX - d) / 10 {
                    value = value * 10 + d;
                } else {
                    overflow = true;
                }
                col = next_col(col);
                i = i + 1;
            }
            let span = Span { start, end: SourePos { line, column: col } };
            if overflow {
                return Err(ParseError::IntegerOutOfRange(span));
            }
            proof {
                lemma_push_token(out@, Token { tok: Tok::Int(value), span });
                assert(token_views(out@.push(Token { tok: Tok::Int(value), span })) =~= acc.push(
                    (Lexeme::Plain(Tok::Int(value)), span),
                ));
            }
            out.push(Token { tok: Tok::Int(value), span });
        } else if ('a' <= c && c <= 'z') || ('A' <= c && c <= 'Z') || c == '_' {
            let mut word: Vec<char> = Vec::new();
            word.push(c);
            col = next_col(col);
            i = i + 1;
            while i < n && ident_char_at(input, i)
                invariant
                    n == input@.len(),
                    cs == input@,
                    i <= n,
                    i0 < i,
                    word@ == cs.subrange(i0 as int, i as int),
                    is_ident_start(word@[0]),
                    forall|j: int| 0 <= j < word@.len() ==> is_ident_char(#[trigger] word@[j]),
                    scan_ident(cs, i0 + 1, next_col_spec(col0)) == scan_ident(cs, i as int, col),
                decreases n - i,
            {
                word.push(input.get_char(i));
                assert(word@ =~= cs.subrange(i0 as int, i + 1));
                col = next_col(col);
                i = i + 1;
            }
            let span = Span { start, end: SourePos { line, column: col } };
            let tok = match keyword(&word) {
                Some(k) => k,
                None => Tok::Ident(string_of(&word)),
            };
            proof {
                lemma_push_token(out@, Token { tok, span });
                let lx = match kw_tok(word@) {
                    Some(t) => Lexeme::Plain(t),
                    None => Lexeme::Name(word@),
                };
                assert(token_view(Token { tok, span }) == (lx, span));
                assert(token_views(out@.push(Token { tok, span })) =~= acc.push((lx, span)));
            }
            out.push(Token { tok, span });
        } else {
            let two = if i + 1 < n {
                Some(input.get_char(i + 1))
            } else {
                None
            };
            let (tok, len) = match punct_tok(c, two) {
                Some(p) => p,
                None => {
                    return Err(ParseError::UnexpectedChar(start, c));
                },
            };
            i = i + len;
            col = next_col(col);
            if len == 2 {
                col = next_col(col);
            }
            let span = Span { start, end: SourePos { line, column: col } };
            proof {
                lemma_push_token(out@, Token { tok, span });
                assert(token_view(Token { tok, span }) == (Lexeme::Plain(tok), span));
                assert(token_views(out@.push(Token { tok, span })) =~= acc.push(
                    (Lexeme::Plain(tok), span),
                ));
            }
            out.push(Token { tok, span });
        }
    }
    Ok(out)
}

/// The token of a binary operator.
pub open spec fn op_tok(op: Opcode) -> Tok {
    match op {
        Opcode::Add => Tok::Plus,
        Opcode::Sub => Tok::Minus,
        Opcode::Mul => Tok::Star,
        Opcode::Pow => Tok::Caret,
        Opcode::And => Tok::AndAnd,
        Opcode::Or => Tok::OrOr,
        Opcode::Eq => Tok::EqEq,
    }
}

/// The tokens of an expression read in order, without parentheses: the
/// operator between its operands, prefix `-` and `if`/`then`/`else` before
/// theirs.
pub open spec fn reading(e: Expr) -> Seq<Tok>
    decreases e,
{
    match e {
        Expr::Literal { value, .. } => match value {
            Literal::Field(n) => seq![Tok::Int(n)],
            Literal::Boolean(b) => if b {
                seq![Tok::True]
            } else {
                seq![Tok::False]
            },
        },
        Expr::Variable { value, .. } => seq![Tok::Ident(value.0)],
        Expr::UnaryOp { expr, .. } => seq![Tok::Minus] + reading(*expr),
        Expr::BinOp { lhs, op, rhs, .. } => reading(*lhs) + seq![op_tok(op)] + reading(*rhs),
        Expr::IfThenElse { cond, _then, _else, .. } => seq![Tok::If] + reading(*cond) + seq![
            Tok::Then,
        ] + reading(*_then) + seq![Tok::Else] + reading(*_else),
    }
}

/// The kinds of the tokens, parentheses left out.
pub open spec fn without_parens(ts: Seq<Token>) -> Seq<Tok>
    decreases ts.len(),
{
    if ts.len() == 0 {
        Seq::empty()
    } else {
        let rest = without_parens(ts.drop_last());
        match ts.last().tok {
            Tok::LParen | Tok::RParen => rest,
            t => rest.push(t),
        }
    }
}

proof fn lemma_without_parens_split(ts: Seq<Token>, a: int, b: int, c: int)
    requires
        0 <= a <= b <= c <= ts.len(),
    ensures
        without_parens(ts.subrange(a, c)) == without_parens(ts.subrange(a, b)) + without_parens(
            ts.subrange(b, c),
        ),
    decreases c - b,
{
    if c == b {
        assert(ts.subrange(b, c).len() == 0);
        assert(without_parens(ts.subrange(a, b)) + Seq::<Tok>::empty() =~= without_parens(
            ts.subrange(a, b),
        ));
        assert(ts.subrange(a, c) =~= ts.subrange(a, b));
    } else {
        lemma_without_parens_split(ts, a, b, c - 1);
        assert(ts.subrange(a, c).drop_last() =~= ts.subrange(a, c - 1));
        assert(ts.subrange(b, c).drop_last() =~= ts.subrange(b, c - 1));
        assert(ts.subrange(a, c).last() == ts[c - 1]);
        assert(ts.subrange(b, c).last() == ts[c - 1]);
        let x = without_parens(ts.subrange(a, b));
        let y = without_parens(ts.subrange(b, c - 1));
        match ts[c - 1].tok {
            Tok::LParen | Tok::RParen => {},
            t => {
                assert((x + y).push(t) =~= x + y.push(t));
            },
        }
    }
}

proof fn lemma_without_parens_one(ts: Seq<Token>, a: int)
    requires
        0 <= a < ts.len(),
    ensures
        without_parens(ts.subrange(a, a + 1)) == match ts[a].tok {
            Tok::LParen | Tok::RParen => Seq::<Tok>::empty(),
            t => seq![t],
        },
{
    reveal_with_fuel(without_parens, 2);
    assert(ts.subrange(a, a + 1).drop_last() =~= Seq::<Token>::empty());
    assert(ts.subrange(a, a + 1).last() == ts[a]);
    assert(Seq::<Tok>::empty().push(ts[a].tok) =~= seq![ts[a].tok]);
}

/// The operator of an infix token and its precedence, loosest first.
pub open spec fn infix_spec(t: Tok) -> Option<(Opcode, u8)> {
    match t {
        Tok::Plus => Some((Opcode::Add, 1u8)),
        Tok::Minus => Some((Opcode::Sub, 1u8)),
        Tok::OrOr => Some((Opcode::Or, 1u8)),
        Tok::Star => Some((Opcode::Mul, 2u8)),
        Tok::AndAnd => Some((Opcode::And, 2u8)),
        Tok::Caret => Some((Opcode::Pow, 4u8)),
        Tok::EqEq => Some((Opcode::Eq, 5u8)),
        _ => None,
    }
}

/// The expression of the grammar that starts at `pos` and whose infix
/// operators bind at least as tightly as `min`, with the position after it:
/// an atom or a prefix `-` (whose operand takes operators of precedence
/// three and up), then operators in precedence order, `^` to the right and
/// the others to the left.
pub open spec fn expr_at(ts: Seq<Token>, pos: int, min: u8) -> Option<(Expr, int)>
    decreases ts.len() - pos, 1nat,
{
    if pos < 0 || pos >= ts.len() {
        None
    } else {
        let ann = ts[pos].span;
        let prefix: Option<(Expr, int)> = match ts[pos].tok {
            Tok::Int(n) => Some((Expr::Literal { ann, value: Literal::Field(n) }, pos + 1)),
            Tok::True => Some((Expr::Literal { ann, value: Literal::Boolean(true) }, pos + 1)),
            Tok::False => Some((Expr::Literal { ann, value: Literal::Boolean(false) }, pos + 1)),
            Tok::Ident(name) => Some((Expr::Variable { ann, value: Ident(name) }, pos + 1)),
            Tok::Minus => match expr_at(ts, pos + 1, NEG_PREC) {
                Some((e, p)) => Some((Expr::UnaryOp { ann, op: UOpcode::Neg, expr: Box::new(e) }, p)),
                None => None,
            },
            Tok::LParen => match expr_at(ts, pos + 1, 0) {
                Some((e, p)) => if 0 <= p < ts.len() && ts[p].tok == Tok::RParen {
                    Some((e, p + 1))
                } else {
                    None
                },
                None => None,
            },
            Tok::If => match expr_at(ts, pos + 1, 0) {
                Some((c, p1)) => if pos < p1 < ts.len() && ts[p1].tok == Tok::Then {
                    match expr_at(ts, p1 + 1, 0) {
                        Some((t, p2)) => if p1 < p2 < ts.len() && ts[p2].tok == Tok::Else {
                            match expr_at(ts, p2 + 1, 0) {
                                Some((f, p3)) => if 0 < p3 <= ts.len() {
                                    Some(
                                        (
                                            Expr::IfThenElse {
                                                ann: Span { start: ann.start, end: ts[p3 - 1].span.end },
                                                cond: Box::new(c),
                                                _then: Box::new(t),
                                                _else: Box::new(f),
                                            },
                                            p3,
                                        ),
                                    )
                                } else {
                                    None
                                },
                                None => None,
                            }
                        } else {
                            None
                        },
                        None => None,
                    }
                } else {
                    None
                },
                None => None,
            },
            _ => None,
        };
        match prefix {
            Some((lhs, p)) => if pos < p <= ts.len() {
                infix_from(ts, lhs, p, min)
            } else {
                None
            },
            None => None,
        }
    }
}

/// Continues an expression whose left operand `lhs` ends before `p`.
pub open spec fn infix_from(ts: Seq<Token>, lhs: Expr, p: int, min: u8) -> Option<(Expr, int)>
    decreases ts.len() - p, 0nat,
{
    if p < 0 || p >= ts.len() {
        Some((lhs, p))
    } else {
        match infix_spec(ts[p].tok) {
            None => Some((lhs, p)),
            Some((op, q)) => if q < min {
                Some((lhs, p))
            } else {
                let next = if q == POW_PREC {
                    q
                } else {
                    (q + 1) as u8
                };
                match expr_at(ts, p + 1, next) {
                    Some((rhs, p2)) => if p < p2 <= ts.len() {
                        infix_from(
                            ts,
                            Expr::BinOp { ann: ts[p].span, lhs: Box::new(lhs), op, rhs: Box::new(rhs) },
                            p2,
                            min,
                        )
                    } else {
                        None
                    },
                    None => None,
                }
            },
        }
    }
}

fn infix_op(t: &Tok) -> (r: Option<(Opcode, u8)>)
    ensures
        r == infix_spec(*t),
        r matches Some((op, q)) ==> 1 <= q <= 5 && op_tok(op) == *t,
{
    match t {
        Tok::Plus => Some((Opcode::Add, 1)),
        Tok::Minus => Some((Opcode::Sub, 1)),
        Tok::OrOr => Some((Opcode::Or, 1)),
        Tok::Star => Some((Opcode::Mul, 2)),
        Tok::AndAnd => Some((Opcode::And, 2)),
        Tok::Caret => Some((Opcode::Pow, 4)),
        Tok::EqEq => Some((Opcode::Eq, 5)),
        _ => None,
    }
}

/// The precedence at which prefix `-` binds its operand.
pub const NEG_PREC: u8 = 3;

/// The precedence of `^`, the one right-associative operator.
pub const POW_PREC: u8 = 4;

/// Both are the same keyword or punctuation token.
fn same_punct(a: &Tok, b: &Tok) -> (r: bool)
    requires
        *b is RParen || *b is Then || *b is Else || *b is Colon || *b is Semi || *b is Assign,
    ensures
        r == (*a == *b),
{
    match (a, b) {
        (Tok::RParen, Tok::RParen) | (Tok::Then, Tok::Then) | (Tok::Else, Tok::Else) | (
            Tok::Colon,
            Tok::Colon,
        ) | (Tok::Semi, Tok::Semi) | (Tok::Assign, Tok::Assign) => true,
        _ => false,
    }
}

fn expect(toks: &Vec<Token>, p: usize, want: Tok) -> (r: Result<(), ParseError>)
    requires
        p <= toks@.len(),
        want is RParen || want is Then || want is Else || want is Colon || want is Semi
            || want is Assign,
    ensures
        r is Ok <==> p < toks@.len() && toks@[p as int].tok == want,
{
    if p >= toks.len() {
        Err(ParseError::UnexpectedEnd)
    } else if same_punct(&toks[p].tok, &want) {
        Ok(())
    } else {
        Err(ParseError::UnexpectedToken(toks[p].span))
    }
}

/// Parses an expression at `pos` whose infix operators bind at least as
/// tightly as `min`; returns it and the position after it. Read in order, the
/// expression gives back the tokens it was parsed from, parentheses aside.
pub fn parse_expr(toks: &Vec<Token>, pos: usize, min: u8) -> (r: Result<(Expr, usize), ParseError>)
    requires
        pos <= toks@.len(),
    ensures
        r is Ok <==> expr_at(toks@, pos as int, min) is Some,
        r matches Ok((e, p)) ==> expr_at(toks@, pos as int, min) == Some((e, p as int)),
        r matches Ok((e, p)) ==> pos < p <= toks@.len() && reading(e) == without_parens(
            toks@.subrange(pos as int, p as int),
        ),
    decreases toks@.len() - pos,
{
    if pos >= toks.len() {
        return Err(ParseError::UnexpectedEnd);
    }
    let ann = toks[pos].span;
    let (mut lhs, mut p) = match &toks[pos].tok {
        Tok::Int(n) => {
            proof {
                lemma_without_parens_one(toks@, pos as int);
            }
            (Expr::Literal { ann, value: Literal::Field(*n) }, pos + 1)
        },
        Tok::True => {
            proof {
                lemma_without_parens_one(toks@, pos as int);
            }
            (Expr::Literal { ann, value: Literal::Boolean(true) }, pos + 1)
        },
        Tok::False => {
            proof {
                lemma_without_parens_one(toks@, pos as int);
            }
            (Expr::Literal { ann, value: Literal::Boolean(false) }, pos + 1)
        },
        Tok::Ident(name) => {
            proof {
                lemma_without_parens_one(toks@, pos as int);
            }
            (Expr::Variable { ann, value: Ident(name.clone()) }, pos + 1)
        },
        Tok::Minus => {
            let (e, p) = parse_expr(toks, pos + 1, NEG_PREC)?;
            proof {
                lemma_without_parens_one(toks@, pos as int);
                lemma_without_parens_split(toks@, pos as int, pos + 1, p as int);
            }
            (Expr::UnaryOp { ann, op: UOpcode::Neg, expr: Box::new(e) }, p)
        },
        Tok::LParen => {
            let (e, p) = parse_expr(toks, pos + 1, 0)?;
            expect(toks, p, Tok::RParen)?;
            proof {
                lemma_without_parens_one(toks@, pos as int);
                lemma_without_parens_one(toks@, p as int);
                lemma_without_parens_split(toks@, pos as int, pos + 1, p as int);
                lemma_without_parens_split(toks@, pos as int, p as int, p + 1);
                assert(Seq::<Tok>::empty() + reading(e) =~= reading(e));
                assert(reading(e) + Seq::<Tok>::empty() =~= reading(e));
            }
            (e, p + 1)
        },
        Tok::If => {
            let (cond, after_cond) = parse_expr(toks, pos + 1, 0)?;
            expect(toks, after_cond, Tok::Then)?;
            let (_then, after_then) = parse_expr(toks, after_cond + 1, 0)?;
            expect(toks, after_then, Tok::Else)?;
            let (_else, after_else) = parse_expr(toks, after_then + 1, 0)?;
            proof {
                let ts = toks@;
                lemma_without_parens_one(ts, pos as int);
                lemma_without_parens_one(ts, after_cond as int);
                lemma_without_parens_one(ts, after_then as int);
                lemma_without_parens_split(ts, pos as int, pos + 1, after_cond as int);
                lemma_without_parens_split(ts, pos as int, after_cond as int, after_cond + 1);
                lemma_without_parens_split(ts, pos as int, after_cond + 1, after_then as int);
                lemma_without_parens_split(ts, pos as int, after_then as int, after_then + 1);
                lemma_without_parens_split(ts, pos as int, after_then + 1, after_else as int);
            }
            let span = Span { start: ann.start, end: toks[after_else - 1].span.end };
            (
                Expr::IfThenElse {
                    ann: span,
                    cond: Box::new(cond),
                    _then: Box::new(_then),
                    _else: Box::new(_else),
                },
                after_else,
            )
        },
        _ => {
            return Err(ParseError::UnexpectedToken(ann));
        },
    };
    while p < toks.len()
        invariant
            pos < p <= toks@.len(),
            reading(lhs) == without_parens(toks@.subrange(pos as int, p as int)),
            expr_at(toks@, pos as int, min) == infix_from(toks@, lhs, p as int, min),
        ensures
            pos < p <= toks@.len(),
            reading(lhs) == without_parens(toks@.subrange(pos as int, p as int)),
            expr_at(toks@, pos as int, min) == Some((lhs, p as int)),
        decreases toks@.len() - p,
    {
        let (op, q) = match infix_op(&toks[p].tok) {
            Some((op, q)) => (op, q),
            None => break,
        };
        if q < min {
            break;
        }
        let next = if q == POW_PREC {
            q
        } else {
            q + 1
        };
        let op_ann = toks[p].span;
        let (rhs, rhs_end) = parse_expr(toks, p + 1, next)?;
        proof {
            lemma_without_parens_one(toks@, p as int);
            lemma_without_parens_split(toks@, pos as int, p as int, p + 1);
            lemma_without_parens_split(toks@, pos as int, p + 1, rhs_end as int);
        }
        lhs = Expr::BinOp { ann: op_ann, lhs: Box::new(lhs), op, rhs: Box::new(rhs) };
        p = rhs_end;
    }
    Ok((lhs, p))
}

/// The declaration that starts at `p`, with the position after it:
/// `pub name : F ;`, `pub name : Bool ;` or `let name = expression ;`.
pub open spec fn decl_at(ts: Seq<Token>, p: int) -> Option<(Declaration, int)> {
    if p < 0 || p + 2 >= ts.len() || !(ts[p + 1].tok is Ident) {
        None
    } else {
        let binder_ann = ts[p + 1].span;
        let var = Ident(ts[p + 1].tok->Ident_0);
        match ts[p].tok {
            Tok::Pub => if p + 4 < ts.len() && ts[p + 2].tok == Tok::Colon && (ts[p + 3].tok is TyField
                || ts[p + 3].tok is TyBool) && ts[p + 4].tok == Tok::Semi {
                let ty = if ts[p + 3].tok is TyField {
                    Ty::Field
                } else {
                    Ty::Boolean
                };
                Some(
                    (
                        Declaration::PublicVar {
                            binder: Binder::TypedBinder { ann: binder_ann, var, _type: ty },
                        },
                        p + 5,
                    ),
                )
            } else {
                None
            },
            Tok::Let => if ts[p + 2].tok == Tok::Assign {
                match expr_at(ts, p + 3, 0) {
                    Some((e, q)) => if 0 <= q < ts.len() && ts[q].tok == Tok::Semi {
                        Some(
                            (
                                Declaration::VarAssignment {
                                    binder: Binder::VarBinder { ann: binder_ann, var },
                                    expr: e,
                                },
                                q + 1,
                            ),
                        )
                    } else {
                        None
                    },
                    None => None,
                }
            } else {
                None
            },
            _ => None,
        }
    }
}

/// The declarations from `p` on, each starting with `pub` or `let`, and the
/// position of the first token that starts none.
pub open spec fn decls_at(ts: Seq<Token>, p: int) -> Option<(Seq<Declaration>, int)>
    decreases ts.len() - p,
{
    if 0 <= p < ts.len() && (ts[p].tok is Pub || ts[p].tok is Let) {
        match decl_at(ts, p) {
            Some((d, q)) => if p < q <= ts.len() {
                match decls_at(ts, q) {
                    Some((ds, r)) => Some((seq![d] + ds, r)),
                    None => None,
                }
            } else {
                None
            },
            None => None,
        }
    } else {
        Some((Seq::empty(), p))
    }
}

/// The declarations and final expression that make up all of `ts`.
pub open spec fn program_at(ts: Seq<Token>) -> Option<(Seq<Declaration>, Expr)> {
    match decls_at(ts, 0) {
        Some((ds, q)) => match expr_at(ts, q, 0) {
            Some((e, p)) => if p == ts.len() {
                Some((ds, e))
            } else {
                None
            },
            None => None,
        },
        None => None,
    }
}

/// `ts` are declarations and an expression that `Program::new` accepts, and
/// `prog` is what it makes of them.
pub open spec fn built_from(ts: Seq<Token>, prog: Program) -> bool {
    match program_at(ts) {
        Some((ds, e)) => names_unique(ds) && acyclic(ds) && refs_declared(ds, e) && prog.wf()
            && prog.expr == e && dependency_order(prog.decls@, ds),
        None => false,
    }
}

/// `ts` are not declarations and an expression, or `Program::new` rejects
/// them.
pub open spec fn rejected(ts: Seq<Token>) -> bool {
    match program_at(ts) {
        Some((ds, e)) => !(names_unique(ds) && acyclic(ds) && refs_declared(ds, e)),
        None => true,
    }
}

/// The expression that makes up all of `ts`.
pub open spec fn whole_expr(ts: Seq<Token>) -> Option<Expr> {
    match expr_at(ts, 0, 0) {
        Some((e, p)) => if p == ts.len() {
            Some(e)
        } else {
            None
        },
        None => None,
    }
}

fn parse_ident(toks: &Vec<Token>, p: usize) -> (r: Result<(Ident, Span), ParseError>)
    requires
        p <= toks@.len(),
    ensures
        r is Ok <==> p < toks@.len() && toks@[p as int].tok is Ident,
        r matches Ok((id, sp)) ==> id == Ident(toks@[p as int].tok->Ident_0) && sp
            == toks@[p as int].span,
{
    if p >= toks.len() {
        return Err(ParseError::UnexpectedEnd);
    }
    match &toks[p].tok {
        Tok::Ident(name) => Ok((Ident(name.clone()), toks[p].span)),
        _ => Err(ParseError::UnexpectedToken(toks[p].span)),
    }
}

/// Parses the declarations from `pos` on; returns them and the position of
/// the first token that starts none.
fn parse_decls(toks: &Vec<Token>, pos: usize) -> (r: Result<(Vec<Declaration>, usize), ParseError>)
    requires
        pos <= toks@.len(),
    ensures
        r is Ok <==> decls_at(toks@, pos as int) is Some,
        r matches Ok((ds, p)) ==> decls_at(toks@, pos as int) == Some((ds@, p as int)) && p
            <= toks@.len(),
{
    let ghost ts = toks@;
    let mut decls: Vec<Declaration> = Vec::new();
    let mut p = pos;
    assert(decls@ + Seq::<Declaration>::empty() =~= decls@);
    while p < toks.len()
        invariant
            pos <= p <= toks@.len(),
            ts == toks@,
            decls_at(ts, pos as int) == match decls_at(ts, p as int) {
                Some((ds, r)) => Some((decls@ + ds, r)),
                None => None,
            },
        ensures
            p <= toks@.len(),
            decls_at(ts, pos as int) == Some((decls@, p as int)),
        decreases toks@.len() - p,
    {
        let ghost before = decls@;
        match &toks[p].tok {
            Tok::Pub => {
                let (var, ann) = parse_ident(toks, p + 1)?;
                expect(toks, p + 2, Tok::Colon)?;
                if p + 3 >= toks.len() {
                    return Err(ParseError::UnexpectedEnd);
                }
                let ty = match &toks[p + 3].tok {
                    Tok::TyField => Ty::Field,
                    Tok::TyBool => Ty::Boolean,
                    _ => {
                        return Err(ParseError::UnexpectedToken(toks[p + 3].span));
                    },
                };
                expect(toks, p + 4, Tok::Semi)?;
                let d = Declaration::PublicVar { binder: Binder::TypedBinder { ann, var, _type: ty } };
                proof {
                    assert(decl_at(ts, p as int) == Some((d, p + 5)));
                }
                decls.push(d);
                proof {
                    match decls_at(ts, p + 5) {
                        Some((ds, r)) => {
                            assert(before + (seq![d] + ds) =~= decls@ + ds);
                        },
                        None => {},
                    }
                }
                p = p + 5;
            },
            Tok::Let => {
                let (var, ann) = parse_ident(toks, p + 1)?;
                expect(toks, p + 2, Tok::Assign)?;
                let (expr, expr_end) = parse_expr(toks, p + 3, 0)?;
                expect(toks, expr_end, Tok::Semi)?;
                let d = Declaration::VarAssignment { binder: Binder::VarBinder { ann, var }, expr };
                proof {
                    assert(decl_at(ts, p as int) == Some((d, expr_end + 1)));
                }
                decls.push(d);
                proof {
                    match decls_at(ts, expr_end + 1) {
                        Some((ds, r)) => {
                            assert(before + (seq![d] + ds) =~= decls@ + ds);
                        },
                        None => {},
                    }
                }
                p = expr_end + 1;
            },
            _ => {
                proof {
                    assert(decls@ + Seq::<Declaration>::empty() =~= decls@);
                }
                break;
            },
        }
    }
    proof {
        assert(decls@ + Seq::<Declaration>::empty() =~= decls@);
    }
    Ok((decls, p))
}

/// Parses a whole program and builds it with [`Program::new`]: succeeds
/// exactly when the input's tokens are declarations followed by an
/// expression and the constructor accepts them, and then returns what the
/// constructor makes of them.
pub fn parse(input: &str) -> (r: Result<Program, ParseError>)
    ensures
        r matches Ok(prog) ==> tokens_of(input@) is Ok && exists|ts: Seq<Token>|
            token_views(ts) == tokens_of(input@)->Ok_0 && #[trigger] built_from(ts, prog),
        r is Err ==> tokens_of(input@) is Err || exists|ts: Seq<Token>|
            token_views(ts) == tokens_of(input@)->Ok_0 && #[trigger] rejected(ts),
{
    let toks = tokenize(input)?;
    let (decls, p) = match parse_decls(&toks, 0) {
        Ok(x) => x,
        Err(err) => {
            assert(rejected(toks@));
            return Err(err);
        },
    };
    let (expr, end) = match parse_expr(&toks, p, 0) {
        Ok(x) => x,
        Err(err) => {
            assert(rejected(toks@));
            return Err(err);
        },
    };
    if end < toks.len() {
        assert(rejected(toks@));
        return Err(ParseError::UnexpectedToken(toks[end].span));
    }
    let ghost ds = decls@;
    let ghost e = expr;
    proof {
        assert(program_at(toks@) == Some((ds, e)));
    }
    match Program::new(decls, expr) {
        Ok(prog) => {
            assert(built_from(toks@, prog));
            Ok(prog)
        },
        Err(err) => {
            assert(rejected(toks@));
            Err(ParseError::Program(err))
        },
    }
}

/// Parses a single expression that makes up the whole input: succeeds
/// exactly when the input's tokens form one expression of the grammar.
pub fn parse_single_expression(input: &str) -> (r: Result<Expr, ParseError>)
    ensures
        r matches Ok(e) ==> tokens_of(input@) is Ok && exists|ts: Seq<Token>|
            #![trigger whole_expr(ts)]
            token_views(ts) == tokens_of(input@)->Ok_0 && whole_expr(ts) == Some(e),
        r is Err ==> tokens_of(input@) is Err || exists|ts: Seq<Token>|
            #![trigger whole_expr(ts)]
            token_views(ts) == tokens_of(input@)->Ok_0 && whole_expr(ts) is None,
{
    let toks = tokenize(input)?;
    let (expr, p) = match parse_expr(&toks, 0, 0) {
        Ok(x) => x,
        Err(err) => {
            assert(whole_expr(toks@) is None);
            return Err(err);
        },
    };
    if p < toks.len() {
        assert(whole_expr(toks@) is None);
        return Err(ParseError::UnexpectedToken(toks[p].span));
    }
    assert(whole_expr(toks@) == Some(expr));
    Ok(expr)
}

} // verus!

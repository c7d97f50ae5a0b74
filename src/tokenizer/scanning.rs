use crate::tokenizer::chars::{alphabetic_char, digits_value, is_digit, whitespace_char};
use crate::tokenizer::token_types::{Token, TokenType};
use crate::tokenizer::{keyword_kind, name_char, next_count, LexError, LexErrorKind};
use vstd::prelude::*;

verus! {

/// The model of a token kind: payloads as sequences.
pub enum SKind {
    Number(i64),
    Identifier(Seq<char>),
    StringLiteral(Seq<char>),
    /// A kind without payload.
    Simple(TokenType),
}

/// The model of a token.
pub struct SToken {
    pub kind: SKind,
    pub line: usize,
    pub column: usize,
}

pub open spec fn token_model(t: Token) -> SToken {
    SToken {
        kind: match t.token_type {
            TokenType::Number(n) => SKind::Number(n),
            TokenType::Identifier(s) => SKind::Identifier(s@),
            TokenType::StringLiteral(s) => SKind::StringLiteral(s@),
            k => SKind::Simple(k),
        },
        line: t.line,
        column: t.column,
    }
}

pub open spec fn option_model(t: Option<Token>) -> Option<SToken> {
    match t {
        Some(t) => Some(token_model(t)),
        None => None,
    }
}

pub open spec fn tokens_model(ts: Seq<Token>) -> Seq<SToken> {
    ts.map_values(|t: Token| token_model(t))
}

/// The line and column after character `c`, from line `line`, column `col`.
pub open spec fn step_loc(c: char, line: usize, col: usize) -> (usize, usize) {
    if c == '\n' {
        (next_count(line), 1)
    } else {
        (line, next_count(col))
    }
}

/// The line and column after the characters `src[i..j]`.
pub open spec fn loc_after(src: Seq<char>, i: int, j: int, line: usize, col: usize) -> (usize, usize)
    decreases j - i,
{
    if i >= j {
        (line, col)
    } else {
        let (l, c) = step_loc(src[i], line, col);
        loc_after(src, i + 1, j, l, c)
    }
}

/// The end of the run of digits that starts at `i`.
pub open spec fn digit_end(src: Seq<char>, i: int) -> int
    decreases src.len() - i,
{
    if 0 <= i < src.len() && is_digit(src[i]) {
        digit_end(src, i + 1)
    } else {
        i
    }
}

/// The end of the run of name characters that starts at `i`.
pub open spec fn name_end(src: Seq<char>, i: int) -> int
    decreases src.len() - i,
{
    if 0 <= i < src.len() && name_char(src[i]) {
        name_end(src, i + 1)
    } else {
        i
    }
}

/// The index of the first `q` at `i` or after, or the length where none is.
pub open spec fn quote_end(src: Seq<char>, i: int, q: char) -> int
    decreases src.len() - i,
{
    if 0 <= i < src.len() && src[i] != q {
        quote_end(src, i + 1, q)
    } else {
        i
    }
}

/// The token that character `c` makes alone.
pub open spec fn single_kind(c: char) -> Option<TokenType> {
    match c {
        '+' => Some(TokenType::Plus),
        '-' => Some(TokenType::Minus),
        '*' => Some(TokenType::Star),
        '/' => Some(TokenType::Slash),
        '(' => Some(TokenType::LParen),
        ')' => Some(TokenType::RParen),
        '{' => Some(TokenType::LBrace),
        '}' => Some(TokenType::RBrace),
        ',' => Some(TokenType::Comma),
        ';' => Some(TokenType::Semicolon),
        _ => None,
    }
}

/// The token that `=`, `!`, `<` or `>` makes, with `=` after it or not.
pub open spec fn compare_kind(c: char, with_equal: bool) -> TokenType {
    if c == '=' {
        if with_equal { TokenType::EqualEqual } else { TokenType::Equal }
    } else if c == '!' {
        if with_equal { TokenType::BangEqual } else { TokenType::Bang }
    } else if c == '<' {
        if with_equal { TokenType::LessEqual } else { TokenType::Less }
    } else {
        if with_equal { TokenType::GreaterEqual } else { TokenType::Greater }
    }
}

/// One step of scanning at `pos`, with the next character at `line`,
/// `col`: the token read there, if any (whitespace gives none), and where
/// scanning goes on: position, line, column.
pub open spec fn scan_step(src: Seq<char>, pos: int, line: usize, col: usize) -> Result<(Option<SToken>, int, usize, usize), LexError> {
    let c = src[pos];
    let here = |k: SKind| SToken { kind: k, line, column: col };
    match single_kind(c) {
        Some(k) => Ok((Some(here(SKind::Simple(k))), pos + 1, line, next_count(col))),
        None => if c == '=' || c == '!' || c == '<' || c == '>' {
            let eq = pos + 1 < src.len() && src[pos + 1] == '=';
            let t = here(SKind::Simple(compare_kind(c, eq)));
            if eq {
                Ok((Some(t), pos + 2, line, next_count(next_count(col))))
            } else {
                Ok((Some(t), pos + 1, line, next_count(col)))
            }
        } else if is_digit(c) {
            let j = digit_end(src, pos);
            let v = digits_value(src.subrange(pos, j));
            if v > i64::MAX {
                Err(LexError { kind: LexErrorKind::NumberTooLarge, line, column: col })
            } else {
                let (l, k) = loc_after(src, pos, j, line, col);
                Ok((Some(here(SKind::Number(v as i64))), j, l, k))
            }
        } else if c == '"' || c == '\'' {
            let j = quote_end(src, pos + 1, c);
            if j >= src.len() {
                Err(LexError { kind: LexErrorKind::UnterminatedString, line, column: col })
            } else {
                let (l, k) = loc_after(src, pos, j + 1, line, col);
                Ok((Some(here(SKind::StringLiteral(src.subrange(pos + 1, j)))), j + 1, l, k))
            }
        } else if whitespace_char(c) {
            let (l, k) = step_loc(c, line, col);
            Ok((None, pos + 1, l, k))
        } else if alphabetic_char(c) || c == '_' {
            let j = name_end(src, pos + 1);
            let w = src.subrange(pos, j);
            let kind = match keyword_kind(w) {
                Some(k) => SKind::Simple(k),
                None => SKind::Identifier(w),
            };
            let (l, k) = loc_after(src, pos, j, line, col);
            Ok((Some(here(kind)), j, l, k))
        } else {
            Err(LexError { kind: LexErrorKind::UnexpectedCharacter(c), line, column: col })
        },
    }
}

/// The tokens of `src` from `pos` on, with the next character at `line`,
/// `col`, ending with the end-of-input token; or the first lexical error.
pub open spec fn scan(src: Seq<char>, pos: int, line: usize, col: usize) -> Result<Seq<SToken>, LexError>
    decreases src.len() - pos,
{
    if pos < 0 || pos >= src.len() {
        Ok(seq![SToken { kind: SKind::Simple(TokenType::EOF), line, column: col }])
    } else {
        match scan_step(src, pos, line, col) {
            Err(e) => Err(e),
            Ok((t, next, l, k)) => if pos < next <= src.len() {
                match scan(src, next, l, k) {
                    Err(e) => Err(e),
                    Ok(rest) => Ok(
                        match t {
                            Some(t) => seq![t] + rest,
                            None => rest,
                        },
                    ),
                }
            } else {
                Err(LexError { kind: LexErrorKind::UnexpectedCharacter(src[pos]), line, column: col })
            },
        }
    }
}

/// Tokens `p` read before a scan that gives `r`.
pub open spec fn prepend(p: Seq<SToken>, r: Result<Seq<SToken>, LexError>) -> Result<Seq<SToken>, LexError> {
    match r {
        Ok(rest) => Ok(p + rest),
        Err(e) => Err(e),
    }
}

pub proof fn lemma_prepend(p: Seq<SToken>, t: Option<SToken>, r: Result<Seq<SToken>, LexError>)
    ensures
        prepend(
            p,
            match r {
                Err(e) => Err(e),
                Ok(rest) => Ok(
                    match t {
                        Some(t) => seq![t] + rest,
                        None => rest,
                    },
                ),
            },
        ) == prepend(
            match t {
                Some(t) => p.push(t),
                None => p,
            },
            r,
        ),
{
    match (t, r) {
        (Some(t), Ok(rest)) => {
            assert(p + (seq![t] + rest) =~= p.push(t) + rest);
        },
        _ => {
        },
    }
}

pub proof fn lemma_loc_after_push(src: Seq<char>, i: int, j: int, line: usize, col: usize)
    requires
        i <= j,
    ensures
        loc_after(src, i, j + 1, line, col) == step_loc(src[j], loc_after(src, i, j, line, col).0, loc_after(src, i, j, line, col).1),
    decreases j - i,
{
    let (l, c) = step_loc(src[i], line, col);
    if i < j {
        lemma_loc_after_push(src, i + 1, j, l, c);
    } else {
        assert(loc_after(src, i + 1, j + 1, l, c) == (l, c));
    }
}

pub proof fn lemma_digit_end(src: Seq<char>, i: int, j: int)
    requires
        0 <= i <= j <= src.len(),
        forall|k: int| i <= k < j ==> is_digit(#[trigger] src[k]),
        j == src.len() || !is_digit(src[j]),
    ensures
        digit_end(src, i) == j,
    decreases j - i,
{
    if i < j {
        lemma_digit_end(src, i + 1, j);
    }
}

pub proof fn lemma_name_end(src: Seq<char>, i: int, j: int)
    requires
        0 <= i <= j <= src.len(),
        forall|k: int| i <= k < j ==> name_char(#[trigger] src[k]),
        j == src.len() || !name_char(src[j]),
    ensures
        name_end(src, i) == j,
    decreases j - i,
{
    if i < j {
        lemma_name_end(src, i + 1, j);
    }
}

pub proof fn lemma_quote_end(src: Seq<char>, i: int, j: int, q: char)
    requires
        0 <= i <= j <= src.len(),
        forall|k: int| i <= k < j ==> #[trigger] src[k] != q,
        j == src.len() || src[j] == q,
    ensures
        quote_end(src, i, q) == j,
    decreases j - i,
{
    if i < j {
        lemma_quote_end(src, i + 1, j, q);
    }
}

/// The run of digits ends at or after `i`.
pub proof fn lemma_digit_end_ge(src: Seq<char>, i: int)
    requires
        0 <= i,
    ensures
        digit_end(src, i) >= i,
    decreases src.len() - i,
{
    if 0 <= i < src.len() && is_digit(src[i]) {
        lemma_digit_end_ge(src, i + 1);
    }
}

/// A run of digits ends within the text.
pub proof fn lemma_digit_end_bound(src: Seq<char>, i: int)
    requires
        0 <= i <= src.len(),
    ensures
        digit_end(src, i) <= src.len(),
    decreases src.len() - i,
{
    if i < src.len() && is_digit(src[i]) {
        lemma_digit_end_bound(src, i + 1);
    }
}

/// Every character of a run of digits is a digit.
pub proof fn lemma_digit_end_digits(src: Seq<char>, i: int, k: int)
    requires
        0 <= i <= k < digit_end(src, i),
    ensures
        is_digit(src[k]),
    decreases src.len() - i,
{
    if 0 <= i < src.len() && is_digit(src[i]) {
        if k > i {
            lemma_digit_end_digits(src, i + 1, k);
        }
    }
}

/// Appending digits never makes a number smaller.
pub proof fn lemma_digits_grow(s: Seq<char>, k: int)
    requires
        0 <= k <= s.len(),
        forall|i: int| 0 <= i < s.len() ==> is_digit(#[trigger] s[i]),
    ensures
        0 <= digits_value(s.subrange(0, k)) <= digits_value(s),
    decreases s.len(),
{
    if s.len() > 0 {
        let p = s.drop_last();
        assert forall|i: int| 0 <= i < p.len() implies is_digit(#[trigger] p[i]) by {
            assert(p[i] == s[i]);
        }
        if k < s.len() {
            lemma_digits_grow(p, k);
            assert(p.subrange(0, k) =~= s.subrange(0, k));
        } else {
            assert(s.subrange(0, k) =~= s);
            lemma_digits_grow(p, p.len() as int);
            assert(p.subrange(0, p.len() as int) =~= p);
        }
    } else {
        assert(s.subrange(0, k) =~= s);
    }
}

} // verus!

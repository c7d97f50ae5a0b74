pub mod chars;
pub mod scanning;
pub mod token_types;

use chars::{
    alphanumeric_char, chars_of, digits_value, is_alphabetic, is_alphanumeric, is_digit,
    is_whitespace,
};
use crate::parser::is_token_stream;
use scanning::{
    digit_end, lemma_digit_end, lemma_digit_end_bound, lemma_digit_end_digits, lemma_digit_end_ge, lemma_digits_grow,
    lemma_loc_after_push, lemma_name_end, lemma_quote_end, loc_after, name_end, quote_end,
    option_model, token_model, tokens_model, scan, scan_step, single_kind, compare_kind, lemma_prepend, prepend,
    SKind, SToken,
};
use crate::text::push_char;
use token_types::{Token, TokenType};
use vstd::prelude::*;

verus! {

/// Why the source text could not be split into tokens.
#[derive(Debug)]
pub enum LexErrorKind {
    /// A character that starts no token.
    UnexpectedCharacter(char),
    /// A string literal without its closing quote.
    UnterminatedString,
    /// A number literal above the largest 64-bit integer.
    NumberTooLarge,
}

/// A lexical error, at the line and column where the offending token starts.
#[derive(Debug)]
pub struct LexError {
    pub kind: LexErrorKind,
    pub line: usize,
    pub column: usize,
}

/// The keyword that `s` spells, if any.
pub open spec fn keyword_kind(s: Seq<char>) -> Option<TokenType> {
    if s == seq!['f', 'u', 'n', 'c'] {
        Some(TokenType::Function)
    } else if s == seq!['p', 'r', 'i', 'n', 't'] {
        Some(TokenType::Print)
    } else if s == seq!['c', 'l', 'a', 's', 's'] {
        Some(TokenType::Class)
    } else if s == seq!['l', 'e', 't'] {
        Some(TokenType::Let)
    } else {
        None
    }
}

/// A line or column count after one more step; it stays at the largest
/// `usize` once there.
pub open spec fn next_count(n: usize) -> usize {
    if n < usize::MAX {
        (n + 1) as usize
    } else {
        n
    }
}

/// A character that may continue a name.
pub open spec fn name_char(c: char) -> bool {
    alphanumeric_char(c) || c == '_'
}

/// Splits source text into tokens, tracking 1-based lines and columns.
pub struct Tokenizer {
    src: Vec<char>,
    pos: usize,
    line: usize,
    col: usize,
}

impl Tokenizer {
    /// The characters of the source text.
    pub closed spec fn source(&self) -> Seq<char> {
        self.src@
    }

    /// The index of the next character to read.
    pub closed spec fn position(&self) -> nat {
        self.pos as nat
    }

    /// The line and column of the next character.
    pub closed spec fn location(&self) -> (usize, usize) {
        (self.line, self.col)
    }

    pub closed spec fn wf(&self) -> bool {
        &&& self.pos <= self.src@.len()
        &&& 1 <= self.line
        &&& 1 <= self.col
    }

    /// A tokenizer at the start of `input`.
    pub fn new(input: &str) -> (r: Tokenizer)
        ensures
            r.wf(),
            r.source() == input@,
            r.position() == 0,
            r.location() == (1usize, 1usize),
    {
        Tokenizer { src: chars_of(input), pos: 0, line: 1, col: 1 }
    }

    /// The character after the next one, if any.
    fn peek(&self) -> (r: Option<char>)
        requires
            self.wf(),
        ensures
            r == if self.pos + 1 < self.src@.len() {
                Some(self.src@[self.pos + 1])
            } else {
                None::<char>
            },
    {
        if self.pos < self.src.len() && self.pos + 1 < self.src.len() {
            Some(self.src[self.pos + 1])
        } else {
            None
        }
    }

    /// Whether the next character is a decimal digit.
    fn at_digit(&self) -> (r: bool)
        ensures
            r == (self.pos < self.src@.len() && is_digit(self.src@[self.pos as int])),
    {
        self.pos < self.src.len() && '0' <= self.src[self.pos] && self.src[self.pos] <= '9'
    }

    fn is_at_end(&self) -> (r: bool)
        ensures
            r == (self.pos >= self.src@.len()),
    {
        self.pos >= self.src.len()
    }

    /// Moves past the next character, if any, and returns it. A newline
    /// starts the next line at column 1.
    fn advance(&mut self) -> (r: Option<char>)
        requires
            old(self).wf(),
        ensures
            final(self).wf(),
            final(self).src == old(self).src,
            r == (if old(self).pos < old(self).src@.len() {
                Some(old(self).src@[old(self).pos as int])
            } else {
                None::<char>
            }),
            r is Some ==> final(self).pos == old(self).pos + 1,
            r is None ==> final(self).pos == old(self).pos,
            r == Some('\n') ==> final(self).line == next_count(old(self).line) && final(self).col == 1,
            r is Some && r != Some('\n') ==> final(self).line == old(self).line && final(self).col == next_count(old(self).col),
    {
        if self.pos < self.src.len() {
            let ch = self.src[self.pos];
            self.pos = self.pos + 1;
            if ch == '\n' {
                self.line = self.line.saturating_add(1);
                self.col = 1;
            } else {
                self.col = self.col.saturating_add(1);
            }
            Some(ch)
        } else {
            None
        }
    }

    /// A token of kind `k` at the current location.
    fn make_simple_token(&self, k: TokenType) -> (r: Token)
        ensures
            r.token_type == k,
            r.line == self.line,
            r.column == self.col,
    {
        Token { token_type: k, line: self.line, column: self.col }
    }

    /// Reads a run of decimal digits as a number.
    fn number_token(&mut self) -> (r: Result<Token, LexError>)
        requires
            old(self).wf(),
            old(self).pos < old(self).src@.len(),
            is_digit(old(self).src@[old(self).pos as int]),
        ensures
            final(self).wf(),
            final(self).src == old(self).src,
            ({
                let src = old(self).src@;
                let start = old(self).pos as int;
                let v = digits_value(src.subrange(start, digit_end(src, start)));
                match r {
                    Ok(t) => {
                        &&& old(self).pos < final(self).pos
                        &&& final(self).pos == digit_end(src, start)
                        &&& v <= i64::MAX
                        &&& token_model(t) == (SToken { kind: SKind::Number(v as i64), line: old(self).line, column: old(self).col })
                        &&& (final(self).line, final(self).col) == loc_after(src, start, final(self).pos as int, old(self).line, old(self).col)
                    },
                    Err(e) => v > i64::MAX && e == (LexError { kind: LexErrorKind::NumberTooLarge, line: old(self).line, column: old(self).col }),
                }
            }),
    {
        let start = self.pos;
        let line = self.line;
        let col = self.col;
        let mut value: i64 = 0;
        let ghost src = self.src@;
        while self.at_digit()
            invariant
                self.wf(),
                self.src == old(self).src,
                src == self.src@,
                start == old(self).pos,
                start <= self.pos,
                line == old(self).line,
                col == old(self).col,
                forall|i: int| start <= i < self.pos ==> is_digit(#[trigger] src[i]),
                value == digits_value(src.subrange(start as int, self.pos as int)),
                (self.line, self.col) == loc_after(src, start as int, self.pos as int, line, col),
                digit_end(src, start as int) == digit_end(src, self.pos as int),
            decreases src.len() - self.pos,
        {
            let c = self.src[self.pos];
            let d = (c as u32 - '0' as u32) as i64;
            let next = match value.checked_mul(10) {
                Some(v) => v.checked_add(d),
                None => None,
            };
            let ghost at = self.pos as int;
            let ghost run = src.subrange(start as int, at + 1);
            assert(run.drop_last() =~= src.subrange(start as int, at));
            proof {
                lemma_loc_after_push(src, start as int, at, line, col);
            }
            self.advance();
            match next {
                Some(v) => {
                    value = v;
                },
                None => {
                    proof {
                        let end = digit_end(src, start as int);
                        lemma_digit_end_ge(src, at + 1);
                        lemma_digit_end_bound(src, at + 1);
                        let whole = src.subrange(start as int, end);
                        assert forall|i: int| 0 <= i < whole.len() implies is_digit(#[trigger] whole[i]) by {
                            lemma_digit_end_digits(src, start as int, start + i);
                        }
                        lemma_digits_grow(whole, at + 1 - start);
                        assert(whole.subrange(0, at + 1 - start) =~= run);
                    }
                    return Err(LexError { kind: LexErrorKind::NumberTooLarge, line, column: col });
                },
            }
        }
        proof {
            lemma_digit_end(src, self.pos as int, self.pos as int);
            if self.pos == start {
                assert(digit_end(src, start as int) == digit_end(src, start + 1));
                lemma_digit_end_ge(src, start + 1);
            }
        }
        Ok(Token { token_type: TokenType::Number(value), line, column: col })
    }

    /// Whether the next character may continue a name.
    fn at_name_char(&self) -> (r: bool)
        ensures
            r == (self.pos < self.src@.len() && name_char(self.src@[self.pos as int])),
    {
        self.pos < self.src.len() && (is_alphanumeric(self.src[self.pos]) || self.src[self.pos] == '_')
    }

    /// Reads a string literal between two equal quote characters.
    fn string_token(&mut self) -> (r: Result<Token, LexError>)
        requires
            old(self).wf(),
            old(self).pos < old(self).src@.len(),
            old(self).src@[old(self).pos as int] == '"' || old(self).src@[old(self).pos as int] == '\'',
        ensures
            final(self).wf(),
            final(self).src == old(self).src,
            ({
                let src = old(self).src@;
                let start = old(self).pos as int;
                let j = quote_end(src, start + 1, src[start]);
                match r {
                    Ok(t) => {
                        &&& old(self).pos < final(self).pos
                        &&& j < src.len()
                        &&& final(self).pos == j + 1
                        &&& token_model(t) == (SToken {
                            kind: SKind::StringLiteral(src.subrange(start + 1, j)),
                            line: old(self).line,
                            column: old(self).col,
                        })
                        &&& (final(self).line, final(self).col) == loc_after(src, start, j + 1, old(self).line, old(self).col)
                    },
                    Err(e) => j >= src.len() && e == (LexError { kind: LexErrorKind::UnterminatedString, line: old(self).line, column: old(self).col }),
                }
            }),
    {
        let line = self.line;
        let col = self.col;
        let quote = self.src[self.pos];
        let ghost src = self.src@;
        let ghost open_at = self.pos as int;
        proof {
            lemma_loc_after_push(src, open_at, open_at, line, col);
        }
        self.advance();
        let start = self.pos;
        let mut value = String::new();
        while self.pos < self.src.len() && self.src[self.pos] != quote
            invariant
                self.wf(),
                self.src == old(self).src,
                src == self.src@,
                open_at == old(self).pos,
                start == open_at + 1,
                start <= self.pos,
                quote == src[open_at],
                value@ == src.subrange(start as int, self.pos as int),
                forall|i: int| start <= i < self.pos ==> #[trigger] src[i] != quote,
                line == old(self).line,
                col == old(self).col,
                (self.line, self.col) == loc_after(src, open_at, self.pos as int, line, col),
            decreases src.len() - self.pos,
        {
            let c = self.src[self.pos];
            proof {
                lemma_loc_after_push(src, open_at, self.pos as int, line, col);
            }
            push_char(&mut value, c);
            self.advance();
            assert(value@ =~= src.subrange(start as int, self.pos as int));
        }
        proof {
            lemma_quote_end(src, start as int, self.pos as int, quote);
        }
        if self.pos >= self.src.len() {
            return Err(LexError { kind: LexErrorKind::UnterminatedString, line, column: col });
        }
        proof {
            lemma_loc_after_push(src, open_at, self.pos as int, line, col);
        }
        self.advance();
        Ok(Token { token_type: TokenType::StringLiteral(value), line, column: col })
    }

    /// The keyword that `word` spells, if any.
    fn keyword(word: &Vec<char>) -> (r: Option<TokenType>)
        ensures
            r == keyword_kind(word@),
    {
        let n = word.len();
        if n == 4 && word[0] == 'f' && word[1] == 'u' && word[2] == 'n' && word[3] == 'c' {
            assert(word@ =~= seq!['f', 'u', 'n', 'c']);
            Some(TokenType::Function)
        } else if n == 5 && word[0] == 'p' && word[1] == 'r' && word[2] == 'i' && word[3] == 'n' && word[4] == 't' {
            assert(word@ =~= seq!['p', 'r', 'i', 'n', 't']);
            Some(TokenType::Print)
        } else if n == 5 && word[0] == 'c' && word[1] == 'l' && word[2] == 'a' && word[3] == 's' && word[4] == 's' {
            assert(word@ =~= seq!['c', 'l', 'a', 's', 's']);
            Some(TokenType::Class)
        } else if n == 3 && word[0] == 'l' && word[1] == 'e' && word[2] == 't' {
            assert(word@ =~= seq!['l', 'e', 't']);
            Some(TokenType::Let)
        } else {
            None
        }
    }

    /// Reads a name: a keyword, or an identifier.
    fn identifier_token(&mut self) -> (r: Token)
        requires
            old(self).wf(),
            old(self).pos < old(self).src@.len(),
        ensures
            final(self).wf(),
            final(self).src == old(self).src,
            ({
                let src = old(self).src@;
                let start = old(self).pos as int;
                let j = name_end(src, start + 1);
                let w = src.subrange(start, j);
                &&& start < j <= src.len()
                &&& final(self).pos == j
                &&& token_model(r) == (SToken {
                    kind: match keyword_kind(w) {
                        Some(k) => SKind::Simple(k),
                        None => SKind::Identifier(w),
                    },
                    line: old(self).line,
                    column: old(self).col,
                })
                &&& (final(self).line, final(self).col) == loc_after(src, start, j, old(self).line, old(self).col)
            }),
    {
        let start = self.pos;
        let line = self.line;
        let col = self.col;
        let ghost src = self.src@;
        let mut word: Vec<char> = Vec::new();
        let mut text = String::new();
        let c0 = self.src[self.pos];
        word.push(c0);
        push_char(&mut text, c0);
        proof {
            lemma_loc_after_push(src, start as int, start as int, line, col);
        }
        self.advance();
        assert(word@ =~= src.subrange(start as int, self.pos as int));
        while self.at_name_char()
            invariant
                self.wf(),
                self.src == old(self).src,
                src == self.src@,
                start == old(self).pos,
                start < self.pos,
                word@ == src.subrange(start as int, self.pos as int),
                text@ == word@,
                forall|i: int| start < i < self.pos ==> name_char(#[trigger] src[i]),
                line == old(self).line,
                col == old(self).col,
                (self.line, self.col) == loc_after(src, start as int, self.pos as int, line, col),
            decreases src.len() - self.pos,
        {
            let c = self.src[self.pos];
            proof {
                lemma_loc_after_push(src, start as int, self.pos as int, line, col);
            }
            word.push(c);
            push_char(&mut text, c);
            self.advance();
            assert(word@ =~= src.subrange(start as int, self.pos as int));
        }
        proof {
            lemma_name_end(src, start + 1, self.pos as int);
        }
        let token_type = match Self::keyword(&word) {
            Some(k) => k,
            None => TokenType::Identifier(text),
        };
        Token { token_type, line, column: col }
    }

    /// Whether `c` makes a token alone, and which.
    fn single_kind_of(c: char) -> (r: Option<TokenType>)
        ensures
            r == single_kind(c),
    {
        match c {
            '+' => Some(TokenType::Plus),
            '-' => Some(TokenType::Minus),
            '*' => Some(TokenType::Star),
            '/' => Some(TokenType::Slash),
            '(' => Some(TokenType::LParen),
            ')' => Some(TokenType::RParen),
            '{' => Some(TokenType::LBrace),
            '}' => Some(TokenType::RBrace),
            ',' => Some(TokenType::Comma),
            ';' => Some(TokenType::Semicolon),
            _ => None,
        }
    }

    /// Splits the source, from the current position on, into tokens ending
    /// with the end-of-input token: exactly what `scan` describes. Whitespace
    /// separates tokens; the first character that starts no token, an
    /// unterminated string or a number too large ends the run with an error.
    pub fn tokenize(&mut self) -> (r: Result<Vec<Token>, LexError>)
        requires
            old(self).wf(),
        ensures
            final(self).wf(),
            final(self).source() == old(self).source(),
            match scan(old(self).source(), old(self).position() as int, old(self).location().0, old(self).location().1) {
                Ok(ts) => r is Ok && tokens_model(r->Ok_0@) == ts,
                Err(e) => r == Err::<Vec<Token>, LexError>(e),
            },
            r is Ok ==> {
                &&& is_token_stream(r->Ok_0@)
                &&& forall|i: int| 0 <= i < r->Ok_0@.len() - 1 ==> !(#[trigger] r->Ok_0@[i].token_type is EOF)
                &&& final(self).position() == final(self).source().len()
            },
    {
        let mut tokens: Vec<Token> = Vec::new();
        let ghost src = self.src@;
        let ghost total = scan(src, self.pos as int, self.line, self.col);
        assert(tokens_model(tokens@) =~= Seq::<SToken>::empty());
        assert(prepend(Seq::empty(), total) == total);
        while !self.is_at_end()
            invariant
                self.wf(),
                self.src == old(self).src,
                src == self.src@,
                total == scan(src, old(self).pos as int, old(self).line, old(self).col),
                total == prepend(tokens_model(tokens@), scan(src, self.pos as int, self.line, self.col)),
                forall|i: int| 0 <= i < tokens@.len() ==> !(#[trigger] tokens@[i].token_type is EOF),
            decreases src.len() - self.pos,
        {
            let ghost before = tokens@;
            let ghost (pos0, line0, col0) = (self.pos as int, self.line, self.col);
            let c = self.src[self.pos];
            let simple = Self::single_kind_of(c);
            let mut emitted: Option<Token> = None;
            if let Some(k) = simple {
                emitted = Some(self.make_simple_token(k));
                self.advance();
            } else if c == '=' || c == '!' || c == '<' || c == '>' {
                let followed = self.peek() == Some('=');
                let k = if c == '=' {
                    if followed { TokenType::EqualEqual } else { TokenType::Equal }
                } else if c == '!' {
                    if followed { TokenType::BangEqual } else { TokenType::Bang }
                } else if c == '<' {
                    if followed { TokenType::LessEqual } else { TokenType::Less }
                } else {
                    if followed { TokenType::GreaterEqual } else { TokenType::Greater }
                };
                assert(k == compare_kind(c, followed));
                emitted = Some(self.make_simple_token(k));
                self.advance();
                if followed {
                    self.advance();
                }
            } else if '0' <= c && c <= '9' {
                match self.number_token() {
                    Ok(t) => {
                        emitted = Some(t);
                    },
                    Err(e) => {
                        return Err(e);
                    },
                }
            } else if c == '"' || c == '\'' {
                match self.string_token() {
                    Ok(t) => {
                        emitted = Some(t);
                    },
                    Err(e) => {
                        return Err(e);
                    },
                }
            } else if is_whitespace(c) {
                self.advance();
            } else if is_alphabetic(c) || c == '_' {
                emitted = Some(self.identifier_token());
            } else {
                return Err(
                    LexError { kind: LexErrorKind::UnexpectedCharacter(c), line: self.line, column: self.col },
                );
            }
            assert(scan_step(src, pos0, line0, col0) == Ok::<(Option<SToken>, int, usize, usize), LexError>((
                option_model(emitted),
                self.pos as int,
                self.line,
                self.col,
            )));
            proof {
                lemma_prepend(tokens_model(before), option_model(emitted), scan(src, self.pos as int, self.line, self.col));
            }
            match emitted {
                Some(t) => {
                    tokens.push(t);
                    assert(tokens_model(tokens@) =~= tokens_model(before).push(token_model(t)));
                },
                None => {},
            }
        }
        let eof = Token { token_type: TokenType::EOF, line: self.line, column: self.col };
        let ghost before = tokens@;
        tokens.push(eof);
        assert(tokens_model(tokens@) =~= tokens_model(before) + seq![token_model(eof)]);
        Ok(tokens)
    }
}

} // verus!

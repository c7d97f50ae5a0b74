pub mod types;

use crate::text::push_char;
use crate::tokenizer::chars::{
    alphabetic_char, chars_of, digits_value, is_alphabetic, is_alphanumeric, is_digit,
    is_whitespace, whitespace_char,
};
use crate::tokenizer::scanning::{
    digit_end, lemma_digit_end, lemma_digits_grow, lemma_name_end, lemma_quote_end, name_end,
    quote_end,
};
use crate::tokenizer::name_char;
use types::Token;
use vstd::prelude::*;

verus! {

/// The model of a token of this token set: payloads as sequences.
pub enum LTok {
    Func,
    Extern,
    Delimiter,
    OpeningParenthesis,
    ClosingParenthesis,
    OpeningBrace,
    ClosingBrace,
    Comma,
    Ident(Seq<char>),
    Number(i64),
    Operator(Seq<char>),
}

pub open spec fn ltok_model(t: Token) -> LTok {
    match t {
        Token::Func => LTok::Func,
        Token::Extern => LTok::Extern,
        Token::Delimiter => LTok::Delimiter,
        Token::OpeningParenthesis => LTok::OpeningParenthesis,
        Token::ClosingParenthesis => LTok::ClosingParenthesis,
        Token::OpeningBrace => LTok::OpeningBrace,
        Token::ClosingBrace => LTok::ClosingBrace,
        Token::Comma => LTok::Comma,
        Token::Ident(s) => LTok::Ident(s@),
        Token::Number(n) => LTok::Number(n),
        Token::Operator(s) => LTok::Operator(s@),
    }
}

pub open spec fn lopt_model(t: Option<Token>) -> Option<LTok> {
    match t {
        Some(t) => Some(ltok_model(t)),
        None => None,
    }
}

pub open spec fn ltoks_model(ts: Seq<Token>) -> Seq<LTok> {
    ts.map_values(|t: Token| ltok_model(t))
}

/// The keyword token that `s` spells, if any.
pub open spec fn lexer_keyword(s: Seq<char>) -> Option<LTok> {
    if s == seq!['f', 'u', 'n', 'c'] {
        Some(LTok::Func)
    } else if s == seq!['e', 'x', 't', 'e', 'r', 'n'] {
        Some(LTok::Extern)
    } else {
        None
    }
}

/// The token that punctuation or an operator character makes.
pub open spec fn lexer_single(c: char) -> Option<LTok> {
    match c {
        ';' => Some(LTok::Delimiter),
        '(' => Some(LTok::OpeningParenthesis),
        ')' => Some(LTok::ClosingParenthesis),
        ',' => Some(LTok::Comma),
        '{' => Some(LTok::OpeningBrace),
        '}' => Some(LTok::ClosingBrace),
        '=' | '+' | '-' | '*' | '/' => Some(LTok::Operator(seq![c])),
        _ => None,
    }
}

/// One step of scanning at `pos`: the token read there, if any; the
/// character set aside, if any; and where scanning goes on.
pub open spec fn lexer_step(src: Seq<char>, pos: int) -> (Option<LTok>, Option<char>, int) {
    let c = src[pos];
    if whitespace_char(c) {
        (None, None, pos + 1)
    } else if alphabetic_char(c) {
        let j = name_end(src, pos);
        let w = src.subrange(pos, j);
        (
            Some(
                match lexer_keyword(w) {
                    Some(k) => k,
                    None => LTok::Ident(w),
                },
            ),
            None,
            j,
        )
    } else if is_digit(c) {
        let j = digit_end(src, pos);
        let v = digits_value(src.subrange(pos, j));
        if v <= i64::MAX {
            (Some(LTok::Number(v as i64)), None, j)
        } else {
            (None, Some(c), j)
        }
    } else if c == '"' {
        let j = quote_end(src, pos + 1, '"');
        (Some(LTok::Ident(src.subrange(pos + 1, j))), None, if j < src.len() { j + 1 } else { j })
    } else {
        match lexer_single(c) {
            Some(t) => (Some(t), None, pos + 1),
            None => (None, Some(c), pos + 1),
        }
    }
}

pub open spec fn opt_seq<T>(o: Option<T>) -> Seq<T> {
    match o {
        Some(x) => seq![x],
        None => Seq::empty(),
    }
}

/// The tokens read from `pos` on, and the characters set aside.
pub open spec fn lexer_scan(src: Seq<char>, pos: int) -> (Seq<LTok>, Seq<char>)
    decreases src.len() - pos,
{
    if pos < 0 || pos >= src.len() {
        (Seq::empty(), Seq::empty())
    } else {
        let (t, u, next) = lexer_step(src, pos);
        if pos < next <= src.len() {
            let (ts, us) = lexer_scan(src, next);
            (opt_seq(t) + ts, opt_seq(u) + us)
        } else {
            (Seq::empty(), Seq::empty())
        }
    }
}

/// A simpler tokenizer without positions: it skips what it cannot read and
/// keeps those characters aside.
pub struct Tokenizer {
    source: Vec<char>,
    position: usize,
    unhandled: Vec<char>,
}

impl Tokenizer {
    pub closed spec fn source_seq(&self) -> Seq<char> {
        self.source@
    }

    /// The characters set aside so far.
    pub closed spec fn set_aside(&self) -> Seq<char> {
        self.unhandled@
    }

    pub closed spec fn position_of(&self) -> nat {
        self.position as nat
    }

    pub closed spec fn wf(&self) -> bool {
        self.position <= self.source@.len()
    }

    /// A tokenizer at the start of `source_code`.
    pub fn new(source_code: &str) -> (r: Tokenizer)
        ensures
            r.wf(),
            r.source_seq() == source_code@,
            r.position_of() == 0,
            r.set_aside() == Seq::<char>::empty(),
    {
        let r = Tokenizer { source: chars_of(source_code), position: 0, unhandled: Vec::new() };
        assert(r.unhandled@ =~= Seq::<char>::empty());
        r
    }

    /// The characters that `tokenize` skipped because no token starts with
    /// them, in order.
    pub fn unhandled(&self) -> (r: &Vec<char>)
        ensures
            r@ == self.set_aside(),
    {
        &self.unhandled
    }

    /// The next character, if any.
    fn peek(&self) -> (r: Option<char>)
        ensures
            r == if self.position < self.source@.len() {
                Some(self.source@[self.position as int])
            } else {
                None::<char>
            },
    {
        if self.position < self.source.len() {
            Some(self.source[self.position])
        } else {
            None
        }
    }

    /// Moves past the next character, if any, and returns it.
    fn advance(&mut self) -> (r: Option<char>)
        requires
            old(self).wf(),
        ensures
            final(self).wf(),
            final(self).source == old(self).source,
            final(self).unhandled == old(self).unhandled,
            r == (if old(self).position < old(self).source@.len() {
                Some(old(self).source@[old(self).position as int])
            } else {
                None::<char>
            }),
            final(self).position == old(self).position + if r is Some { 1int } else { 0int },
    {
        let c = self.peek();
        if self.position < self.source.len() {
            self.position = self.position + 1;
        }
        c
    }

    /// Reads a name: `func`, `extern`, or an identifier.
    fn consume_identifier(&mut self) -> (r: Token)
        requires
            old(self).wf(),
            old(self).position < old(self).source@.len(),
            alphabetic_char(old(self).source@[old(self).position as int]),
        ensures
            final(self).wf(),
            final(self).source == old(self).source,
            final(self).unhandled == old(self).unhandled,
            old(self).position < final(self).position,
            final(self).position == name_end(old(self).source@, old(self).position as int),
            ltok_model(r) == match lexer_keyword(final(self).source@.subrange(old(self).position as int, final(self).position as int)) {
                Some(k) => k,
                None => LTok::Ident(final(self).source@.subrange(old(self).position as int, final(self).position as int)),
            },
    {
        let start = self.position;
        let mut ident = String::new();
        let mut word: Vec<char> = Vec::new();
        while self.position < self.source.len() && (is_alphanumeric(self.source[self.position]) || self.source[self.position] == '_')
            invariant
                self.wf(),
                self.source == old(self).source,
                self.unhandled == old(self).unhandled,
                start == old(self).position,
                start <= self.position,
                start < self.source@.len(),
                alphabetic_char(self.source@[start as int]),
                word@ == self.source@.subrange(start as int, self.position as int),
                ident@ == word@,
                forall|i: int| start <= i < self.position ==> name_char(#[trigger] self.source@[i]),
            decreases self.source@.len() - self.position,
        {
            let c = self.source[self.position];
            word.push(c);
            push_char(&mut ident, c);
            self.advance();
            assert(word@ =~= self.source@.subrange(start as int, self.position as int));
        }
        proof {
            lemma_name_end(self.source@, start as int, self.position as int);
        }
        let n = word.len();
        if n == 4 && word[0] == 'f' && word[1] == 'u' && word[2] == 'n' && word[3] == 'c' {
            assert(word@ =~= seq!['f', 'u', 'n', 'c']);
            Token::Func
        } else if n == 6 && word[0] == 'e' && word[1] == 'x' && word[2] == 't' && word[3] == 'e'
            && word[4] == 'r' && word[5] == 'n' {
            assert(word@ =~= seq!['e', 'x', 't', 'e', 'r', 'n']);
            Token::Extern
        } else {
            Token::Ident(ident)
        }
    }

    /// Reads a whole run of decimal digits; `None` where its value does not
    /// fit in 64 bits.
    fn consume_number(&mut self) -> (r: Option<i64>)
        requires
            old(self).wf(),
            old(self).position < old(self).source@.len(),
            is_digit(old(self).source@[old(self).position as int]),
        ensures
            final(self).wf(),
            final(self).source == old(self).source,
            final(self).unhandled == old(self).unhandled,
            old(self).position < final(self).position,
            final(self).position == digit_end(old(self).source@, old(self).position as int),
            ({
                let v = digits_value(old(self).source@.subrange(old(self).position as int, final(self).position as int));
                r == if v <= i64::MAX {
                    Some(v as i64)
                } else {
                    None::<i64>
                }
            }),
    {
        let start = self.position;
        let ghost src = self.source@;
        let mut value: i64 = 0;
        let mut fits = true;
        while self.position < self.source.len() && '0' <= self.source[self.position] && self.source[self.position] <= '9'
            invariant
                self.wf(),
                self.source == old(self).source,
                src == self.source@,
                self.unhandled == old(self).unhandled,
                start == old(self).position,
                start <= self.position,
                forall|i: int| start <= i < self.position ==> is_digit(#[trigger] src[i]),
                start < src.len(),
                is_digit(src[start as int]),
                fits ==> value == digits_value(src.subrange(start as int, self.position as int)),
                !fits ==> digits_value(src.subrange(start as int, self.position as int)) > i64::MAX,
            decreases src.len() - self.position,
        {
            let d = (self.source[self.position] as u32 - '0' as u32) as i64;
            let ghost at = self.position as int;
            let ghost run = src.subrange(start as int, at + 1);
            assert(run.drop_last() =~= src.subrange(start as int, at));
            proof {
                assert forall|i: int| 0 <= i < run.drop_last().len() implies is_digit(#[trigger] run.drop_last()[i]) by {
                    assert(run.drop_last()[i] == src[start + i]);
                }
                lemma_digits_grow(run.drop_last(), 0);
                assert(run.drop_last().subrange(0, 0) =~= Seq::<char>::empty());
            }
            self.advance();
            if fits {
                match value.checked_mul(10) {
                    Some(v) => match v.checked_add(d) {
                        Some(w) => {
                            value = w;
                        },
                        None => {
                            fits = false;
                        },
                    },
                    None => {
                        fits = false;
                    },
                }
            }
        }
        proof {
            lemma_digit_end(src, start as int, self.position as int);
        }
        if fits {
            Some(value)
        } else {
            None
        }
    }

    /// Reads a string literal: the characters after the opening `"` up to
    /// the closing one, or to the end of input where none comes.
    fn consume_string(&mut self) -> (r: String)
        requires
            old(self).wf(),
            old(self).position < old(self).source@.len(),
        ensures
            final(self).wf(),
            final(self).source == old(self).source,
            final(self).unhandled == old(self).unhandled,
            old(self).position < final(self).position,
            old(self).source@[old(self).position as int] == '"' ==> ({
                let src = old(self).source@;
                let j = quote_end(src, old(self).position + 1, '"');
                &&& r@ == src.subrange(old(self).position + 1, j)
                &&& final(self).position == if j < src.len() { j + 1 } else { j }
            }),
    {
        self.advance();
        let start = self.position;
        let mut result = String::new();
        while self.position < self.source.len() && self.source[self.position] != '"'
            invariant
                self.wf(),
                self.source == old(self).source,
                self.unhandled == old(self).unhandled,
                start == old(self).position + 1,
                start <= self.position,
                result@ == self.source@.subrange(start as int, self.position as int),
                forall|i: int| start <= i < self.position ==> #[trigger] self.source@[i] != '"',
            decreases self.source@.len() - self.position,
        {
            let c = self.source[self.position];
            push_char(&mut result, c);
            self.advance();
            assert(result@ =~= self.source@.subrange(start as int, self.position as int));
        }
        proof {
            lemma_quote_end(self.source@, start as int, self.position as int, '"');
        }
        if self.position < self.source.len() {
            self.advance();
        }
        result
    }

    /// Splits the source, from the current position on, into tokens,
    /// skipping whitespace: exactly what `lexer_scan` describes. A character
    /// that starts no token, or the first digit of a number too large, is
    /// set aside in `unhandled`.
    pub fn tokenize(&mut self) -> (r: Vec<Token>)
        requires
            old(self).wf(),
        ensures
            final(self).wf(),
            final(self).source_seq() == old(self).source_seq(),
            final(self).position_of() == final(self).source_seq().len(),
            ltoks_model(r@) == lexer_scan(old(self).source_seq(), old(self).position_of() as int).0,
            final(self).set_aside() == old(self).set_aside() + lexer_scan(old(self).source_seq(), old(self).position_of() as int).1,
    {
        let mut tokens: Vec<Token> = Vec::new();
        let ghost src = self.source@;
        let ghost total = lexer_scan(src, self.position as int);
        assert(ltoks_model(tokens@) + total.0 =~= total.0);
        assert(old(self).unhandled@ + total.1 =~= self.unhandled@ + total.1);
        while self.position < self.source.len()
            invariant
                self.wf(),
                self.source == old(self).source,
                src == self.source@,
                total == lexer_scan(src, old(self).position as int),
                total.0 == ltoks_model(tokens@) + lexer_scan(src, self.position as int).0,
                old(self).unhandled@ + total.1 == self.unhandled@ + lexer_scan(src, self.position as int).1,
            decreases src.len() - self.position,
        {
            let ghost pos0 = self.position as int;
            let ghost toks0 = tokens@;
            let ghost unh0 = self.unhandled@;
            let ch = self.source[self.position];
            let mut emitted: Option<Token> = None;
            let mut aside: Option<char> = None;
            if is_whitespace(ch) {
                self.advance();
            } else if is_alphabetic(ch) {
                emitted = Some(self.consume_identifier());
            } else if '0' <= ch && ch <= '9' {
                match self.consume_number() {
                    Some(n) => {
                        emitted = Some(Token::Number(n));
                    },
                    None => {
                        aside = Some(ch);
                    },
                }
            } else if ch == '"' {
                let s = self.consume_string();
                emitted = Some(Token::Ident(s));
            } else {
                self.advance();
                match ch {
                    ';' => {
                        emitted = Some(Token::Delimiter);
                    },
                    '(' => {
                        emitted = Some(Token::OpeningParenthesis);
                    },
                    ')' => {
                        emitted = Some(Token::ClosingParenthesis);
                    },
                    ',' => {
                        emitted = Some(Token::Comma);
                    },
                    '{' => {
                        emitted = Some(Token::OpeningBrace);
                    },
                    '}' => {
                        emitted = Some(Token::ClosingBrace);
                    },
                    '=' | '+' | '-' | '*' | '/' => {
                        let mut op = String::new();
                        push_char(&mut op, ch);
                        assert(op@ =~= seq![ch]);
                        emitted = Some(Token::Operator(op));
                    },
                    _ => {
                        aside = Some(ch);
                    },
                }
            }
            assert(lexer_step(src, pos0) == (lopt_model(emitted), aside, self.position as int));
            let ghost rest = lexer_scan(src, self.position as int);
            assert(lexer_scan(src, pos0) == (opt_seq(lopt_model(emitted)) + rest.0, opt_seq(aside) + rest.1));
            match emitted {
                Some(t) => {
                    tokens.push(t);
                    assert(ltoks_model(tokens@) =~= ltoks_model(toks0) + seq![ltok_model(t)]);
                },
                None => {},
            }
            match aside {
                Some(c) => {
                    self.unhandled.push(c);
                },
                None => {},
            }
            assert(total.0 =~= ltoks_model(tokens@) + rest.0);
            assert(old(self).unhandled@ + total.1 =~= self.unhandled@ + rest.1);
        }
        assert(ltoks_model(tokens@) =~= total.0);
        assert(self.unhandled@ =~= old(self).unhandled@ + total.1);
        tokens
    }
}

} // verus!

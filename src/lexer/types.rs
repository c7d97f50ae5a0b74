use vstd::prelude::*;

verus! {

/// A token of the simpler token set that `lexer::Tokenizer` produces.
#[derive(Debug)]
pub enum Token {
    Func,
    Extern,
    /// `;`
    Delimiter,
    OpeningParenthesis,
    ClosingParenthesis,
    OpeningBrace,
    ClosingBrace,
    Comma,
    Ident(String),
    Number(i64),
    /// One of `= + - * /`.
    Operator(String),
}

} // verus!

use crate::environment_symbol_table::types::{RuntimeError, SRuntimeError};
use crate::interpreter_engine::semantics::exec_block;
use crate::interpreter_engine::{initial_state, Interpreter, MAX_CALL_DEPTH};
use crate::parser::grammar::{parse_tokens, ParseError};
use crate::parser::parser_types::strings_view;
use crate::parser::{is_token_stream, Parser};
use crate::tokenizer::token_types::Token;
use crate::tokenizer::scanning::{scan, tokens_model};
use crate::tokenizer::{LexError, Tokenizer};
use vstd::prelude::*;

verus! {

/// Why a program did not run to completion.
#[derive(Debug)]
pub enum ProgramError {
    Lex(LexError),
    Parse(ParseError),
    Runtime(RuntimeError),
}

/// The lines a run printed, and how it ended.
pub struct RunOutcome {
    pub output: Vec<String>,
    pub result: Result<(), ProgramError>,
}

/// What running the parsed program `toks` gives: nothing printed and the
/// parse error, or the output and the result of executing its statements in
/// the global scope of a fresh interpreter.
pub open spec fn run_spec(toks: Seq<Token>) -> (Seq<Seq<char>>, Result<(), Result<ParseError, SRuntimeError>>) {
    match parse_tokens(toks) {
        Err(e) => (Seq::empty(), Err(Ok(e))),
        Ok(stmts) => {
            let (st, r) = exec_block(initial_state(), 0, stmts, MAX_CALL_DEPTH as nat);
            match r {
                Ok(_) => (st.out, Ok(())),
                Err(x) => (st.out, Err(Err(x))),
            }
        },
    }
}

/// Run outcome `o` is the one that `run_spec` describes as `s`.
pub open spec fn outcome_matches(o: RunOutcome, s: (Seq<Seq<char>>, Result<(), Result<ParseError, SRuntimeError>>)) -> bool {
    &&& strings_view(o.output@) == s.0
    &&& match s.1 {
        Ok(_) => o.result is Ok,
        Err(Ok(e)) => o.result == Err::<(), ProgramError>(ProgramError::Parse(e)),
        Err(Err(x)) => o.result matches Err(ProgramError::Runtime(y)) && y@ == x,
    }
}

/// Parses a token sequence and runs the program it holds.
pub fn run_tokens(tokens: Vec<Token>) -> (r: RunOutcome)
    requires
        is_token_stream(tokens@),
    ensures
        outcome_matches(r, run_spec(tokens@)),
{
    let mut parser = Parser::new(tokens);
    match parser.parse() {
        Err(e) => {
            let output: Vec<String> = Vec::new();
            assert(strings_view(output@) =~= Seq::<Seq<char>>::empty());
            RunOutcome { output, result: Err(ProgramError::Parse(e)) }
        },
        Ok(statements) => {
            let mut interpreter = Interpreter::new();
            let result = interpreter.interpret(statements);
            let output = interpreter.into_output();
            match result {
                Ok(_) => RunOutcome { output, result: Ok(()) },
                Err(x) => RunOutcome { output, result: Err(ProgramError::Runtime(x)) },
            }
        },
    }
}

/// Tokenizes, parses and runs source text. A lexical error ends the run
/// before anything is parsed or printed.
pub fn run_source_code(source: &str) -> (r: RunOutcome)
    ensures
        match scan(source@, 0, 1, 1) {
            Err(e) => r.result == Err::<(), ProgramError>(ProgramError::Lex(e)) && r.output@.len() == 0,
            Ok(ts) => exists|toks: Seq<Token>|
                tokens_model(toks) == ts && is_token_stream(toks) && #[trigger] outcome_matches(r, run_spec(toks)),
        },
{
    let mut tokenizer = Tokenizer::new(source);
    match tokenizer.tokenize() {
        Err(e) => RunOutcome { output: Vec::new(), result: Err(ProgramError::Lex(e)) },
        Ok(tokens) => {
            let ghost toks = tokens@;
            let r = run_tokens(tokens);
            assert(outcome_matches(r, run_spec(toks)));
            r
        },
    }
}

} // verus!

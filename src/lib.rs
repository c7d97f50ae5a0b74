pub mod tokenizer;
pub mod parser;
pub mod environment_symbol_table;
pub mod text;
pub mod interpreter_engine;
pub mod lexer;
pub mod driver;

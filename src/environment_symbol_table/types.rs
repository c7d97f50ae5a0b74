use crate::parser::parser_types::{duplicate_stmts, duplicate_strings, stmts_view, strings_view, SStmt, Stmt};
use crate::tokenizer::token_types::TokenType;
use vstd::prelude::*;

verus! {

/// A function value: its declaration and the scope it was declared in.
#[derive(Debug)]
pub struct Function {
    pub name: String,
    pub params: Vec<String>,
    pub body: Vec<Stmt>,
    /// The scope that was current when the function was declared.
    pub closure: usize,
}

/// A runtime value.
#[derive(Debug)]
pub enum Value {
    Number(i64),
    String(String),
    Boolean(bool),
    Function(Function),
    Nil,
}

/// The mathematical model of a runtime value.
pub enum SValue {
    Number(i64),
    Str(Seq<char>),
    Boolean(bool),
    Function { name: Seq<char>, params: Seq<Seq<char>>, body: Seq<SStmt>, closure: nat },
    Nil,
}

impl View for Value {
    type V = SValue;

    open spec fn view(&self) -> SValue {
        match self {
            Value::Number(n) => SValue::Number(*n),
            Value::String(s) => SValue::Str(s@),
            Value::Boolean(b) => SValue::Boolean(*b),
            Value::Function(f) => SValue::Function {
                name: f.name@,
                params: strings_view(f.params@),
                body: stmts_view(f.body@),
                closure: f.closure as nat,
            },
            Value::Nil => SValue::Nil,
        }
    }
}

impl Value {
    /// A copy of this value, equal to it in the model.
    pub fn duplicate(&self) -> (r: Value)
        ensures
            r@ == self@,
    {
        match self {
            Value::Number(n) => Value::Number(*n),
            Value::String(s) => Value::String(s.clone()),
            Value::Boolean(b) => Value::Boolean(*b),
            Value::Function(f) => Value::Function(
                Function {
                    name: f.name.clone(),
                    params: duplicate_strings(&f.params),
                    body: duplicate_stmts(&f.body),
                    closure: f.closure,
                },
            ),
            Value::Nil => Value::Nil,
        }
    }
}

/// What makes an operation fail with a type error.
#[derive(Debug)]
pub enum TypeErrorKind {
    /// The operands do not suit the operator.
    InvalidOperands(TokenType),
    /// The callee of a call is not a function.
    NotCallable,
    /// The left side of `=` is not a name.
    InvalidAssignmentTarget,
    /// The operator of a binary expression is not one the language knows.
    UnsupportedOperator(TokenType),
}

/// An error raised while a program runs.
#[derive(Debug)]
pub enum RuntimeError {
    /// A name is not defined in any enclosing scope.
    NameError(String),
    TypeError(TypeErrorKind),
    /// A call passes `found` arguments to a function of `expected` parameters.
    ArityError { expected: usize, found: usize },
    DivisionByZero,
    /// An arithmetic result does not fit in 64 bits.
    Overflow,
    /// Calls nest deeper than the interpreter allows.
    StackOverflow,
}

/// The mathematical model of a runtime error.
pub enum SRuntimeError {
    NameError(Seq<char>),
    TypeError(TypeErrorKind),
    ArityError { expected: nat, found: nat },
    DivisionByZero,
    Overflow,
    StackOverflow,
}

impl View for RuntimeError {
    type V = SRuntimeError;

    open spec fn view(&self) -> SRuntimeError {
        match self {
            RuntimeError::NameError(n) => SRuntimeError::NameError(n@),
            RuntimeError::TypeError(k) => SRuntimeError::TypeError(*k),
            RuntimeError::ArityError { expected, found } => SRuntimeError::ArityError {
                expected: *expected as nat,
                found: *found as nat,
            },
            RuntimeError::DivisionByZero => SRuntimeError::DivisionByZero,
            RuntimeError::Overflow => SRuntimeError::Overflow,
            RuntimeError::StackOverflow => SRuntimeError::StackOverflow,
        }
    }
}

} // verus!

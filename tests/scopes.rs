use nesia::environment_symbol_table::types::{RuntimeError, Value};
use nesia::environment_symbol_table::Environment;
use nesia::interpreter_engine::{display_value, Interpreter};
use nesia::parser::parser_types::{Expr, Stmt};
use nesia::tokenizer::token_types::TokenType;

fn number(v: Result<Value, RuntimeError>) -> i64 {
    match v {
        Ok(Value::Number(n)) => n,
        other => panic!("not a number: {:?}", other),
    }
}

#[test]
fn define_then_get() {
    let mut env = Environment::new();
    env.define(0, "x", Value::Number(1));
    assert_eq!(number(env.get(0, "x")), 1);
    env.define(0, "x", Value::Number(2));
    assert_eq!(number(env.get(0, "x")), 2);
}

#[test]
fn lookup_walks_outward_and_inner_shadows() {
    let mut env = Environment::new();
    env.define(0, "x", Value::Number(1));
    let inner = env.with_enclosing(0);
    assert_eq!(inner, 1);
    assert_eq!(number(env.get(inner, "x")), 1);
    env.define(inner, "x", Value::Number(5));
    assert_eq!(number(env.get(inner, "x")), 5);
    assert_eq!(number(env.get(0, "x")), 1);
}

#[test]
fn assign_updates_nearest_binding() {
    let mut env = Environment::new();
    env.define(0, "x", Value::Number(1));
    let inner = env.with_enclosing(0);
    assert!(env.assign(inner, "x", Value::Number(9)).is_ok());
    assert_eq!(number(env.get(0, "x")), 9);
    assert_eq!(env.scope_count(), 2);
}

#[test]
fn assign_to_undefined_name_fails() {
    let mut env = Environment::new();
    let inner = env.with_enclosing(0);
    match env.assign(inner, "nope", Value::Nil) {
        Err(RuntimeError::NameError(n)) => assert_eq!(n, "nope"),
        other => panic!("{:?}", other),
    }
    assert!(matches!(env.get(0, "nope"), Err(RuntimeError::NameError(_))));
    assert!(matches!(env.get(inner, "nope"), Err(RuntimeError::NameError(_))));
}

fn num(n: i64) -> Expr {
    Expr::Number(n)
}

fn bin(l: Expr, op: TokenType, r: Expr) -> Expr {
    Expr::Binary { left: Box::new(l), op, right: Box::new(r) }
}

#[test]
fn comparison_operators() {
    let mut it = Interpreter::new();
    let prog = vec![
        Stmt::PrintStmt(bin(num(1), TokenType::Less, num(2))),
        Stmt::PrintStmt(bin(num(2), TokenType::LessEqual, num(2))),
        Stmt::PrintStmt(bin(num(1), TokenType::Greater, num(2))),
        Stmt::PrintStmt(bin(num(3), TokenType::GreaterEqual, num(2))),
    ];
    assert!(it.interpret(prog).is_ok());
    assert_eq!(it.output(), &vec!["true", "true", "false", "true"]);
}

#[test]
fn comparing_strings_is_a_type_error() {
    let mut it = Interpreter::new();
    let prog = vec![Stmt::ExprStmt(bin(Expr::StringLiteral("a".to_string()), TokenType::Less, num(2)))];
    assert!(matches!(it.interpret(prog), Err(RuntimeError::TypeError(_))));
}

#[test]
fn assignment_expression_defines_and_yields_value() {
    let mut it = Interpreter::new();
    let prog = vec![
        Stmt::PrintStmt(bin(Expr::Identifier("z".to_string()), TokenType::Equal, num(4))),
        Stmt::PrintStmt(Expr::Identifier("z".to_string())),
    ];
    assert!(it.interpret(prog).is_ok());
    assert_eq!(it.output(), &vec!["4", "4"]);
}

#[test]
fn assignment_to_a_non_name_is_a_type_error() {
    let mut it = Interpreter::new();
    let prog = vec![Stmt::ExprStmt(bin(num(1), TokenType::Equal, num(2)))];
    assert!(matches!(
        it.interpret(prog),
        Err(RuntimeError::TypeError(nesia::environment_symbol_table::types::TypeErrorKind::InvalidAssignmentTarget))
    ));
}

#[test]
fn unknown_operator_is_a_type_error() {
    let mut it = Interpreter::new();
    let prog = vec![Stmt::ExprStmt(bin(num(1), TokenType::Comma, num(2)))];
    assert!(matches!(
        it.interpret(prog),
        Err(RuntimeError::TypeError(nesia::environment_symbol_table::types::TypeErrorKind::UnsupportedOperator(TokenType::Comma)))
    ));
}

#[test]
fn state_persists_between_runs() {
    let mut it = Interpreter::new();
    let first = vec![Stmt::VarDecl { name: "k".to_string(), value: num(3) }];
    assert!(it.interpret(first).is_ok());
    let second = vec![Stmt::PrintStmt(bin(Expr::Identifier("k".to_string()), TokenType::Star, num(3)))];
    assert!(it.interpret(second).is_ok());
    assert_eq!(it.into_output(), vec!["9"]);
}

#[test]
fn displays_values() {
    assert_eq!(display_value(&Value::Number(-42)), "-42");
    assert_eq!(display_value(&Value::Number(0)), "0");
    assert_eq!(display_value(&Value::String("x y".to_string())), "x y");
    assert_eq!(display_value(&Value::Boolean(false)), "false");
    assert_eq!(display_value(&Value::Nil), "nil");
}

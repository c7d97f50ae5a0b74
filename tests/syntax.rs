use nesia::parser::parser_types::{Expr, Stmt};
use nesia::parser::Parser;
use nesia::tokenizer::token_types::{Token, TokenType};
use nesia::tokenizer::Tokenizer;

fn tokens(src: &str) -> Vec<Token> {
    Tokenizer::new(src).tokenize().expect("tokenizes")
}

fn parse(src: &str) -> Vec<Stmt> {
    Parser::new(tokens(src)).parse().expect("parses")
}

fn op_text(op: &TokenType) -> &'static str {
    match op {
        TokenType::Plus => "+",
        TokenType::Minus => "-",
        TokenType::Star => "*",
        TokenType::Slash => "/",
        TokenType::EqualEqual => "==",
        TokenType::BangEqual => "!=",
        _ => "?",
    }
}

fn show(e: &Expr) -> String {
    match e {
        Expr::Number(n) => n.to_string(),
        Expr::Identifier(s) => s.clone(),
        Expr::StringLiteral(s) => format!("{:?}", s),
        Expr::Binary { left, op, right } => format!("({} {} {})", show(left), op_text(op), show(right)),
        Expr::Call { callee, arguments } => {
            let args: Vec<String> = arguments.iter().map(show).collect();
            format!("{}[{}]", show(callee), args.join(", "))
        },
    }
}

fn single_expression(src: &str) -> String {
    let stmts = parse(src);
    assert_eq!(stmts.len(), 1);
    match &stmts[0] {
        Stmt::ExprStmt(e) => show(e),
        s => panic!("not an expression statement: {:?}", s),
    }
}

#[test]
fn product_binds_tighter_than_sum() {
    assert_eq!(single_expression("1 + 2 * 3;"), "(1 + (2 * 3))");
    assert_eq!(single_expression("1 * 2 + 3;"), "((1 * 2) + 3)");
}

#[test]
fn operators_associate_to_the_left() {
    assert_eq!(single_expression("1 - 2 - 3;"), "((1 - 2) - 3)");
    assert_eq!(single_expression("8 / 4 / 2;"), "((8 / 4) / 2)");
    assert_eq!(single_expression("1 + 2 - 3 + 4;"), "(((1 + 2) - 3) + 4)");
    assert_eq!(single_expression("2 * 3 / 4 * 5;"), "(((2 * 3) / 4) * 5)");
}

#[test]
fn equality_binds_loosest() {
    assert_eq!(single_expression("1 + 2 == 3 * 1;"), "((1 + 2) == (3 * 1))");
    assert_eq!(single_expression("1 == 2 != 3;"), "((1 == 2) != 3)");
}

#[test]
fn parentheses_and_unary_minus() {
    assert_eq!(single_expression("(1 + 2) * 3;"), "((1 + 2) * 3)");
    assert_eq!(single_expression("-x * 2;"), "((0 - x) * 2)");
    assert_eq!(single_expression("1 - -2;"), "(1 - (0 - 2))");
}

#[test]
fn calls_and_literals() {
    assert_eq!(single_expression("f();"), "f[]");
    assert_eq!(single_expression("add(1, x * 2, \"s\");"), "add[1, (x * 2), \"s\"]");
    assert_eq!(single_expression("g(h(1));"), "g[h[1]]");
}

#[test]
fn statements() {
    let stmts = parse("let x = 1; print(x); func f(a, b) { let c = a; print(c); } f(1, 2);");
    assert_eq!(stmts.len(), 4);
    match &stmts[0] {
        Stmt::VarDecl { name, value } => {
            assert_eq!(name, "x");
            assert_eq!(show(value), "1");
        },
        s => panic!("{:?}", s),
    }
    assert!(matches!(&stmts[1], Stmt::PrintStmt(Expr::Identifier(n)) if n == "x"));
    match &stmts[2] {
        Stmt::FunctionStmt { name, params, body } => {
            assert_eq!(name, "f");
            assert_eq!(params, &vec!["a".to_string(), "b".to_string()]);
            assert_eq!(body.len(), 2);
        },
        s => panic!("{:?}", s),
    }
    assert!(matches!(&stmts[3], Stmt::ExprStmt(Expr::Call { .. })));
}

#[test]
fn empty_function_body_and_no_parameters() {
    let stmts = parse("func f() { }");
    match &stmts[0] {
        Stmt::FunctionStmt { params, body, .. } => {
            assert!(params.is_empty());
            assert!(body.is_empty());
        },
        s => panic!("{:?}", s),
    }
}

#[test]
fn only_end_of_input_parses_to_nothing() {
    let eof = vec![Token { token_type: TokenType::EOF, line: 1, column: 1 }];
    assert!(Parser::new(eof).parse().unwrap().is_empty());
}

#[test]
fn tokens_from_hand_parse() {
    let t = |k: TokenType| Token { token_type: k, line: 1, column: 1 };
    let toks = vec![
        t(TokenType::Number(4)),
        t(TokenType::Minus),
        t(TokenType::Identifier("y".to_string())),
        t(TokenType::Semicolon),
        t(TokenType::EOF),
    ];
    let stmts = Parser::new(toks).parse().unwrap();
    match &stmts[0] {
        Stmt::ExprStmt(e) => assert_eq!(show(e), "(4 - y)"),
        s => panic!("{:?}", s),
    }
}

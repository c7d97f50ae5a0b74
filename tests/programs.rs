use nesia::driver::{run_source_code, ProgramError, RunOutcome};
use nesia::environment_symbol_table::types::{RuntimeError, TypeErrorKind};
use nesia::parser::grammar::ParseErrorKind;
use nesia::tokenizer::token_types::TokenType;
use nesia::tokenizer::LexErrorKind;

fn run(src: &str) -> RunOutcome {
    run_source_code(src)
}

fn printed(src: &str) -> Vec<String> {
    let r = run(src);
    assert!(r.result.is_ok(), "run failed: {:?}", r.result);
    r.output
}

fn runtime_error(src: &str) -> RuntimeError {
    match run(src).result {
        Err(ProgramError::Runtime(e)) => e,
        other => panic!("expected a runtime error, got {:?}", other),
    }
}

fn parse_error_kind(src: &str) -> ParseErrorKind {
    match run(src).result {
        Err(ProgramError::Parse(e)) => e.kind,
        other => panic!("expected a parse error, got {:?}", other),
    }
}

#[test]
fn precedence_program_prints_seven() {
    assert_eq!(printed("print(1 + 2 * 3);"), vec!["7"]);
    let r = run("1 + 2 * 3;");
    assert!(r.result.is_ok());
    assert!(r.output.is_empty());
}

#[test]
fn let_bindings_print_seven() {
    assert_eq!(printed("let x = 10; let y = x - 3; print(y);"), vec!["7"]);
}

#[test]
fn string_concatenation() {
    assert_eq!(printed("let s = \"a\" + \"b\"; print(s);"), vec!["ab"]);
    assert!(run("\"a\" + \"b\";").result.is_ok());
}

#[test]
fn string_plus_number_is_type_error() {
    match runtime_error("\"a\" + 1;") {
        RuntimeError::TypeError(TypeErrorKind::InvalidOperands(op)) => assert_eq!(op, TokenType::Plus),
        e => panic!("unexpected {:?}", e),
    }
}

#[test]
fn division_by_zero() {
    assert!(matches!(runtime_error("1 / 0;"), RuntimeError::DivisionByZero));
}

#[test]
fn function_call_prints_and_yields_nil() {
    let src = "func add(a, b) { let s = a + b; print(s); } add(2,3);";
    assert_eq!(printed(src), vec!["5"]);
    let src2 = "func add(a, b) { let s = a + b; print(s); } print(add(2,3));";
    assert_eq!(printed(src2), vec!["5", "nil"]);
}

#[test]
fn wrong_argument_count_is_arity_error() {
    match runtime_error("func add(a, b) { print(a + b); } add(1);") {
        RuntimeError::ArityError { expected, found } => {
            assert_eq!(expected, 2);
            assert_eq!(found, 1);
        },
        e => panic!("unexpected {:?}", e),
    }
}

#[test]
fn undefined_names_are_name_errors() {
    for (src, name) in [("print(z);", "z"), ("f(1);", "f"), ("1 + q;", "q"), ("let a = b;", "b")] {
        match runtime_error(src) {
            RuntimeError::NameError(n) => assert_eq!(n, name),
            e => panic!("unexpected {:?}", e),
        }
    }
}

#[test]
fn redeclaration_overwrites() {
    assert_eq!(printed("let x = 1; let x = 2; print(x);"), vec!["2"]);
    assert_eq!(printed("let x = 1; let x = x + 5; print(x);"), vec!["6"]);
}

#[test]
fn output_before_an_error_is_kept() {
    let r = run("print(1); print(2 / 0); print(3);");
    assert_eq!(r.output, vec!["1"]);
    assert!(matches!(r.result, Err(ProgramError::Runtime(RuntimeError::DivisionByZero))));
}

#[test]
fn empty_program_runs() {
    let r = run("");
    assert!(r.result.is_ok());
    assert!(r.output.is_empty());
    assert!(run("  \n\t ").result.is_ok());
}

#[test]
fn left_associative_arithmetic() {
    assert_eq!(printed("print(10 - 3 - 2);"), vec!["5"]);
    assert_eq!(printed("print(64 / 4 / 2);"), vec!["8"]);
    assert_eq!(printed("print((10 - 3) * 2);"), vec!["14"]);
    assert_eq!(printed("print(2 * 3 + 4 * 5);"), vec!["26"]);
}

#[test]
fn unary_minus_and_negative_numbers() {
    assert_eq!(printed("print(-3);"), vec!["-3"]);
    assert_eq!(printed("print(--3);"), vec!["3"]);
    assert_eq!(printed("print(0 - 9223372036854775807 - 1);"), vec!["-9223372036854775808"]);
}

#[test]
fn division_rounds_toward_zero() {
    assert_eq!(printed("print(7 / 2);"), vec!["3"]);
    assert_eq!(printed("print(-7 / 2);"), vec!["-3"]);
    assert_eq!(printed("print(7 / -2);"), vec!["-3"]);
}

#[test]
fn arithmetic_overflow() {
    assert!(matches!(runtime_error("9223372036854775807 + 1;"), RuntimeError::Overflow));
    assert!(matches!(runtime_error("4611686018427387904 * 2;"), RuntimeError::Overflow));
    assert!(matches!(runtime_error("(0 - 9223372036854775807 - 1) / -1;"), RuntimeError::Overflow));
}

#[test]
fn equality_operators() {
    assert_eq!(printed("print(1 == 1);"), vec!["true"]);
    assert_eq!(printed("print(1 != 1);"), vec!["false"]);
    assert_eq!(printed("print(\"a\" == \"a\");"), vec!["true"]);
    assert_eq!(printed("print(1 == \"1\");"), vec!["false"]);
    assert_eq!(printed("print(\"a\" != 1);"), vec!["true"]);
    assert_eq!(printed("print(1 + 1 == 2);"), vec!["true"]);
}

#[test]
fn function_values_display() {
    assert_eq!(printed("func add(a, b) { } print(add);"), vec!["<fn add>"]);
}

#[test]
fn closures_see_their_defining_scope() {
    assert_eq!(printed("let x = 1; func f() { print(x); } f();"), vec!["1"]);
    let src = "func outer(a) { func inner() { print(a); } inner(); } outer(5);";
    assert_eq!(printed(src), vec!["5"]);
    let src2 = "func f() { let y = 3; } f(); print(y);";
    let r = run(src2);
    assert!(matches!(r.result, Err(ProgramError::Runtime(RuntimeError::NameError(_)))));
}

#[test]
fn duplicate_parameters_take_the_later_argument() {
    assert_eq!(printed("func f(a, a) { print(a); } f(1, 2);"), vec!["2"]);
}

#[test]
fn calling_a_number_is_a_type_error() {
    assert!(matches!(runtime_error("let x = 1; x();"), RuntimeError::TypeError(TypeErrorKind::NotCallable)));
}

#[test]
fn runaway_recursion_is_a_stack_overflow() {
    assert!(matches!(runtime_error("func f() { f(); } f();"), RuntimeError::StackOverflow));
}

#[test]
fn parse_errors() {
    match run("print(1)").result {
        Err(ProgramError::Parse(e)) => {
            assert!(matches!(e.kind, ParseErrorKind::ExpectedToken(TokenType::Semicolon)));
            assert_eq!((e.line, e.column), (1, 9));
        },
        other => panic!("unexpected {:?}", other),
    }
    assert!(matches!(parse_error_kind("f(1,);"), ParseErrorKind::ExpectedExpression));
    assert!(matches!(parse_error_kind("func f(a,) { }"), ParseErrorKind::ExpectedParameterName));
    assert!(matches!(parse_error_kind("let = 3;"), ParseErrorKind::ExpectedVariableName));
    assert!(matches!(parse_error_kind("func (a) { }"), ParseErrorKind::ExpectedFunctionName));
    assert!(matches!(parse_error_kind("print 1;"), ParseErrorKind::ExpectedToken(TokenType::LParen)));
    assert!(matches!(parse_error_kind("func f() { print(1);"), ParseErrorKind::ExpectedToken(TokenType::RBrace)));
    assert!(matches!(parse_error_kind("let x 3;"), ParseErrorKind::ExpectedToken(TokenType::Equal)));
    assert!(matches!(parse_error_kind("x = 3;"), ParseErrorKind::ExpectedToken(TokenType::Semicolon)));
    assert!(matches!(parse_error_kind("(1 + 2;"), ParseErrorKind::ExpectedToken(TokenType::RParen)));
}

#[test]
fn parse_error_prints_nothing() {
    let r = run("print(1); print(2)");
    assert!(r.output.is_empty());
    assert!(matches!(r.result, Err(ProgramError::Parse(_))));
}

#[test]
fn lex_errors() {
    for (src, want) in [("1 @ 2;", "unexpected"), ("\"abc", "unterminated"), ("99999999999999999999;", "large")] {
        match run(src).result {
            Err(ProgramError::Lex(e)) => match (e.kind, want) {
                (LexErrorKind::UnexpectedCharacter(c), "unexpected") => assert_eq!(c, '@'),
                (LexErrorKind::UnterminatedString, "unterminated") => {},
                (LexErrorKind::NumberTooLarge, "large") => {},
                (k, w) => panic!("{:?} for {}", k, w),
            },
            other => panic!("unexpected {:?}", other),
        }
    }
}

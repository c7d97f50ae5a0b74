use nesia::lexer::types::Token as LexToken;
use nesia::lexer::Tokenizer as LexTokenizer;
use nesia::tokenizer::token_types::TokenType;
use nesia::tokenizer::Tokenizer;

fn kinds(src: &str) -> Vec<TokenType> {
    Tokenizer::new(src).tokenize().unwrap().into_iter().map(|t| t.token_type).collect()
}

#[test]
fn tokenizes_a_declaration() {
    assert_eq!(
        kinds("let x = 10;"),
        vec![
            TokenType::Let,
            TokenType::Identifier("x".to_string()),
            TokenType::Equal,
            TokenType::Number(10),
            TokenType::Semicolon,
            TokenType::EOF,
        ]
    );
}

#[test]
fn tokenizes_keywords_and_operators() {
    assert_eq!(
        kinds("func print class let == != <= >= < > ! { } ( ) , + - * /"),
        vec![
            TokenType::Function,
            TokenType::Print,
            TokenType::Class,
            TokenType::Let,
            TokenType::EqualEqual,
            TokenType::BangEqual,
            TokenType::LessEqual,
            TokenType::GreaterEqual,
            TokenType::Less,
            TokenType::Greater,
            TokenType::Bang,
            TokenType::LBrace,
            TokenType::RBrace,
            TokenType::LParen,
            TokenType::RParen,
            TokenType::Comma,
            TokenType::Plus,
            TokenType::Minus,
            TokenType::Star,
            TokenType::Slash,
            TokenType::EOF,
        ]
    );
}

#[test]
fn tokenizes_strings_and_names() {
    assert_eq!(
        kinds("\"hi there\" 'q' _a1 été functional"),
        vec![
            TokenType::StringLiteral("hi there".to_string()),
            TokenType::StringLiteral("q".to_string()),
            TokenType::Identifier("_a1".to_string()),
            TokenType::Identifier("été".to_string()),
            TokenType::Identifier("functional".to_string()),
            TokenType::EOF,
        ]
    );
}

#[test]
fn tracks_lines_and_columns() {
    let toks = Tokenizer::new("let a\n  = 5;").tokenize().unwrap();
    let pos: Vec<(usize, usize)> = toks.iter().map(|t| (t.line, t.column)).collect();
    assert_eq!(pos, vec![(1, 1), (1, 5), (2, 3), (2, 5), (2, 6), (2, 7)]);
}

#[test]
fn empty_source_is_only_end_of_input() {
    let toks = Tokenizer::new("").tokenize().unwrap();
    assert_eq!(toks.len(), 1);
    assert_eq!(toks[0].token_type, TokenType::EOF);
    assert_eq!((toks[0].line, toks[0].column), (1, 1));
}

#[test]
fn largest_number_literal() {
    assert_eq!(kinds("9223372036854775807"), vec![TokenType::Number(i64::MAX), TokenType::EOF]);
    assert!(Tokenizer::new("9223372036854775808").tokenize().is_err());
}

#[test]
fn simple_lexer_tokens() {
    let mut lx = LexTokenizer::new("func add(a, b) { a + b; } extern \"s t\" 42");
    let toks = lx.tokenize();
    let want = vec![
        LexToken::Func,
        LexToken::Ident("add".to_string()),
        LexToken::OpeningParenthesis,
        LexToken::Ident("a".to_string()),
        LexToken::Comma,
        LexToken::Ident("b".to_string()),
        LexToken::ClosingParenthesis,
        LexToken::OpeningBrace,
        LexToken::Ident("a".to_string()),
        LexToken::Operator("+".to_string()),
        LexToken::Ident("b".to_string()),
        LexToken::Delimiter,
        LexToken::ClosingBrace,
        LexToken::Extern,
        LexToken::Ident("s t".to_string()),
        LexToken::Number(42),
    ];
    assert_eq!(format!("{:?}", toks), format!("{:?}", want));
    assert!(lx.unhandled().is_empty());
}

#[test]
fn simple_lexer_sets_aside_unknown_characters() {
    let mut lx = LexTokenizer::new("a # b ?");
    let toks = lx.tokenize();
    assert_eq!(toks.len(), 2);
    assert_eq!(lx.unhandled(), &vec!['#', '?']);
}

#[test]
fn simple_lexer_unterminated_string_runs_to_end() {
    let mut lx = LexTokenizer::new("\"abc");
    let toks = lx.tokenize();
    assert_eq!(format!("{:?}", toks), format!("{:?}", vec![LexToken::Ident("abc".to_string())]));
}

#[test]
fn simple_lexer_sets_aside_an_overlong_number() {
    let mut lx = LexTokenizer::new("99999999999999999999 7");
    let toks = lx.tokenize();
    assert_eq!(format!("{:?}", toks), format!("{:?}", vec![LexToken::Number(7)]));
    assert_eq!(lx.unhandled(), &vec!['9']);
}

use crate::parser::parser_types::{SExpr, SStmt};
use crate::tokenizer::token_types::{Token, TokenType};
use vstd::prelude::*;

verus! {

/// What the parser expected where it stopped.
#[derive(Debug)]
pub enum ParseErrorKind {
    /// An expression was expected.
    ExpectedExpression,
    /// This token was expected.
    ExpectedToken(TokenType),
    ExpectedFunctionName,
    ExpectedParameterName,
    ExpectedVariableName,
}

/// A grammar violation, at the line and column of the token found there
/// (of the last token where the input ran out).
#[derive(Debug)]
pub struct ParseError {
    pub kind: ParseErrorKind,
    pub line: usize,
    pub column: usize,
}

/// A parsed expression and the position after it.
pub type PExpr = Result<(SExpr, int), ParseError>;

/// The kind of the token at `pos`; past the end, the input has ended.
pub open spec fn kind_at(toks: Seq<Token>, pos: int) -> TokenType {
    if 0 <= pos < toks.len() {
        toks[pos].token_type
    } else {
        TokenType::EOF
    }
}

/// An error of kind `kind` at the token at `pos`, or at the last token past
/// the end.
pub open spec fn error_at(toks: Seq<Token>, pos: int, kind: ParseErrorKind) -> ParseError {
    let t = if 0 <= pos < toks.len() {
        toks[pos]
    } else {
        toks.last()
    };
    ParseError { kind, line: t.line, column: t.column }
}

/// `next` is past `pos` and within the input.
pub open spec fn advances(toks: Seq<Token>, pos: int, next: int) -> bool {
    pos < next <= toks.len()
}

/// The position after token `k` at `pos`, or the error naming `k`.
pub open spec fn expect_at(toks: Seq<Token>, pos: int, k: TokenType) -> Result<int, ParseError> {
    if kind_at(toks, pos) == k {
        Ok(pos + 1)
    } else {
        Err(error_at(toks, pos, ParseErrorKind::ExpectedToken(k)))
    }
}

/// The binary operators of each precedence level: 3 is equality, 2 is
/// addition and subtraction, 1 is multiplication and division.
pub open spec fn level_op(level: nat, k: TokenType) -> bool {
    if level == 3 {
        k is EqualEqual || k is BangEqual
    } else if level == 2 {
        k is Plus || k is Minus
    } else if level == 1 {
        k is Star || k is Slash
    } else {
        false
    }
}

/// `expression := equality`
pub open spec fn p_expression(toks: Seq<Token>, pos: int) -> PExpr
    decreases toks.len() - pos, 10int,
{
    p_level(toks, pos, 3)
}

/// `level := lower (op lower)*`, left-associative, where `lower` is the
/// next level down, and `unary` below level 1.
pub open spec fn p_level(toks: Seq<Token>, pos: int, level: nat) -> PExpr
    decreases toks.len() - pos, level + 2,
{
    if level == 0 || level > 3 {
        p_unary(toks, pos)
    } else {
        match p_level(toks, pos, (level - 1) as nat) {
            Err(e) => Err(e),
            Ok((left, n1)) => if advances(toks, pos, n1) {
                p_level_rest(toks, left, n1, level)
            } else {
                Ok((left, n1))
            },
        }
    }
}

/// The `(op lower)*` part of a level, with `left` parsed so far.
pub open spec fn p_level_rest(toks: Seq<Token>, left: SExpr, pos: int, level: nat) -> PExpr
    decreases toks.len() - pos, 0int,
{
    let k = kind_at(toks, pos);
    if 1 <= level <= 3 && level_op(level, k) {
        match p_level(toks, pos + 1, (level - 1) as nat) {
            Err(e) => Err(e),
            Ok((right, n2)) => {
                let e = SExpr::Binary(Box::new(left), k, Box::new(right));
                if advances(toks, pos, n2) {
                    p_level_rest(toks, e, n2, level)
                } else {
                    Ok((e, n2))
                }
            },
        }
    } else {
        Ok((left, pos))
    }
}

/// `unary := '-' unary | primary`; `-x` stands for `0 - x`.
pub open spec fn p_unary(toks: Seq<Token>, pos: int) -> PExpr
    decreases toks.len() - pos, 1int,
{
    if kind_at(toks, pos) is Minus {
        match p_unary(toks, pos + 1) {
            Err(e) => Err(e),
            Ok((right, n1)) => Ok(
                (SExpr::Binary(Box::new(SExpr::Number(0)), TokenType::Minus, Box::new(right)), n1),
            ),
        }
    } else {
        p_primary(toks, pos)
    }
}

/// `primary := NUMBER | STRING | IDENT ('(' arguments? ')')? | '(' expression ')'`
pub open spec fn p_primary(toks: Seq<Token>, pos: int) -> PExpr
    decreases toks.len() - pos, 0int,
{
    match kind_at(toks, pos) {
        TokenType::Number(n) => Ok((SExpr::Number(n), pos + 1)),
        TokenType::StringLiteral(s) => Ok((SExpr::StringLiteral(s@), pos + 1)),
        TokenType::Identifier(name) => if kind_at(toks, pos + 1) is LParen {
            let callee = SExpr::Identifier(name@);
            if kind_at(toks, pos + 2) is RParen {
                Ok((SExpr::Call(Box::new(callee), Seq::empty()), pos + 3))
            } else {
                match p_arguments(toks, pos + 2, Seq::empty()) {
                    Err(e) => Err(e),
                    Ok((args, n1)) => Ok((SExpr::Call(Box::new(callee), args), n1)),
                }
            }
        } else {
            Ok((SExpr::Identifier(name@), pos + 1))
        },
        TokenType::LParen => match p_expression(toks, pos + 1) {
            Err(e) => Err(e),
            Ok((e, n1)) => match expect_at(toks, n1, TokenType::RParen) {
                Err(x) => Err(x),
                Ok(n2) => Ok((e, n2)),
            },
        },
        _ => Err(error_at(toks, pos, ParseErrorKind::ExpectedExpression)),
    }
}

/// `arguments := expression (',' expression)* ')'`, after the arguments
/// `acc` already parsed.
pub open spec fn p_arguments(toks: Seq<Token>, pos: int, acc: Seq<SExpr>) -> Result<(Seq<SExpr>, int), ParseError>
    decreases toks.len() - pos, 11int,
{
    match p_expression(toks, pos) {
        Err(e) => Err(e),
        Ok((e, n1)) => if kind_at(toks, n1) is Comma {
            if advances(toks, pos, n1 + 1) {
                p_arguments(toks, n1 + 1, acc.push(e))
            } else {
                Ok((acc.push(e), n1 + 1))
            }
        } else {
            match expect_at(toks, n1, TokenType::RParen) {
                Err(x) => Err(x),
                Ok(n2) => Ok((acc.push(e), n2)),
            }
        },
    }
}

/// A parsed statement and the position after it.
pub type PStmt = Result<(SStmt, int), ParseError>;

/// `statement := functionDecl | variableDecl | printStmt | exprStmt`
pub open spec fn p_statement(toks: Seq<Token>, pos: int) -> PStmt
    decreases toks.len() - pos, 0int,
{
    match kind_at(toks, pos) {
        TokenType::Function => p_function(toks, pos + 1),
        TokenType::Let => p_var_decl(toks, pos + 1),
        TokenType::Print => p_print(toks, pos + 1),
        _ => match p_expression(toks, pos) {
            Err(e) => Err(e),
            Ok((e, n1)) => match expect_at(toks, n1, TokenType::Semicolon) {
                Err(x) => Err(x),
                Ok(n2) => Ok((SStmt::ExprStmt(e), n2)),
            },
        },
    }
}

/// `variableDecl := 'let' IDENT '=' expression ';'`, after `let`.
pub open spec fn p_var_decl(toks: Seq<Token>, pos: int) -> PStmt {
    match kind_at(toks, pos) {
        TokenType::Identifier(name) => match expect_at(toks, pos + 1, TokenType::Equal) {
            Err(x) => Err(x),
            Ok(n1) => match p_expression(toks, n1) {
                Err(e) => Err(e),
                Ok((e, n2)) => match expect_at(toks, n2, TokenType::Semicolon) {
                    Err(x) => Err(x),
                    Ok(n3) => Ok((SStmt::VarDecl(name@, e), n3)),
                },
            },
        },
        _ => Err(error_at(toks, pos, ParseErrorKind::ExpectedVariableName)),
    }
}

/// `printStmt := 'print' '(' expression ')' ';'`, after `print`.
pub open spec fn p_print(toks: Seq<Token>, pos: int) -> PStmt {
    match expect_at(toks, pos, TokenType::LParen) {
        Err(x) => Err(x),
        Ok(n1) => match p_expression(toks, n1) {
            Err(e) => Err(e),
            Ok((e, n2)) => match expect_at(toks, n2, TokenType::RParen) {
                Err(x) => Err(x),
                Ok(n3) => match expect_at(toks, n3, TokenType::Semicolon) {
                    Err(x) => Err(x),
                    Ok(n4) => Ok((SStmt::PrintStmt(e), n4)),
                },
            },
        },
    }
}

/// `IDENT (',' IDENT)* ')'`: the parameter names after those in `acc`, and
/// the position after the `)`.
pub open spec fn p_params(toks: Seq<Token>, pos: int, acc: Seq<Seq<char>>) -> Result<(Seq<Seq<char>>, int), ParseError>
    decreases toks.len() - pos,
{
    match kind_at(toks, pos) {
        TokenType::Identifier(name) => if kind_at(toks, pos + 1) is Comma {
            p_params(toks, pos + 2, acc.push(name@))
        } else {
            match expect_at(toks, pos + 1, TokenType::RParen) {
                Err(x) => Err(x),
                Ok(n1) => Ok((acc.push(name@), n1)),
            }
        },
        _ => Err(error_at(toks, pos, ParseErrorKind::ExpectedParameterName)),
    }
}

/// `functionDecl := 'func' IDENT '(' parameters? ')' '{' statement* '}'`,
/// after `func`.
pub open spec fn p_function(toks: Seq<Token>, pos: int) -> PStmt
    decreases toks.len() - pos, 2int,
{
    match kind_at(toks, pos) {
        TokenType::Identifier(name) => match expect_at(toks, pos + 1, TokenType::LParen) {
            Err(x) => Err(x),
            Ok(n1) => {
                let params = if kind_at(toks, n1) is RParen {
                    Ok((Seq::<Seq<char>>::empty(), n1 + 1))
                } else {
                    p_params(toks, n1, Seq::empty())
                };
                match params {
                    Err(x) => Err(x),
                    Ok((ps, n2)) => match expect_at(toks, n2, TokenType::LBrace) {
                        Err(x) => Err(x),
                        Ok(n3) => if advances(toks, pos, n3) {
                            match p_block(toks, n3, Seq::empty()) {
                                Err(x) => Err(x),
                                Ok((body, n4)) => Ok((SStmt::FunctionStmt(name@, ps, body), n4)),
                            }
                        } else {
                            Err(error_at(toks, n3, ParseErrorKind::ExpectedToken(TokenType::RBrace)))
                        },
                    },
                }
            },
        },
        _ => Err(error_at(toks, pos, ParseErrorKind::ExpectedFunctionName)),
    }
}

/// `statement* '}'`: the statements of a body after those in `acc`, and the
/// position after the `}`.
pub open spec fn p_block(toks: Seq<Token>, pos: int, acc: Seq<SStmt>) -> Result<(Seq<SStmt>, int), ParseError>
    decreases toks.len() - pos, 1int,
{
    let k = kind_at(toks, pos);
    if k is RBrace || k is EOF {
        match expect_at(toks, pos, TokenType::RBrace) {
            Err(x) => Err(x),
            Ok(n1) => Ok((acc, n1)),
        }
    } else {
        match p_statement(toks, pos) {
            Err(e) => Err(e),
            Ok((s, n1)) => if advances(toks, pos, n1) {
                p_block(toks, n1, acc.push(s))
            } else {
                Ok((acc.push(s), n1))
            },
        }
    }
}

/// `program := statement* end-of-input`: the statements after those in
/// `acc`.
pub open spec fn p_program(toks: Seq<Token>, pos: int, acc: Seq<SStmt>) -> Result<Seq<SStmt>, ParseError>
    decreases toks.len() - pos,
{
    if kind_at(toks, pos) is EOF {
        Ok(acc)
    } else {
        match p_statement(toks, pos) {
            Err(e) => Err(e),
            Ok((s, n1)) => if advances(toks, pos, n1) {
                p_program(toks, n1, acc.push(s))
            } else {
                Ok(acc.push(s))
            },
        }
    }
}

/// What parsing a whole token sequence gives.
pub open spec fn parse_tokens(toks: Seq<Token>) -> Result<Seq<SStmt>, ParseError> {
    p_program(toks, 0, Seq::empty())
}

} // verus!

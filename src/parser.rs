pub mod grammar;
pub mod parser_types;
pub mod precedence;

use crate::tokenizer::token_types::{Token, TokenType};
use grammar::{
    advances, error_at, expect_at, kind_at, level_op, p_arguments, p_block, p_expression,
    p_function, p_level, p_level_rest, p_params, p_primary, p_print, p_program, p_statement,
    p_unary, p_var_decl, ParseError, ParseErrorKind,
};
use parser_types::{
    exprs_view, lemma_exprs_view_push, lemma_stmts_view_push, stmts_view, strings_view, Expr,
    SExpr, SStmt, Stmt,
};
use vstd::prelude::*;

verus! {

/// A token sequence as the parser takes it: not empty, and ending with the
/// end-of-input token.
pub open spec fn is_token_stream(toks: Seq<Token>) -> bool {
    toks.len() > 0 && toks.last().token_type is EOF
}

pub open spec fn expr_result(r: Result<(Expr, usize), ParseError>) -> Result<(SExpr, int), ParseError> {
    match r {
        Ok((e, p)) => Ok((e@, p as int)),
        Err(x) => Err(x),
    }
}

pub open spec fn stmt_result(r: Result<(Stmt, usize), ParseError>) -> Result<(SStmt, int), ParseError> {
    match r {
        Ok((s, p)) => Ok((s@, p as int)),
        Err(x) => Err(x),
    }
}

/// A recursive-descent parser over a token sequence.
pub struct Parser {
    tokens: Vec<Token>,
    current: usize,
}

impl Parser {
    /// The tokens being parsed.
    pub closed spec fn token_seq(&self) -> Seq<Token> {
        self.tokens@
    }

    /// The position of the next token to parse.
    pub closed spec fn position(&self) -> nat {
        self.current as nat
    }

    pub closed spec fn wf(&self) -> bool {
        is_token_stream(self.tokens@) && self.current <= self.tokens@.len()
    }

    /// A parser at the start of `tokens`.
    pub fn new(tokens: Vec<Token>) -> (r: Parser)
        requires
            is_token_stream(tokens@),
        ensures
            r.wf(),
            r.token_seq() == tokens@,
            r.position() == 0,
    {
        Parser { tokens, current: 0 }
    }

    /// The kind of the token at `pos`; the end-of-input past the end.
    fn kind(&self, pos: usize) -> (r: &TokenType)
        requires
            is_token_stream(self.tokens@),
        ensures
            *r == kind_at(self.tokens@, pos as int),
            self.tokens@.len() <= usize::MAX,
    {
        let n = self.tokens.len();
        if pos < self.tokens.len() {
            &self.tokens[pos].token_type
        } else {
            &self.tokens[self.tokens.len() - 1].token_type
        }
    }

    fn error(&self, pos: usize, kind: ParseErrorKind) -> (r: ParseError)
        requires
            is_token_stream(self.tokens@),
        ensures
            r == error_at(self.tokens@, pos as int, kind),
    {
        let t = if pos < self.tokens.len() {
            &self.tokens[pos]
        } else {
            &self.tokens[self.tokens.len() - 1]
        };
        ParseError { kind, line: t.line, column: t.column }
    }

    /// Whether the token at `pos` is of kind `k`, which has no payload.
    fn check(&self, pos: usize, k: &TokenType) -> (r: bool)
        requires
            is_token_stream(self.tokens@),
            k.is_unit(),
        ensures
            r == (kind_at(self.tokens@, pos as int) == *k),
            self.tokens@.len() <= usize::MAX,
    {
        k.same_kind(self.kind(pos))
    }

    /// The position after token `k` at `pos`, or the error naming `k`.
    fn expect(&self, pos: usize, k: TokenType) -> (r: Result<usize, ParseError>)
        requires
            is_token_stream(self.tokens@),
            pos <= self.tokens@.len(),
            k.is_unit(),
            !(k is EOF),
        ensures
            match r {
                Ok(p) => expect_at(self.tokens@, pos as int, k) == Ok::<int, ParseError>(p as int),
                Err(x) => expect_at(self.tokens@, pos as int, k) == Err::<int, ParseError>(x),
            },
            r is Ok ==> advances(self.tokens@, pos as int, r->Ok_0 as int),
    {
        if self.check(pos, &k) {
            Ok(pos + 1)
        } else {
            Err(self.error(pos, ParseErrorKind::ExpectedToken(k)))
        }
    }

    /// Parses an expression at `pos`.
    fn expression(&self, pos: usize) -> (r: Result<(Expr, usize), ParseError>)
        requires
            is_token_stream(self.tokens@),
            pos <= self.tokens@.len(),
        ensures
            expr_result(r) == p_expression(self.tokens@, pos as int),
            r is Ok ==> advances(self.tokens@, pos as int, r->Ok_0.1 as int),
        decreases self.tokens@.len() - pos, 10int,
    {
        self.level(pos, 3)
    }

    fn is_level_op(level: u32, k: &TokenType) -> (r: bool)
        ensures
            r == level_op(level as nat, *k),
    {
        if level == 3 {
            matches!(k, TokenType::EqualEqual) || matches!(k, TokenType::BangEqual)
        } else if level == 2 {
            matches!(k, TokenType::Plus) || matches!(k, TokenType::Minus)
        } else if level == 1 {
            matches!(k, TokenType::Star) || matches!(k, TokenType::Slash)
        } else {
            false
        }
    }

    /// Parses one precedence level (3: equality, 2: terms, 1: factors, 0:
    /// unary) at `pos`; binary operators associate to the left.
    fn level(&self, pos: usize, level: u32) -> (r: Result<(Expr, usize), ParseError>)
        requires
            is_token_stream(self.tokens@),
            pos <= self.tokens@.len(),
            level <= 3,
        ensures
            expr_result(r) == p_level(self.tokens@, pos as int, level as nat),
            r is Ok ==> advances(self.tokens@, pos as int, r->Ok_0.1 as int),
        decreases self.tokens@.len() - pos, level + 2,
    {
        if level == 0 {
            return self.unary(pos);
        }
        let (mut expr, mut p) = match self.level(pos, level - 1) {
            Ok(v) => v,
            Err(x) => {
                return Err(x);
            },
        };
        let ghost total = p_level(self.tokens@, pos as int, level as nat);
        loop
            invariant
                is_token_stream(self.tokens@),
                1 <= level <= 3,
                pos < p <= self.tokens@.len(),
                total == p_level(self.tokens@, pos as int, level as nat),
                total == p_level_rest(self.tokens@, expr@, p as int, level as nat),
            decreases self.tokens@.len() - p,
        {
            let k = self.kind(p);
            if !Self::is_level_op(level, k) {
                return Ok((expr, p));
            }
            let op = k.duplicate();
            let (right, n2) = match self.level(p + 1, level - 1) {
                Ok(v) => v,
                Err(x) => {
                    return Err(x);
                },
            };
            expr = Expr::Binary { left: Box::new(expr), op, right: Box::new(right) };
            p = n2;
        }
    }

    /// `unary := '-' unary | primary`
    fn unary(&self, pos: usize) -> (r: Result<(Expr, usize), ParseError>)
        requires
            is_token_stream(self.tokens@),
            pos <= self.tokens@.len(),
        ensures
            expr_result(r) == p_unary(self.tokens@, pos as int),
            r is Ok ==> advances(self.tokens@, pos as int, r->Ok_0.1 as int),
        decreases self.tokens@.len() - pos, 1int,
    {
        if self.check(pos, &TokenType::Minus) {
            assert(Expr::Number(0)@ == SExpr::Number(0));
            match self.unary(pos + 1) {
                Ok((right, n1)) => Ok(
                    (
                        Expr::Binary {
                            left: Box::new(Expr::Number(0)),
                            op: TokenType::Minus,
                            right: Box::new(right),
                        },
                        n1,
                    ),
                ),
                Err(x) => Err(x),
            }
        } else {
            self.primary(pos)
        }
    }

    /// `primary := NUMBER | STRING | IDENT ('(' arguments? ')')? | '(' expression ')'`
    fn primary(&self, pos: usize) -> (r: Result<(Expr, usize), ParseError>)
        requires
            is_token_stream(self.tokens@),
            pos <= self.tokens@.len(),
        ensures
            expr_result(r) == p_primary(self.tokens@, pos as int),
            r is Ok ==> advances(self.tokens@, pos as int, r->Ok_0.1 as int),
        decreases self.tokens@.len() - pos, 0int,
    {
        match self.kind(pos) {
            TokenType::Number(n) => Ok((Expr::Number(*n), pos + 1)),
            TokenType::StringLiteral(s) => Ok((Expr::StringLiteral(s.clone()), pos + 1)),
            TokenType::Identifier(name) => {
                if self.check(pos + 1, &TokenType::LParen) {
                    let callee = Box::new(Expr::Identifier(name.clone()));
                    assert(callee@ == SExpr::Identifier(name@));
                    if self.check(pos + 2, &TokenType::RParen) {
                        let arguments: Vec<Expr> = Vec::new();
                        assert(exprs_view(arguments@) =~= Seq::<SExpr>::empty());
                        Ok((Expr::Call { callee, arguments }, pos + 3))
                    } else {
                        match self.arguments(pos + 2) {
                            Ok((arguments, n1)) => Ok((Expr::Call { callee, arguments }, n1)),
                            Err(x) => Err(x),
                        }
                    }
                } else {
                    Ok((Expr::Identifier(name.clone()), pos + 1))
                }
            },
            TokenType::LParen => {
                match self.expression(pos + 1) {
                    Ok((e, n1)) => match self.expect(n1, TokenType::RParen) {
                        Ok(n2) => Ok((e, n2)),
                        Err(x) => Err(x),
                    },
                    Err(x) => Err(x),
                }
            },
            _ => Err(self.error(pos, ParseErrorKind::ExpectedExpression)),
        }
    }

    /// `arguments := expression (',' expression)* ')'`
    fn arguments(&self, pos: usize) -> (r: Result<(Vec<Expr>, usize), ParseError>)
        requires
            is_token_stream(self.tokens@),
            pos <= self.tokens@.len(),
        ensures
            match r {
                Ok((args, p)) => p_arguments(self.tokens@, pos as int, Seq::empty()) == Ok::<(Seq<SExpr>, int), ParseError>((exprs_view(args@), p as int)),
                Err(x) => p_arguments(self.tokens@, pos as int, Seq::empty()) == Err::<(Seq<SExpr>, int), ParseError>(x),
            },
            r is Ok ==> advances(self.tokens@, pos as int, r->Ok_0.1 as int),
        decreases self.tokens@.len() - pos, 11int,
    {
        let mut args: Vec<Expr> = Vec::new();
        let mut p = pos;
        let ghost total = p_arguments(self.tokens@, pos as int, Seq::empty());
        assert(exprs_view(args@) =~= Seq::<SExpr>::empty());
        loop
            invariant
                is_token_stream(self.tokens@),
                pos <= p <= self.tokens@.len(),
                total == p_arguments(self.tokens@, pos as int, Seq::empty()),
                total == p_arguments(self.tokens@, p as int, exprs_view(args@)),
            decreases self.tokens@.len() - p,
        {
            let (e, n1) = match self.expression(p) {
                Ok(v) => v,
                Err(x) => {
                    return Err(x);
                },
            };
            proof {
                lemma_exprs_view_push(args@, e);
            }
            args.push(e);
            if self.check(n1, &TokenType::Comma) {
                p = n1 + 1;
            } else {
                match self.expect(n1, TokenType::RParen) {
                    Ok(n2) => {
                        return Ok((args, n2));
                    },
                    Err(x) => {
                        return Err(x);
                    },
                }
            }
        }
    }

    /// `statement := functionDecl | variableDecl | printStmt | exprStmt`
    fn statement(&self, pos: usize) -> (r: Result<(Stmt, usize), ParseError>)
        requires
            is_token_stream(self.tokens@),
            pos <= self.tokens@.len(),
        ensures
            stmt_result(r) == p_statement(self.tokens@, pos as int),
            r is Ok ==> advances(self.tokens@, pos as int, r->Ok_0.1 as int),
        decreases self.tokens@.len() - pos, 0int,
    {
        if self.check(pos, &TokenType::Function) {
            self.function_decl(pos + 1)
        } else if self.check(pos, &TokenType::Let) {
            self.var_decl(pos + 1)
        } else if self.check(pos, &TokenType::Print) {
            self.print_stmt(pos + 1)
        } else {
            self.expr_stmt(pos)
        }
    }

    /// `exprStmt := expression ';'`
    fn expr_stmt(&self, pos: usize) -> (r: Result<(Stmt, usize), ParseError>)
        requires
            is_token_stream(self.tokens@),
            pos <= self.tokens@.len(),
            !(kind_at(self.tokens@, pos as int) is Function),
            !(kind_at(self.tokens@, pos as int) is Let),
            !(kind_at(self.tokens@, pos as int) is Print),
        ensures
            stmt_result(r) == p_statement(self.tokens@, pos as int),
            r is Ok ==> advances(self.tokens@, pos as int, r->Ok_0.1 as int),
    {
        match self.expression(pos) {
            Ok((e, n1)) => match self.expect(n1, TokenType::Semicolon) {
                Ok(n2) => Ok((Stmt::ExprStmt(e), n2)),
                Err(x) => Err(x),
            },
            Err(x) => Err(x),
        }
    }

    /// `variableDecl := 'let' IDENT '=' expression ';'`, after `let`.
    fn var_decl(&self, pos: usize) -> (r: Result<(Stmt, usize), ParseError>)
        requires
            is_token_stream(self.tokens@),
            pos <= self.tokens@.len(),
        ensures
            stmt_result(r) == p_var_decl(self.tokens@, pos as int),
            r is Ok ==> advances(self.tokens@, pos as int, r->Ok_0.1 as int),
    {
        let name = match self.kind(pos) {
            TokenType::Identifier(name) => name.clone(),
            _ => {
                return Err(self.error(pos, ParseErrorKind::ExpectedVariableName));
            },
        };
        let n1 = match self.expect(pos + 1, TokenType::Equal) {
            Ok(p) => p,
            Err(x) => {
                return Err(x);
            },
        };
        let (value, n2) = match self.expression(n1) {
            Ok(v) => v,
            Err(x) => {
                return Err(x);
            },
        };
        match self.expect(n2, TokenType::Semicolon) {
            Ok(n3) => Ok((Stmt::VarDecl { name, value }, n3)),
            Err(x) => Err(x),
        }
    }

    /// `printStmt := 'print' '(' expression ')' ';'`, after `print`.
    fn print_stmt(&self, pos: usize) -> (r: Result<(Stmt, usize), ParseError>)
        requires
            is_token_stream(self.tokens@),
            pos <= self.tokens@.len(),
        ensures
            stmt_result(r) == p_print(self.tokens@, pos as int),
            r is Ok ==> advances(self.tokens@, pos as int, r->Ok_0.1 as int),
    {
        let n1 = match self.expect(pos, TokenType::LParen) {
            Ok(p) => p,
            Err(x) => {
                return Err(x);
            },
        };
        let (value, n2) = match self.expression(n1) {
            Ok(v) => v,
            Err(x) => {
                return Err(x);
            },
        };
        let n3 = match self.expect(n2, TokenType::RParen) {
            Ok(p) => p,
            Err(x) => {
                return Err(x);
            },
        };
        match self.expect(n3, TokenType::Semicolon) {
            Ok(n4) => Ok((Stmt::PrintStmt(value), n4)),
            Err(x) => Err(x),
        }
    }

    /// `IDENT (',' IDENT)* ')'`: parameter names and the position after `)`.
    fn params(&self, pos: usize) -> (r: Result<(Vec<String>, usize), ParseError>)
        requires
            is_token_stream(self.tokens@),
            pos <= self.tokens@.len(),
        ensures
            match r {
                Ok((ps, p)) => p_params(self.tokens@, pos as int, Seq::empty()) == Ok::<(Seq<Seq<char>>, int), ParseError>((strings_view(ps@), p as int)),
                Err(x) => p_params(self.tokens@, pos as int, Seq::empty()) == Err::<(Seq<Seq<char>>, int), ParseError>(x),
            },
            r is Ok ==> advances(self.tokens@, pos as int, r->Ok_0.1 as int),
    {
        let mut ps: Vec<String> = Vec::new();
        let mut p = pos;
        let ghost total = p_params(self.tokens@, pos as int, Seq::empty());
        assert(strings_view(ps@) =~= Seq::<Seq<char>>::empty());
        loop
            invariant
                is_token_stream(self.tokens@),
                pos <= p <= self.tokens@.len(),
                total == p_params(self.tokens@, pos as int, Seq::empty()),
                total == p_params(self.tokens@, p as int, strings_view(ps@)),
            decreases self.tokens@.len() - p,
        {
            let name = match self.kind(p) {
                TokenType::Identifier(name) => name.clone(),
                _ => {
                    return Err(self.error(p, ParseErrorKind::ExpectedParameterName));
                },
            };
            let ghost prev = ps@;
            ps.push(name);
            assert(strings_view(ps@) =~= strings_view(prev).push(name@));
            if self.check(p + 1, &TokenType::Comma) {
                p = p + 2;
            } else {
                match self.expect(p + 1, TokenType::RParen) {
                    Ok(n1) => {
                        return Ok((ps, n1));
                    },
                    Err(x) => {
                        return Err(x);
                    },
                }
            }
        }
    }

    /// `functionDecl := 'func' IDENT '(' parameters? ')' '{' statement* '}'`,
    /// after `func`.
    fn function_decl(&self, pos: usize) -> (r: Result<(Stmt, usize), ParseError>)
        requires
            is_token_stream(self.tokens@),
            pos <= self.tokens@.len(),
        ensures
            stmt_result(r) == p_function(self.tokens@, pos as int),
            r is Ok ==> advances(self.tokens@, pos as int, r->Ok_0.1 as int),
        decreases self.tokens@.len() - pos, 2int,
    {
        let name = match self.kind(pos) {
            TokenType::Identifier(name) => name.clone(),
            _ => {
                return Err(self.error(pos, ParseErrorKind::ExpectedFunctionName));
            },
        };
        let n1 = match self.expect(pos + 1, TokenType::LParen) {
            Ok(p) => p,
            Err(x) => {
                return Err(x);
            },
        };
        let (params, n2) = if self.check(n1, &TokenType::RParen) {
            let params: Vec<String> = Vec::new();
            assert(strings_view(params@) =~= Seq::<Seq<char>>::empty());
            (params, n1 + 1)
        } else {
            match self.params(n1) {
                Ok(v) => v,
                Err(x) => {
                    return Err(x);
                },
            }
        };
        let n3 = match self.expect(n2, TokenType::LBrace) {
            Ok(p) => p,
            Err(x) => {
                return Err(x);
            },
        };
        match self.block(n3) {
            Ok((body, n4)) => Ok((Stmt::FunctionStmt { name, params, body }, n4)),
            Err(x) => Err(x),
        }
    }

    /// `statement* '}'`: the statements of a body and the position after `}`.
    fn block(&self, pos: usize) -> (r: Result<(Vec<Stmt>, usize), ParseError>)
        requires
            is_token_stream(self.tokens@),
            pos <= self.tokens@.len(),
        ensures
            match r {
                Ok((body, p)) => p_block(self.tokens@, pos as int, Seq::empty()) == Ok::<(Seq<SStmt>, int), ParseError>((stmts_view(body@), p as int)),
                Err(x) => p_block(self.tokens@, pos as int, Seq::empty()) == Err::<(Seq<SStmt>, int), ParseError>(x),
            },
            r is Ok ==> advances(self.tokens@, pos as int, r->Ok_0.1 as int),
        decreases self.tokens@.len() - pos, 1int,
    {
        let mut body: Vec<Stmt> = Vec::new();
        let mut p = pos;
        let ghost total = p_block(self.tokens@, pos as int, Seq::empty());
        assert(stmts_view(body@) =~= Seq::<SStmt>::empty());
        loop
            invariant
                is_token_stream(self.tokens@),
                pos <= p <= self.tokens@.len(),
                total == p_block(self.tokens@, pos as int, Seq::empty()),
                total == p_block(self.tokens@, p as int, stmts_view(body@)),
            decreases self.tokens@.len() - p,
        {
            if self.check(p, &TokenType::RBrace) || self.check(p, &TokenType::EOF) {
                return match self.expect(p, TokenType::RBrace) {
                    Ok(n1) => Ok((body, n1)),
                    Err(x) => Err(x),
                };
            }
            let (st, n1) = match self.statement(p) {
                Ok(v) => v,
                Err(x) => {
                    return Err(x);
                },
            };
            proof {
                lemma_stmts_view_push(body@, st);
            }
            body.push(st);
            p = n1;
        }
    }

    /// Parses the program from the current position to the end of input.
    /// The first grammar violation ends the parse, and no statements are
    /// returned then.
    pub fn parse(&mut self) -> (r: Result<Vec<Stmt>, ParseError>)
        requires
            old(self).wf(),
        ensures
            final(self).wf(),
            final(self).token_seq() == old(self).token_seq(),
            match r {
                Ok(v) => p_program(old(self).token_seq(), old(self).position() as int, Seq::empty()) == Ok::<Seq<SStmt>, ParseError>(stmts_view(v@)),
                Err(x) => p_program(old(self).token_seq(), old(self).position() as int, Seq::empty()) == Err::<Seq<SStmt>, ParseError>(x),
            },
    {
        let mut statements: Vec<Stmt> = Vec::new();
        let mut p = self.current;
        let ghost total = p_program(self.tokens@, p as int, Seq::empty());
        assert(stmts_view(statements@) =~= Seq::<SStmt>::empty());
        loop
            invariant
                self == old(self),
                self.wf(),
                self.current <= p <= self.tokens@.len(),
                total == p_program(self.tokens@, self.current as int, Seq::empty()),
                total == p_program(self.tokens@, p as int, stmts_view(statements@)),
            decreases self.tokens@.len() - p,
        {
            if self.check(p, &TokenType::EOF) {
                self.current = p;
                return Ok(statements);
            }
            let (st, n1) = match self.statement(p) {
                Ok(v) => v,
                Err(x) => {
                    return Err(x);
                },
            };
            proof {
                lemma_stmts_view_push(statements@, st);
            }
            statements.push(st);
            p = n1;
        }
    }
}

} // verus!

use crate::parser::grammar::{
    kind_at, p_arguments, p_expression, p_level, p_level_rest, p_primary, p_program, p_statement,
    p_unary, parse_tokens,
};
use crate::parser::parser_types::{SExpr, SStmt};
use crate::tokenizer::token_types::{Token, TokenType};
use vstd::prelude::*;

verus! {

/// A token as an expression is written: its kind, with payloads as sequences.
pub enum PTok {
    Num(i64),
    Name(Seq<char>),
    Str(Seq<char>),
    Op(TokenType),
    LParen,
    RParen,
    Comma,
}

/// Token kind `t` is the written token `p`.
pub open spec fn tok_matches(t: TokenType, p: PTok) -> bool {
    match p {
        PTok::Num(n) => t == TokenType::Number(n),
        PTok::Name(s) => t is Identifier && t->Identifier_0@ == s,
        PTok::Str(s) => t is StringLiteral && t->StringLiteral_0@ == s,
        PTok::Op(k) => t == k,
        PTok::LParen => t is LParen,
        PTok::RParen => t is RParen,
        PTok::Comma => t is Comma,
    }
}

/// The tokens of `toks` from `pos` on are written `ps`.
pub open spec fn matches_at(toks: Seq<Token>, pos: int, ps: Seq<PTok>) -> bool {
    &&& 0 <= pos
    &&& pos + ps.len() <= toks.len()
    &&& forall|i: int| 0 <= i < ps.len() ==> tok_matches(#[trigger] toks[pos + i].token_type, ps[i])
}

/// The precedence level of a binary operator: 1 binds tightest (`*`, `/`),
/// then 2 (`+`, `-`), then 3 (`==`, `!=`); 0 for anything else.
pub open spec fn op_level(k: TokenType) -> nat {
    match k {
        TokenType::EqualEqual | TokenType::BangEqual => 3,
        TokenType::Plus | TokenType::Minus => 2,
        TokenType::Star | TokenType::Slash => 1,
        _ => 0,
    }
}

/// The level of an expression's outermost operator; 0 for the others.
pub open spec fn expr_level(e: SExpr) -> nat {
    match e {
        SExpr::Binary(_, op, _) => op_level(op),
        _ => 0,
    }
}

/// An expression that the grammar can express: binary operators of the
/// grammar, and calls of a name.
pub open spec fn legal(e: SExpr) -> bool
    decreases e,
{
    match e {
        SExpr::Binary(l, op, r) => op_level(op) > 0 && legal(*l) && legal(*r),
        SExpr::Call(c, args) => (*c is Identifier) && legal_all(args),
        _ => true,
    }
}

pub open spec fn legal_all(s: Seq<SExpr>) -> bool
    decreases s,
{
    if s.len() == 0 {
        true
    } else {
        legal(s[0]) && legal_all(s.subrange(1, s.len() as int))
    }
}

/// `e` written in parentheses or not.
pub open spec fn shown(e: SExpr, paren: bool) -> Seq<PTok>
    decreases e, 1int,
{
    if paren {
        seq![PTok::LParen] + print(e) + seq![PTok::RParen]
    } else {
        print(e)
    }
}

/// `e` written with the fewest parentheses under the usual precedence and
/// left associativity: an operand is parenthesized when its operator binds
/// more loosely than the one above it, or, on the right, equally loosely.
pub open spec fn print(e: SExpr) -> Seq<PTok>
    decreases e, 0int,
{
    match e {
        SExpr::Number(n) => seq![PTok::Num(n)],
        SExpr::Identifier(s) => seq![PTok::Name(s)],
        SExpr::StringLiteral(s) => seq![PTok::Str(s)],
        SExpr::Binary(l, op, r) => shown(*l, expr_level(*l) > op_level(op)) + seq![PTok::Op(op)] + shown(
            *r,
            expr_level(*r) >= op_level(op),
        ),
        SExpr::Call(c, args) => match *c {
            SExpr::Identifier(name) => seq![PTok::Name(name), PTok::LParen] + print_args(args) + seq![PTok::RParen],
            _ => Seq::empty(),
        },
    }
}

/// Arguments separated by commas.
pub open spec fn print_args(s: Seq<SExpr>) -> Seq<PTok>
    decreases s, 0int,
{
    if s.len() == 0 {
        Seq::empty()
    } else if s.len() == 1 {
        print(s[0])
    } else {
        print(s[0]) + seq![PTok::Comma] + print_args(s.subrange(1, s.len() as int))
    }
}

/// A token after an expression at level `level` or below ends it: it is no
/// `(` and no operator of that level or a tighter one.
pub open spec fn stops(k: TokenType, level: nat) -> bool {
    !(k is LParen) && (op_level(k) == 0 || op_level(k) > level)
}

proof fn lemma_split(toks: Seq<Token>, pos: int, a: Seq<PTok>, b: Seq<PTok>)
    requires
        matches_at(toks, pos, a + b),
    ensures
        matches_at(toks, pos, a),
        matches_at(toks, pos + a.len(), b),
{
    assert forall|i: int| 0 <= i < a.len() implies tok_matches(#[trigger] toks[pos + i].token_type, a[i]) by {
        assert((a + b)[i] == a[i]);
        assert(tok_matches(toks[pos + i].token_type, (a + b)[i]));
    }
    assert forall|i: int| 0 <= i < b.len() implies tok_matches(#[trigger] toks[(pos + a.len()) + i].token_type, b[i]) by {
        let j = a.len() + i;
        assert((a + b)[j] == b[i]);
        assert(tok_matches(toks[pos + j].token_type, (a + b)[j]));
        assert(pos + j == (pos + a.len()) + i);
    }
}

/// A written expression starts with a literal, a name or `(`.
proof fn lemma_first(e: SExpr)
    requires
        legal(e),
    ensures
        print(e).len() > 0,
        print(e)[0] is Num || print(e)[0] is Name || print(e)[0] is Str || print(e)[0] is LParen,
    decreases e,
{
    match e {
        SExpr::Binary(l, op, r) => {
            let pl = expr_level(*l) > op_level(op);
            lemma_first(*l);
            if !pl {
                assert(shown(*l, pl) == print(*l));
            }
            let rest = seq![PTok::Op(op)] + shown(*r, expr_level(*r) >= op_level(op));
            assert(print(e) == shown(*l, pl) + seq![PTok::Op(op)] + shown(*r, expr_level(*r) >= op_level(op)));
            assert((shown(*l, pl) + seq![PTok::Op(op)] + shown(*r, expr_level(*r) >= op_level(op)))[0] == shown(*l, pl)[0]);
        },
        SExpr::Call(c, args) => {
        },
        _ => {
        },
    }
}

/// A written operand that is parenthesized or has no operator parses as a
/// unary expression, up to a token that is not `(`.
proof fn lemma_atom(toks: Seq<Token>, pos: int, e: SExpr, paren: bool)
    requires
        legal(e),
        paren || expr_level(e) == 0,
        matches_at(toks, pos, shown(e, paren)),
        !(kind_at(toks, pos + shown(e, paren).len()) is LParen),
    ensures
        p_unary(toks, pos) == Ok::<(SExpr, int), crate::parser::grammar::ParseError>((e, pos + shown(e, paren).len())),
    decreases e, (if paren { 1int } else { 0int }), 0int,
{
    let w = shown(e, paren);
    assert(tok_matches(toks[pos + 0].token_type, w[0])) by {
        lemma_first(e);
    }
    if paren {
        let inner = print(e);
        lemma_split(toks, pos, seq![PTok::LParen] + inner, seq![PTok::RParen]);
        lemma_split(toks, pos, seq![PTok::LParen], inner);
        let end = pos + 1 + inner.len();
        assert(tok_matches(toks[end + 0].token_type, seq![PTok::RParen][0]));
        assert(kind_at(toks, end) is RParen);
        lemma_level(toks, pos + 1, e, false, 3);
        assert(p_primary(toks, pos) == Ok::<(SExpr, int), crate::parser::grammar::ParseError>((e, end + 1)));
    } else {
        match e {
            SExpr::Call(c, args) => {
                let name = c->Identifier_0;
                let body = print_args(args);
                assert(w == seq![PTok::Name(name), PTok::LParen] + body + seq![PTok::RParen]);
                lemma_split(toks, pos, seq![PTok::Name(name), PTok::LParen] + body, seq![PTok::RParen]);
                lemma_split(toks, pos, seq![PTok::Name(name), PTok::LParen], body);
                assert(tok_matches(toks[pos + 1].token_type, w[1]));
                assert(kind_at(toks, pos + 1) is LParen);
                assert(*c == SExpr::Identifier(kind_at(toks, pos)->Identifier_0@));
                if args.len() == 0 {
                    assert(tok_matches(toks[pos + 2].token_type, w[2]));
                    assert(args =~= Seq::<SExpr>::empty());
                } else {
                    assert(legal_all(args));
                    assert(legal(args[0]));
                    lemma_first(args[0]);
                    assert(body[0] == print(args[0])[0]) by {
                        if args.len() > 1 {
                            assert((print(args[0]) + seq![PTok::Comma] + print_args(args.subrange(1, args.len() as int)))[0]
                                == print(args[0])[0]);
                        }
                    }
                    assert(tok_matches(toks[(pos + 2) + 0].token_type, body[0]));
                    assert(!(kind_at(toks, pos + 2) is RParen));
                    assert(body + seq![PTok::RParen] =~= w.subrange(2, w.len() as int));
                    assert forall|i: int| 0 <= i < body.len() + 1 implies tok_matches(
                        #[trigger] toks[(pos + 2) + i].token_type,
                        (body + seq![PTok::RParen])[i],
                    ) by {
                        assert(tok_matches(toks[pos + (i + 2)].token_type, w[i + 2]));
                    }
                    lemma_args(toks, pos + 2, Seq::empty(), args);
                    assert(Seq::<SExpr>::empty() + args =~= args);
                }
            },
            _ => {
            },
        }
    }
}

/// A written expression whose level is at most `level` parses at that level
/// up to where the remaining operators of that level take over.
proof fn lemma_level(toks: Seq<Token>, pos: int, e: SExpr, paren: bool, level: nat)
    requires
        legal(e),
        1 <= level <= 3,
        (if paren { 0 } else { expr_level(e) }) <= level,
        matches_at(toks, pos, shown(e, paren)),
        stops(kind_at(toks, pos + shown(e, paren).len()), (level - 1) as nat),
    ensures
        p_level(toks, pos, level) == p_level_rest(toks, e, pos + shown(e, paren).len(), level),
    decreases e, (if paren { 1int } else { 0int }), level + 1,
{
    let w = shown(e, paren);
    let end = pos + w.len();
    lemma_first(e);
    if paren || expr_level(e) < level {
        if level == 1 {
            lemma_atom(toks, pos, e, paren);
        } else {
            lemma_level(toks, pos, e, paren, (level - 1) as nat);
        }
    } else {
        match e {
            SExpr::Binary(l, op, r) => {
                let pl = expr_level(*l) > op_level(op);
                let pr = expr_level(*r) >= op_level(op);
                let wl = shown(*l, pl);
                let wr = shown(*r, pr);
                assert(w == wl + seq![PTok::Op(op)] + wr);
                lemma_split(toks, pos, wl + seq![PTok::Op(op)], wr);
                lemma_split(toks, pos, wl, seq![PTok::Op(op)]);
                let end_l = pos + wl.len();
                assert(tok_matches(toks[end_l + 0].token_type, seq![PTok::Op(op)][0]));
                assert(kind_at(toks, end_l) == op);
                lemma_level(toks, pos, *l, pl, level);
                if level == 1 {
                    lemma_atom(toks, end_l + 1, *r, pr);
                } else {
                    lemma_level(toks, end_l + 1, *r, pr, (level - 1) as nat);
                }
                assert(SExpr::Binary(Box::new(*l), op, Box::new(*r)) == e);
            },
            _ => {
            },
        }
    }
}

/// Written arguments followed by `)` parse as those arguments.
proof fn lemma_args(toks: Seq<Token>, pos: int, acc: Seq<SExpr>, s: Seq<SExpr>)
    requires
        legal_all(s),
        s.len() > 0,
        matches_at(toks, pos, print_args(s) + seq![PTok::RParen]),
    ensures
        p_arguments(toks, pos, acc) == Ok::<(Seq<SExpr>, int), crate::parser::grammar::ParseError>(
            (acc + s, pos + print_args(s).len() + 1),
        ),
    decreases s, 0int, 0int,
{
    let first = print(s[0]);
    let rest = s.subrange(1, s.len() as int);
    let end0 = pos + first.len();
    assert(legal(s[0]));
    if s.len() == 1 {
        assert(print_args(s) == first);
        lemma_split(toks, pos, first, seq![PTok::RParen]);
        assert(tok_matches(toks[end0 + 0].token_type, seq![PTok::RParen][0]));
        lemma_level(toks, pos, s[0], false, 3);
        assert(kind_at(toks, end0) is RParen);
        assert(p_level_rest(toks, s[0], end0, 3) == Ok::<(SExpr, int), crate::parser::grammar::ParseError>((s[0], end0)));
        assert(p_expression(toks, pos) == Ok::<(SExpr, int), crate::parser::grammar::ParseError>((s[0], end0)));
        assert(acc.push(s[0]) =~= acc + s);
    } else {
        let tail = print_args(rest) + seq![PTok::RParen];
        assert(print_args(s) + seq![PTok::RParen] =~= first + seq![PTok::Comma] + tail);
        lemma_split(toks, pos, first + seq![PTok::Comma], tail);
        lemma_split(toks, pos, first, seq![PTok::Comma]);
        assert(tok_matches(toks[end0 + 0].token_type, seq![PTok::Comma][0]));
        lemma_level(toks, pos, s[0], false, 3);
        assert(kind_at(toks, end0) is Comma);
        assert(p_level_rest(toks, s[0], end0, 3) == Ok::<(SExpr, int), crate::parser::grammar::ParseError>((s[0], end0)));
        assert(p_expression(toks, pos) == Ok::<(SExpr, int), crate::parser::grammar::ParseError>((s[0], end0)));
        assert(legal_all(rest));
        lemma_args(toks, end0 + 1, acc.push(s[0]), rest);
        assert(acc.push(s[0]) + rest =~= acc + s);
    }
}

/// For every legal expression, the tokens that write it with the fewest
/// parentheses, followed by `;` and the end of input, parse to exactly one
/// expression statement holding that same tree: `*` and `/` bind tighter
/// than `+` and `-`, which bind tighter than `==` and `!=`, and operators of
/// one level associate to the left.
pub proof fn law_expression_statement_parses(toks: Seq<Token>, e: SExpr)
    requires
        legal(e),
        toks.len() == print(e).len() + 2,
        matches_at(toks, 0, print(e)),
        toks[toks.len() - 2].token_type is Semicolon,
        toks[toks.len() - 1].token_type is EOF,
    ensures
        parse_tokens(toks) == Ok::<Seq<SStmt>, crate::parser::grammar::ParseError>(seq![SStmt::ExprStmt(e)]),
{
    let n = print(e).len() as int;
    lemma_first(e);
    assert(tok_matches(toks[0int + 0int].token_type, print(e)[0]));
    assert(kind_at(toks, n) is Semicolon);
    lemma_level(toks, 0, e, false, 3);
    assert(p_expression(toks, 0) == Ok::<(SExpr, int), crate::parser::grammar::ParseError>((e, n)));
    assert(p_statement(toks, 0) == Ok::<(SStmt, int), crate::parser::grammar::ParseError>((SStmt::ExprStmt(e), n + 1)));
    assert(kind_at(toks, n + 1) is EOF);
    assert(p_program(toks, n + 1, seq![SStmt::ExprStmt(e)]) == Ok::<Seq<SStmt>, crate::parser::grammar::ParseError>(seq![SStmt::ExprStmt(e)]));
    assert(Seq::<SStmt>::empty().push(SStmt::ExprStmt(e)) =~= seq![SStmt::ExprStmt(e)]);
}

} // verus!

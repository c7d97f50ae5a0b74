use crate::tokenizer::token_types::TokenType;
use vstd::prelude::*;

verus! {

/// An expression of the language.
#[derive(Debug)]
pub enum Expr {
    Number(i64),
    Identifier(String),
    StringLiteral(String),
    Binary { left: Box<Expr>, op: TokenType, right: Box<Expr> },
    Call { callee: Box<Expr>, arguments: Vec<Expr> },
}

/// A statement of the language.
#[derive(Debug)]
pub enum Stmt {
    ExprStmt(Expr),
    VarDecl { name: String, value: Expr },
    PrintStmt(Expr),
    FunctionStmt { name: String, params: Vec<String>, body: Vec<Stmt> },
}

/// The mathematical model of an expression.
pub enum SExpr {
    Number(i64),
    Identifier(Seq<char>),
    StringLiteral(Seq<char>),
    Binary(Box<SExpr>, TokenType, Box<SExpr>),
    Call(Box<SExpr>, Seq<SExpr>),
}

/// The mathematical model of a statement.
pub enum SStmt {
    ExprStmt(SExpr),
    VarDecl(Seq<char>, SExpr),
    PrintStmt(SExpr),
    FunctionStmt(Seq<char>, Seq<Seq<char>>, Seq<SStmt>),
}

pub open spec fn exprs_view(s: Seq<Expr>) -> Seq<SExpr>
    decreases s,
{
    if s.len() == 0 {
        Seq::empty()
    } else {
        exprs_view(s.subrange(0, s.len() - 1)).push(expr_view(s[s.len() - 1]))
    }
}

pub open spec fn expr_view(e: Expr) -> SExpr
    decreases e,
{
    match e {
        Expr::Number(n) => SExpr::Number(n),
        Expr::Identifier(s) => SExpr::Identifier(s@),
        Expr::StringLiteral(s) => SExpr::StringLiteral(s@),
        Expr::Binary { left, op, right } => SExpr::Binary(
            Box::new(expr_view(*left)),
            op,
            Box::new(expr_view(*right)),
        ),
        Expr::Call { callee, arguments } => SExpr::Call(
            Box::new(expr_view(*callee)),
            exprs_view(arguments@),
        ),
    }
}

pub open spec fn stmts_view(s: Seq<Stmt>) -> Seq<SStmt>
    decreases s,
{
    if s.len() == 0 {
        Seq::empty()
    } else {
        stmts_view(s.subrange(0, s.len() - 1)).push(stmt_view(s[s.len() - 1]))
    }
}

pub open spec fn stmt_view(s: Stmt) -> SStmt
    decreases s,
{
    match s {
        Stmt::ExprStmt(e) => SStmt::ExprStmt(expr_view(e)),
        Stmt::VarDecl { name, value } => SStmt::VarDecl(name@, expr_view(value)),
        Stmt::PrintStmt(e) => SStmt::PrintStmt(expr_view(e)),
        Stmt::FunctionStmt { name, params, body } => SStmt::FunctionStmt(
            name@,
            strings_view(params@),
            stmts_view(body@),
        ),
    }
}

pub open spec fn strings_view(s: Seq<String>) -> Seq<Seq<char>> {
    s.map_values(|x: String| x@)
}

impl View for Expr {
    type V = SExpr;

    open spec fn view(&self) -> SExpr {
        expr_view(*self)
    }
}

impl View for Stmt {
    type V = SStmt;

    open spec fn view(&self) -> SStmt {
        stmt_view(*self)
    }
}

pub proof fn lemma_exprs_view(s: Seq<Expr>)
    ensures
        exprs_view(s).len() == s.len(),
        forall|i: int| 0 <= i < s.len() ==> #[trigger] exprs_view(s)[i] == expr_view(s[i]),
    decreases s.len(),
{
    if s.len() > 0 {
        lemma_exprs_view(s.subrange(0, s.len() - 1));
    }
}

pub proof fn lemma_exprs_view_push(s: Seq<Expr>, e: Expr)
    ensures
        exprs_view(s.push(e)) == exprs_view(s).push(expr_view(e)),
{
    assert(s.push(e).subrange(0, s.len() as int) =~= s);
}

pub proof fn lemma_stmts_view(s: Seq<Stmt>)
    ensures
        stmts_view(s).len() == s.len(),
        forall|i: int| 0 <= i < s.len() ==> #[trigger] stmts_view(s)[i] == stmt_view(s[i]),
    decreases s.len(),
{
    if s.len() > 0 {
        lemma_stmts_view(s.subrange(0, s.len() - 1));
    }
}

pub proof fn lemma_stmts_view_push(s: Seq<Stmt>, e: Stmt)
    ensures
        stmts_view(s.push(e)) == stmts_view(s).push(stmt_view(e)),
{
    assert(s.push(e).subrange(0, s.len() as int) =~= s);
}

/// A copy of a list of names.
pub fn duplicate_strings(v: &Vec<String>) -> (r: Vec<String>)
    ensures
        strings_view(r@) == strings_view(v@),
{
    let mut r: Vec<String> = Vec::new();
    let mut i: usize = 0;
    while i < v.len()
        invariant
            i <= v.len(),
            r@.len() == i,
            forall|j: int| 0 <= j < i ==> #[trigger] r@[j]@ == v@[j]@,
        decreases v.len() - i,
    {
        r.push(v[i].clone());
        i = i + 1;
    }
    assert(strings_view(r@) =~= strings_view(v@));
    r
}

impl Expr {
    /// A copy of this expression, equal to it in the model.
    pub fn duplicate(&self) -> (r: Expr)
        ensures
            r@ == self@,
        decreases self,
    {
        match self {
            Expr::Number(n) => Expr::Number(*n),
            Expr::Identifier(s) => Expr::Identifier(s.clone()),
            Expr::StringLiteral(s) => Expr::StringLiteral(s.clone()),
            Expr::Binary { left, op, right } => Expr::Binary {
                left: Box::new(left.duplicate()),
                op: op.duplicate(),
                right: Box::new(right.duplicate()),
            },
            Expr::Call { callee, arguments } => {
                proof {
                    assert(decreases_to!(*self => *arguments));
                }
                Expr::Call { callee: Box::new(callee.duplicate()), arguments: duplicate_exprs(arguments) }
            },
        }
    }
}

/// A copy of a list of expressions, equal to it in the model.
pub fn duplicate_exprs(v: &Vec<Expr>) -> (r: Vec<Expr>)
    ensures
        exprs_view(r@) == exprs_view(v@),
    decreases v,
{
    let mut r: Vec<Expr> = Vec::new();
    let mut i: usize = 0;
    while i < v.len()
        invariant
            i <= v.len(),
            exprs_view(r@) == exprs_view(v@.subrange(0, i as int)),
        decreases v.len() - i,
    {
        proof {
            assert(decreases_to!(*v => v@[i as int]));
            lemma_exprs_view_push(v@.subrange(0, i as int), v@[i as int]);
            assert(v@.subrange(0, i + 1) =~= v@.subrange(0, i as int).push(v@[i as int]));
        }
        let e = v[i].duplicate();
        proof {
            lemma_exprs_view_push(r@, e);
        }
        r.push(e);
        i = i + 1;
    }
    assert(v@.subrange(0, v@.len() as int) =~= v@);
    r
}

impl Stmt {
    /// A copy of this statement, equal to it in the model.
    pub fn duplicate(&self) -> (r: Stmt)
        ensures
            r@ == self@,
        decreases self,
    {
        match self {
            Stmt::ExprStmt(e) => Stmt::ExprStmt(e.duplicate()),
            Stmt::VarDecl { name, value } => Stmt::VarDecl { name: name.clone(), value: value.duplicate() },
            Stmt::PrintStmt(e) => Stmt::PrintStmt(e.duplicate()),
            Stmt::FunctionStmt { name, params, body } => {
                proof {
                    assert(decreases_to!(*self => *body));
                }
                Stmt::FunctionStmt {
                    name: name.clone(),
                    params: duplicate_strings(params),
                    body: duplicate_stmts(body),
                }
            }
        }
    }
}

/// A copy of a list of statements, equal to it in the model.
pub fn duplicate_stmts(v: &Vec<Stmt>) -> (r: Vec<Stmt>)
    ensures
        stmts_view(r@) == stmts_view(v@),
    decreases v,
{
    let mut r: Vec<Stmt> = Vec::new();
    let mut i: usize = 0;
    while i < v.len()
        invariant
            i <= v.len(),
            stmts_view(r@) == stmts_view(v@.subrange(0, i as int)),
        decreases v.len() - i,
    {
        proof {
            assert(decreases_to!(*v => v@[i as int]));
            lemma_stmts_view_push(v@.subrange(0, i as int), v@[i as int]);
            assert(v@.subrange(0, i + 1) =~= v@.subrange(0, i as int).push(v@[i as int]));
        }
        let s = v[i].duplicate();
        proof {
            lemma_stmts_view_push(r@, s);
        }
        r.push(s);
        i = i + 1;
    }
    assert(v@.subrange(0, v@.len() as int) =~= v@);
    r
}

} // verus!

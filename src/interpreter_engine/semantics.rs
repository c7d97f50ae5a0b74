use crate::environment_symbol_table::SEnv;
use crate::environment_symbol_table::types::{SRuntimeError, SValue, TypeErrorKind};
use crate::parser::parser_types::{SExpr, SStmt};
use crate::text::int_decimal;
use crate::tokenizer::token_types::TokenType;
use vstd::prelude::*;

verus! {

/// The model of an interpreter: its environments and the lines printed so far.
pub struct SState {
    pub env: SEnv,
    pub out: Seq<Seq<char>>,
}

/// The text that `print` emits for a value.
pub open spec fn display(v: SValue) -> Seq<char> {
    match v {
        SValue::Number(n) => int_decimal(n as int),
        SValue::Str(s) => s,
        SValue::Boolean(b) => if b {
            seq!['t', 'r', 'u', 'e']
        } else {
            seq!['f', 'a', 'l', 's', 'e']
        },
        SValue::Function { name, .. } => seq!['<', 'f', 'n', ' '] + name + seq!['>'],
        SValue::Nil => seq!['n', 'i', 'l'],
    }
}

/// `==` on values: numbers, strings and booleans by content, nil equals nil,
/// anything else is unequal.
pub open spec fn values_equal(a: SValue, b: SValue) -> bool {
    match (a, b) {
        (SValue::Number(x), SValue::Number(y)) => x == y,
        (SValue::Str(x), SValue::Str(y)) => x == y,
        (SValue::Boolean(x), SValue::Boolean(y)) => x == y,
        (SValue::Nil, SValue::Nil) => true,
        _ => false,
    }
}

/// Integer division rounding toward zero.
pub open spec fn trunc_div(x: int, y: int) -> int {
    let q = abs(x) / abs(y);
    if (x < 0) != (y < 0) {
        -q
    } else {
        q
    }
}

pub open spec fn abs(x: int) -> int {
    if x < 0 {
        -x
    } else {
        x
    }
}

/// A number, or an overflow where it does not fit in 64 bits.
pub open spec fn number_result(x: int) -> Result<SValue, SRuntimeError> {
    if i64::MIN <= x <= i64::MAX {
        Ok(SValue::Number(x as i64))
    } else {
        Err(SRuntimeError::Overflow)
    }
}

/// The operators that take two evaluated operands.
pub open spec fn is_operator(op: TokenType) -> bool {
    match op {
        TokenType::Plus | TokenType::Minus | TokenType::Star | TokenType::Slash
        | TokenType::EqualEqual | TokenType::BangEqual | TokenType::Greater
        | TokenType::GreaterEqual | TokenType::Less | TokenType::LessEqual => true,
        _ => false,
    }
}

/// The result of operator `op` on evaluated operands `a` and `b`.
pub open spec fn apply_binary(op: TokenType, a: SValue, b: SValue) -> Result<SValue, SRuntimeError> {
    let bad = Err(SRuntimeError::TypeError(TypeErrorKind::InvalidOperands(op)));
    match op {
        TokenType::EqualEqual => Ok(SValue::Boolean(values_equal(a, b))),
        TokenType::BangEqual => Ok(SValue::Boolean(!values_equal(a, b))),
        TokenType::Plus => match (a, b) {
            (SValue::Number(x), SValue::Number(y)) => number_result(x + y),
            (SValue::Str(x), SValue::Str(y)) => Ok(SValue::Str(x + y)),
            _ => bad,
        },
        _ => match (a, b) {
            (SValue::Number(x), SValue::Number(y)) => match op {
                TokenType::Minus => number_result(x - y),
                TokenType::Star => number_result(x * y),
                TokenType::Slash => if y == 0 {
                    Err(SRuntimeError::DivisionByZero)
                } else {
                    number_result(trunc_div(x as int, y as int))
                },
                TokenType::Greater => Ok(SValue::Boolean(x > y)),
                TokenType::GreaterEqual => Ok(SValue::Boolean(x >= y)),
                TokenType::Less => Ok(SValue::Boolean(x < y)),
                _ => Ok(SValue::Boolean(x <= y)),
            },
            _ => bad,
        },
    }
}

/// The environment after binding each parameter to its argument, in order,
/// in `scope`.
pub open spec fn bind_params(env: SEnv, scope: nat, params: Seq<Seq<char>>, args: Seq<SValue>) -> SEnv
    decreases params.len(),
{
    if params.len() == 0 || args.len() == 0 {
        env
    } else {
        bind_params(env, scope, params.drop_last(), args.drop_last()).define(
            scope,
            params.last(),
            args.last(),
        )
    }
}

/// The number of nodes of an expression; evaluation recurses on smaller ones.
pub open spec fn expr_size(e: SExpr) -> nat
    decreases e,
{
    match e {
        SExpr::Binary(l, _, r) => 1 + expr_size(*l) + expr_size(*r),
        SExpr::Call(c, args) => 2 + expr_size(*c) + exprs_size(args),
        _ => 1,
    }
}

pub open spec fn exprs_size(es: Seq<SExpr>) -> nat
    decreases es,
{
    if es.len() == 0 {
        0
    } else {
        1 + exprs_size(es.subrange(0, es.len() - 1)) + expr_size(es[es.len() - 1])
    }
}

pub open spec fn stmt_size(s: SStmt) -> nat {
    match s {
        SStmt::ExprStmt(e) => 1 + expr_size(e),
        SStmt::VarDecl(_, e) => 1 + expr_size(e),
        SStmt::PrintStmt(e) => 1 + expr_size(e),
        SStmt::FunctionStmt(..) => 1,
    }
}

pub open spec fn stmts_size(ss: Seq<SStmt>) -> nat
    decreases ss.len(),
{
    if ss.len() == 0 {
        0
    } else {
        1 + stmts_size(ss.subrange(0, ss.len() - 1)) + stmt_size(ss[ss.len() - 1])
    }
}

/// Evaluates expression `e` in `scope`, with `depth` further calls allowed.
pub open spec fn eval_expr(st: SState, scope: nat, e: SExpr, depth: nat) -> (SState, Result<SValue, SRuntimeError>)
    decreases depth, expr_size(e),
{
    match e {
        SExpr::Number(n) => (st, Ok(SValue::Number(n))),
        SExpr::StringLiteral(s) => (st, Ok(SValue::Str(s))),
        SExpr::Identifier(n) => match st.env.get(scope, n) {
            Some(v) => (st, Ok(v)),
            None => (st, Err(SRuntimeError::NameError(n))),
        },
        SExpr::Binary(l, op, r) => eval_binary(st, scope, *l, op, *r, depth),
        SExpr::Call(callee, args) => eval_call(st, scope, *callee, args, depth),
    }
}

/// Evaluates `l op r`. For `=`, `l` must be a name: `r` is evaluated and
/// bound to it in `scope`. For the other operators, `l` is evaluated first,
/// then `r`, then the operator is applied.
pub open spec fn eval_binary(st: SState, scope: nat, l: SExpr, op: TokenType, r: SExpr, depth: nat) -> (SState, Result<SValue, SRuntimeError>)
    decreases depth, expr_size(l) + expr_size(r),
{
    if op is Equal {
        match l {
            SExpr::Identifier(n) => {
                let (st1, rv) = eval_expr(st, scope, r, depth);
                match rv {
                    Ok(v) => (SState { env: st1.env.define(scope, n, v), out: st1.out }, Ok(v)),
                    Err(x) => (st1, Err(x)),
                }
            },
            _ => (st, Err(SRuntimeError::TypeError(TypeErrorKind::InvalidAssignmentTarget))),
        }
    } else if !is_operator(op) {
        (st, Err(SRuntimeError::TypeError(TypeErrorKind::UnsupportedOperator(op))))
    } else {
        let (st1, lv) = eval_expr(st, scope, l, depth);
        match lv {
            Err(x) => (st1, Err(x)),
            Ok(a) => {
                let (st2, rv) = eval_expr(st1, scope, r, depth);
                match rv {
                    Err(x) => (st2, Err(x)),
                    Ok(b) => (st2, apply_binary(op, a, b)),
                }
            },
        }
    }
}

/// Evaluates a call: the callee first, then the arguments from left to
/// right, then the call itself.
pub open spec fn eval_call(st: SState, scope: nat, callee: SExpr, args: Seq<SExpr>, depth: nat) -> (SState, Result<SValue, SRuntimeError>)
    decreases depth, expr_size(callee) + exprs_size(args) + 1,
{
    let (st1, cv) = eval_expr(st, scope, callee, depth);
    match cv {
        Err(x) => (st1, Err(x)),
        Ok(f) => {
            let (st2, av) = eval_args(st1, scope, args, depth);
            match av {
                Err(x) => (st2, Err(x)),
                Ok(vals) => call_result(st2, f, vals, depth),
            }
        },
    }
}

/// Calls `f` on evaluated arguments `vals`: the body runs in a fresh scope
/// whose parent is the scope the function was declared in. A call yields nil.
pub open spec fn call_result(st: SState, f: SValue, vals: Seq<SValue>, depth: nat) -> (SState, Result<SValue, SRuntimeError>)
    decreases depth, 0nat,
{
    match f {
        SValue::Function { params, body, closure, .. } => if vals.len() != params.len() {
            (st, Err(SRuntimeError::ArityError { expected: params.len(), found: vals.len() }))
        } else if depth == 0 {
            (st, Err(SRuntimeError::StackOverflow))
        } else {
            let local = st.env.scope_count();
            let env = bind_params(st.env.push_scope(closure), local, params, vals);
            let (st1, res) = exec_block(SState { env, out: st.out }, local, body, (depth - 1) as nat);
            match res {
                Ok(_) => (st1, Ok(SValue::Nil)),
                Err(x) => (st1, Err(x)),
            }
        },
        _ => (st, Err(SRuntimeError::TypeError(TypeErrorKind::NotCallable))),
    }
}

/// Evaluates the expressions of `es` from left to right.
pub open spec fn eval_args(st: SState, scope: nat, es: Seq<SExpr>, depth: nat) -> (SState, Result<Seq<SValue>, SRuntimeError>)
    decreases depth, exprs_size(es),
{
    if es.len() == 0 {
        (st, Ok(Seq::empty()))
    } else {
        let (st1, r1) = eval_args(st, scope, es.subrange(0, es.len() - 1), depth);
        match r1 {
            Err(x) => (st1, Err(x)),
            Ok(vs) => {
                let (st2, r2) = eval_expr(st1, scope, es[es.len() - 1], depth);
                match r2 {
                    Err(x) => (st2, Err(x)),
                    Ok(v) => (st2, Ok(vs.push(v))),
                }
            },
        }
    }
}

/// Executes statement `s` in `scope`.
pub open spec fn exec_stmt(st: SState, scope: nat, s: SStmt, depth: nat) -> (SState, Result<(), SRuntimeError>)
    decreases depth, stmt_size(s),
{
    match s {
        SStmt::ExprStmt(e) => {
            let (st1, r) = eval_expr(st, scope, e, depth);
            match r {
                Ok(_) => (st1, Ok(())),
                Err(x) => (st1, Err(x)),
            }
        },
        SStmt::PrintStmt(e) => {
            let (st1, r) = eval_expr(st, scope, e, depth);
            match r {
                Ok(v) => (SState { env: st1.env, out: st1.out.push(display(v)) }, Ok(())),
                Err(x) => (st1, Err(x)),
            }
        },
        SStmt::VarDecl(n, e) => {
            let (st1, r) = eval_expr(st, scope, e, depth);
            match r {
                Ok(v) => (SState { env: st1.env.define(scope, n, v), out: st1.out }, Ok(())),
                Err(x) => (st1, Err(x)),
            }
        },
        SStmt::FunctionStmt(n, params, body) => {
            let f = SValue::Function { name: n, params, body, closure: scope };
            (SState { env: st.env.define(scope, n, f), out: st.out }, Ok(()))
        },
    }
}

/// Executes the statements of `ss` in order, stopping at the first error.
pub open spec fn exec_block(st: SState, scope: nat, ss: Seq<SStmt>, depth: nat) -> (SState, Result<(), SRuntimeError>)
    decreases depth, stmts_size(ss),
{
    if ss.len() == 0 {
        (st, Ok(()))
    } else {
        let (st1, r1) = exec_block(st, scope, ss.subrange(0, ss.len() - 1), depth);
        match r1 {
            Err(x) => (st1, Err(x)),
            Ok(_) => exec_stmt(st1, scope, ss[ss.len() - 1], depth),
        }
    }
}

/// A name that no enclosing scope binds fails with a name error that names
/// it, wherever it stands, and changes nothing.
pub proof fn law_undefined_name(st: SState, scope: nat, name: Seq<char>, depth: nat)
    requires
        st.env.get(scope, name) is None,
    ensures
        eval_expr(st, scope, SExpr::Identifier(name), depth) == (st, Err::<SValue, SRuntimeError>(SRuntimeError::NameError(name))),
{
}

/// Calling a function with a number of arguments other than its number of
/// parameters fails with an arity error that gives both numbers.
pub proof fn law_arity_mismatch(st: SState, f: SValue, vals: Seq<SValue>, depth: nat)
    requires
        f is Function,
        vals.len() != f->params.len(),
    ensures
        call_result(st, f, vals, depth) == (st, Err::<SValue, SRuntimeError>(SRuntimeError::ArityError { expected: f->params.len(), found: vals.len() })),
{
}

/// A call whose body runs to completion yields nil.
pub proof fn law_call_yields_nil(st: SState, f: SValue, vals: Seq<SValue>, depth: nat)
    requires
        f is Function,
        vals.len() == f->params.len(),
        depth > 0,
        exec_block(
            SState {
                env: bind_params(st.env.push_scope(f->closure), st.env.scope_count(), f->params, vals),
                out: st.out,
            },
            st.env.scope_count(),
            f->body,
            (depth - 1) as nat,
        ).1 is Ok,
    ensures
        call_result(st, f, vals, depth).1 == Ok::<SValue, SRuntimeError>(SValue::Nil),
{
}

/// Dividing a number by zero fails with a division-by-zero error.
pub proof fn law_division_by_zero(x: i64)
    ensures
        apply_binary(TokenType::Slash, SValue::Number(x), SValue::Number(0)) == Err::<SValue, SRuntimeError>(SRuntimeError::DivisionByZero),
{
}

/// `+` on two strings concatenates them; on a string and a number it fails
/// with a type error.
pub proof fn law_string_plus(x: Seq<char>, y: Seq<char>, n: i64)
    ensures
        apply_binary(TokenType::Plus, SValue::Str(x), SValue::Str(y)) == Ok::<SValue, SRuntimeError>(SValue::Str(x + y)),
        apply_binary(TokenType::Plus, SValue::Str(x), SValue::Number(n)) == Err::<SValue, SRuntimeError>(SRuntimeError::TypeError(TypeErrorKind::InvalidOperands(TokenType::Plus))),
        apply_binary(TokenType::Plus, SValue::Number(n), SValue::Str(x)) == Err::<SValue, SRuntimeError>(SRuntimeError::TypeError(TypeErrorKind::InvalidOperands(TokenType::Plus))),
{
}

} // verus!

pub mod semantics;

use crate::environment_symbol_table::types::{
    Function, RuntimeError, SRuntimeError, SValue, TypeErrorKind, Value,
};
use crate::environment_symbol_table::{value_fits, Environment, SEnv};
use crate::parser::parser_types::{
    duplicate_stmts, duplicate_strings, exprs_view, lemma_exprs_view, lemma_stmts_view,
    stmts_view, strings_view, Expr, SExpr, SStmt, Stmt,
};
use crate::text::int_to_string;
use crate::tokenizer::token_types::TokenType;
use semantics::{
    eval_binary, eval_call,
    apply_binary, display, eval_args, eval_expr, exec_block, exec_stmt, expr_size, exprs_size,
    is_operator, stmt_size, call_result, stmts_size, trunc_div, values_equal, bind_params, SState,
};
use vstd::prelude::*;
use vstd::string::StringExecFns;

verus! {

/// How deeply calls may nest before a run fails with a stack overflow.
pub const MAX_CALL_DEPTH: u32 = 64;

pub open spec fn value_result(r: Result<Value, RuntimeError>) -> Result<SValue, SRuntimeError> {
    match r {
        Ok(v) => Ok(v@),
        Err(e) => Err(e@),
    }
}

pub open spec fn unit_result(r: Result<(), RuntimeError>) -> Result<(), SRuntimeError> {
    match r {
        Ok(_) => Ok(()),
        Err(e) => Err(e@),
    }
}

pub open spec fn values_view(v: Seq<Value>) -> Seq<SValue> {
    v.map_values(|x: Value| x@)
}

pub open spec fn values_result(r: Result<Vec<Value>, RuntimeError>) -> Result<Seq<SValue>, SRuntimeError> {
    match r {
        Ok(v) => Ok(values_view(v@)),
        Err(e) => Err(e@),
    }
}

/// The state of an interpreter before it has run anything.
pub open spec fn initial_state() -> SState {
    SState {
        env: SEnv { parents: seq![Option::<nat>::None], vars: Map::empty() },
        out: Seq::empty(),
    }
}

/// A tree-walking interpreter: the scopes of a run, scope 0 being the global
/// one, and the lines that `print` has emitted.
pub struct Interpreter {
    environment: Environment,
    output: Vec<String>,
}

proof fn lemma_exprs_size(es: Seq<SExpr>, i: int)
    requires
        0 <= i < es.len(),
    ensures
        expr_size(es[i]) < exprs_size(es),
        exprs_size(es.subrange(0, i)) < exprs_size(es),
    decreases es.len(),
{
    if i < es.len() - 1 {
        lemma_exprs_size(es.subrange(0, es.len() - 1), i);
        assert(es.subrange(0, es.len() - 1).subrange(0, i) =~= es.subrange(0, i));
    }
}

proof fn lemma_stmts_size(ss: Seq<SStmt>, i: int)
    requires
        0 <= i < ss.len(),
    ensures
        stmt_size(ss[i]) < stmts_size(ss),
    decreases ss.len(),
{
    if i < ss.len() - 1 {
        lemma_stmts_size(ss.subrange(0, ss.len() - 1), i);
    }
}

proof fn lemma_block_error(st: SState, scope: nat, ss: Seq<SStmt>, depth: nat, k: int)
    requires
        0 <= k <= ss.len(),
        exec_block(st, scope, ss.subrange(0, k), depth).1 is Err,
    ensures
        exec_block(st, scope, ss, depth) == exec_block(st, scope, ss.subrange(0, k), depth),
    decreases ss.len(),
{
    if k == ss.len() {
        assert(ss.subrange(0, k) =~= ss);
    } else {
        let p = ss.subrange(0, ss.len() - 1);
        assert(p.subrange(0, k) =~= ss.subrange(0, k));
        lemma_block_error(st, scope, p, depth, k);
    }
}

proof fn lemma_args_error(st: SState, scope: nat, es: Seq<SExpr>, depth: nat, k: int)
    requires
        0 <= k <= es.len(),
        eval_args(st, scope, es.subrange(0, k), depth).1 is Err,
    ensures
        eval_args(st, scope, es, depth) == eval_args(st, scope, es.subrange(0, k), depth),
    decreases es.len(),
{
    if k == es.len() {
        assert(es.subrange(0, k) =~= es);
    } else {
        let p = es.subrange(0, es.len() - 1);
        assert(p.subrange(0, k) =~= es.subrange(0, k));
        lemma_args_error(st, scope, p, depth, k);
    }
}

/// Whether `op` is an operator that takes two evaluated operands.
fn is_operator_exec(op: &TokenType) -> (r: bool)
    ensures
        r == is_operator(*op),
{
    match op {
        TokenType::Plus | TokenType::Minus | TokenType::Star | TokenType::Slash
        | TokenType::EqualEqual | TokenType::BangEqual | TokenType::Greater
        | TokenType::GreaterEqual | TokenType::Less | TokenType::LessEqual => true,
        _ => false,
    }
}

/// Whether two values are equal under `==`.
pub fn equals(a: &Value, b: &Value) -> (r: bool)
    ensures
        r == values_equal(a@, b@),
{
    match (a, b) {
        (Value::Number(x), Value::Number(y)) => *x == *y,
        (Value::String(x), Value::String(y)) => *x == *y,
        (Value::Boolean(x), Value::Boolean(y)) => *x == *y,
        (Value::Nil, Value::Nil) => true,
        _ => false,
    }
}

/// The text that `print` emits for `v`.
pub fn display_value(v: &Value) -> (r: String)
    ensures
        r@ == display(v@),
{
    match v {
        Value::Number(n) => int_to_string(*n),
        Value::String(s) => s.clone(),
        Value::Boolean(b) => {
            proof {
                reveal_strlit("true");
                reveal_strlit("false");
            }
            if *b {
                "true".to_owned()
            } else {
                "false".to_owned()
            }
        },
        Value::Nil => {
            proof {
                reveal_strlit("nil");
            }
            "nil".to_owned()
        },
        Value::Function(f) => {
            proof {
                reveal_strlit("<fn ");
                reveal_strlit(">");
            }
            let r = "<fn ".to_owned().concat(f.name.as_str()).concat(">");
            assert(r@ =~= display(v@));
            r
        },
    }
}

/// A number, or `Overflow` where the checked operation gave none.
fn number_or_overflow(r: Option<i64>) -> (v: Result<Value, RuntimeError>)
    ensures
        match r {
            Some(n) => v is Ok && v->Ok_0@ == SValue::Number(n),
            None => v is Err && v->Err_0@ == SRuntimeError::Overflow,
        },
{
    match r {
        Some(n) => Ok(Value::Number(n)),
        None => Err(RuntimeError::Overflow),
    }
}

/// Applies operator `op` to evaluated operands.
pub fn apply_binary_values(op: &TokenType, a: Value, b: Value) -> (r: Result<Value, RuntimeError>)
    requires
        is_operator(*op),
    ensures
        value_result(r) == apply_binary(*op, a@, b@),
{
    let bad = Err(RuntimeError::TypeError(TypeErrorKind::InvalidOperands(op.duplicate())));
    match op {
        TokenType::EqualEqual => Ok(Value::Boolean(equals(&a, &b))),
        TokenType::BangEqual => Ok(Value::Boolean(!equals(&a, &b))),
        TokenType::Plus => match (a, b) {
            (Value::Number(x), Value::Number(y)) => number_or_overflow(x.checked_add(y)),
            (Value::String(x), Value::String(y)) => Ok(Value::String(x.concat(y.as_str()))),
            _ => bad,
        },
        _ => match (a, b) {
            (Value::Number(x), Value::Number(y)) => match op {
                TokenType::Minus => number_or_overflow(x.checked_sub(y)),
                TokenType::Star => number_or_overflow(x.checked_mul(y)),
                TokenType::Slash => {
                    if y == 0 {
                        Err(RuntimeError::DivisionByZero)
                    } else {
                        let q = x.checked_div(y);
                        assert(q == (if i64::MIN <= trunc_div(x as int, y as int) <= i64::MAX {
                            Some(trunc_div(x as int, y as int) as i64)
                        } else {
                            None
                        }));
                        number_or_overflow(q)
                    }
                },
                TokenType::Greater => Ok(Value::Boolean(x > y)),
                TokenType::GreaterEqual => Ok(Value::Boolean(x >= y)),
                TokenType::Less => Ok(Value::Boolean(x < y)),
                _ => Ok(Value::Boolean(x <= y)),
            },
            _ => bad,
        },
    }
}

impl View for Interpreter {
    type V = SState;

    closed spec fn view(&self) -> SState {
        SState { env: self.environment@, out: strings_view(self.output@) }
    }
}

impl Interpreter {
    pub closed spec fn wf(&self) -> bool {
        &&& self.environment.wf()
        &&& self.environment@ == self@.env
    }

    /// An interpreter with an empty global scope and nothing printed.
    pub fn new() -> (r: Interpreter)
        ensures
            r.wf(),
            r@ == initial_state(),
    {
        let r = Interpreter { environment: Environment::new(), output: Vec::new() };
        assert(strings_view(r.output@) =~= Seq::<Seq<char>>::empty());
        r
    }

    /// The lines that `print` has emitted, in order.
    pub fn output(&self) -> (r: &Vec<String>)
        ensures
            strings_view(r@) == self@.out,
    {
        &self.output
    }

    /// The lines that `print` has emitted, taken out of the interpreter.
    pub fn into_output(self) -> (r: Vec<String>)
        ensures
            strings_view(r@) == self@.out,
    {
        self.output
    }

    /// Runs a program: executes its statements in order in the global scope,
    /// stopping at the first error. What ran before the error keeps its effect.
    pub fn interpret(&mut self, statements: Vec<Stmt>) -> (r: Result<(), RuntimeError>)
        requires
            old(self).wf(),
        ensures
            final(self).wf(),
            (final(self)@, unit_result(r)) == exec_block(
                old(self)@,
                0,
                stmts_view(statements@),
                MAX_CALL_DEPTH as nat,
            ),
    {
        proof {
            self.environment.lemma_wf();
        }
        self.execute_block(&statements, 0, MAX_CALL_DEPTH)
    }

    fn execute_block(&mut self, stmts: &Vec<Stmt>, scope: usize, depth: u32) -> (r: Result<(), RuntimeError>)
        requires
            old(self).wf(),
            scope < old(self)@.env.scope_count(),
        ensures
            final(self).wf(),
            old(self)@.env.scope_count() <= final(self)@.env.scope_count(),
            (final(self)@, unit_result(r)) == exec_block(old(self)@, scope as nat, stmts_view(stmts@), depth as nat),
        decreases depth, stmts_size(stmts_view(stmts@)),
    {
        let ghost ss = stmts_view(stmts@);
        proof {
            lemma_stmts_view(stmts@);
        }
        let mut i: usize = 0;
        assert(ss.subrange(0, 0) =~= Seq::<SStmt>::empty());
        while i < stmts.len()
            invariant
                self.wf(),
                i <= stmts@.len(),
                ss == stmts_view(stmts@),
                ss.len() == stmts@.len(),
                forall|j: int| 0 <= j < ss.len() ==> #[trigger] ss[j] == stmts@[j]@,
                scope < self@.env.scope_count(),
                old(self)@.env.scope_count() <= self@.env.scope_count(),
                (self@, Ok::<(), SRuntimeError>(())) == exec_block(old(self)@, scope as nat, ss.subrange(0, i as int), depth as nat),
            decreases stmts@.len() - i,
        {
            proof {
                lemma_stmts_size(ss, i as int);
                let p = ss.subrange(0, i + 1);
                assert(p.subrange(0, i as int) =~= ss.subrange(0, i as int));
                assert(p[i as int] == ss[i as int]);
            }
            let r = self.execute_stmt(&stmts[i], scope, depth);
            match r {
                Ok(_) => {},
                Err(e) => {
                    proof {
                        lemma_block_error(old(self)@, scope as nat, ss, depth as nat, i + 1);
                    }
                    return Err(e);
                },
            }
            i = i + 1;
        }
        assert(ss.subrange(0, i as int) =~= ss);
        Ok(())
    }

    fn execute_stmt(&mut self, stmt: &Stmt, scope: usize, depth: u32) -> (r: Result<(), RuntimeError>)
        requires
            old(self).wf(),
            scope < old(self)@.env.scope_count(),
        ensures
            final(self).wf(),
            old(self)@.env.scope_count() <= final(self)@.env.scope_count(),
            (final(self)@, unit_result(r)) == exec_stmt(old(self)@, scope as nat, stmt@, depth as nat),
        decreases depth, stmt_size(stmt@),
    {
        match stmt {
            Stmt::ExprStmt(e) => {
                match self.evaluate_expr(e, scope, depth) {
                    Ok(_) => Ok(()),
                    Err(x) => Err(x),
                }
            },
            Stmt::PrintStmt(e) => {
                match self.evaluate_expr(e, scope, depth) {
                    Ok(v) => {
                        let line = display_value(&v);
                        let ghost prev = self.output@;
                        self.output.push(line);
                        assert(self.output@.drop_last() =~= prev);
                        assert(strings_view(self.output@) =~= strings_view(self.output@.drop_last()).push(
                            display(v@),
                        ));
                        Ok(())
                    },
                    Err(x) => Err(x),
                }
            },
            Stmt::VarDecl { name, value } => {
                match self.evaluate_expr(value, scope, depth) {
                    Ok(v) => {
                        self.environment.define(scope, name.as_str(), v);
                        Ok(())
                    },
                    Err(x) => Err(x),
                }
            },
            Stmt::FunctionStmt { name, params, body } => {
                let f = Value::Function(
                    Function {
                        name: name.clone(),
                        params: duplicate_strings(params),
                        body: duplicate_stmts(body),
                        closure: scope,
                    },
                );
                self.environment.define(scope, name.as_str(), f);
                let ghost fv = SValue::Function {
                    name: name@,
                    params: strings_view(params@),
                    body: stmts_view(body@),
                    closure: scope as nat,
                };
                assert(self@.env == old(self)@.env.define(scope as nat, name@, fv));
                assert(self@.out == old(self)@.out);
                Ok(())
            },
        }
    }

    fn evaluate_expr(&mut self, expr: &Expr, scope: usize, depth: u32) -> (r: Result<Value, RuntimeError>)
        requires
            old(self).wf(),
            scope < old(self)@.env.scope_count(),
        ensures
            final(self).wf(),
            old(self)@.env.scope_count() <= final(self)@.env.scope_count(),
            (final(self)@, value_result(r)) == eval_expr(old(self)@, scope as nat, expr@, depth as nat),
            r is Ok ==> value_fits(r->Ok_0@, final(self)@.env.scope_count()),
        decreases depth, expr_size(expr@),
    {
        match expr {
            Expr::Number(n) => Ok(Value::Number(*n)),
            Expr::StringLiteral(s) => Ok(Value::String(s.clone())),
            Expr::Identifier(name) => {
                proof {
                    self.environment.lemma_wf();
                    self.environment@.lemma_find(scope as nat, name@);
                }
                self.environment.get(scope, name.as_str())
            },
            Expr::Binary { left, op, right } => self.evaluate_binary(left, op, right, scope, depth),
            Expr::Call { callee, arguments } => self.evaluate_call(callee, arguments, scope, depth),
        }
    }

    fn evaluate_binary(&mut self, left: &Expr, op: &TokenType, right: &Expr, scope: usize, depth: u32) -> (r: Result<Value, RuntimeError>)
        requires
            old(self).wf(),
            scope < old(self)@.env.scope_count(),
        ensures
            final(self).wf(),
            old(self)@.env.scope_count() <= final(self)@.env.scope_count(),
            (final(self)@, value_result(r)) == eval_binary(old(self)@, scope as nat, left@, *op, right@, depth as nat),
            r is Ok ==> value_fits(r->Ok_0@, final(self)@.env.scope_count()),
        decreases depth, expr_size(left@) + expr_size(right@),
    {
        if let TokenType::Equal = op {
            match left {
                Expr::Identifier(name) => {
                    match self.evaluate_expr(right, scope, depth) {
                        Ok(v) => {
                            let copy = v.duplicate();
                            self.environment.define(scope, name.as_str(), v);
                            Ok(copy)
                        },
                        Err(x) => Err(x),
                    }
                },
                _ => Err(RuntimeError::TypeError(TypeErrorKind::InvalidAssignmentTarget)),
            }
        } else if !is_operator_exec(op) {
            Err(RuntimeError::TypeError(TypeErrorKind::UnsupportedOperator(op.duplicate())))
        } else {
            let a = match self.evaluate_expr(left, scope, depth) {
                Ok(v) => v,
                Err(x) => {
                    return Err(x);
                },
            };
            let b = match self.evaluate_expr(right, scope, depth) {
                Ok(v) => v,
                Err(x) => {
                    return Err(x);
                },
            };
            apply_binary_values(op, a, b)
        }
    }

    fn evaluate_call(&mut self, callee: &Expr, arguments: &Vec<Expr>, scope: usize, depth: u32) -> (r: Result<Value, RuntimeError>)
        requires
            old(self).wf(),
            scope < old(self)@.env.scope_count(),
        ensures
            final(self).wf(),
            old(self)@.env.scope_count() <= final(self)@.env.scope_count(),
            (final(self)@, value_result(r)) == eval_call(old(self)@, scope as nat, callee@, exprs_view(arguments@), depth as nat),
            r is Ok ==> value_fits(r->Ok_0@, final(self)@.env.scope_count()),
        decreases depth, expr_size(callee@) + exprs_size(exprs_view(arguments@)) + 1,
    {
        let f = match self.evaluate_expr(callee, scope, depth) {
            Ok(v) => v,
            Err(x) => {
                return Err(x);
            },
        };
        let args = match self.evaluate_args(arguments, scope, depth) {
            Ok(v) => v,
            Err(x) => {
                return Err(x);
            },
        };
        match f {
            Value::Function(func) => self.call_function(func, args, depth),
            _ => Err(RuntimeError::TypeError(TypeErrorKind::NotCallable)),
        }
    }

    fn evaluate_args(&mut self, args: &Vec<Expr>, scope: usize, depth: u32) -> (r: Result<Vec<Value>, RuntimeError>)
        requires
            old(self).wf(),
            scope < old(self)@.env.scope_count(),
        ensures
            final(self).wf(),
            old(self)@.env.scope_count() <= final(self)@.env.scope_count(),
            (final(self)@, values_result(r)) == eval_args(old(self)@, scope as nat, exprs_view(args@), depth as nat),
            r is Ok ==> forall|i: int| 0 <= i < r->Ok_0@.len() ==> value_fits(#[trigger] r->Ok_0@[i]@, final(self)@.env.scope_count()),
        decreases depth, exprs_size(exprs_view(args@)),
    {
        let ghost es = exprs_view(args@);
        proof {
            lemma_exprs_view(args@);
        }
        let mut vals: Vec<Value> = Vec::new();
        let mut i: usize = 0;
        assert(values_view(vals@) =~= Seq::<SValue>::empty());
        assert(es.subrange(0, 0) =~= Seq::<SExpr>::empty());
        while i < args.len()
            invariant
                self.wf(),
                i <= args@.len(),
                es == exprs_view(args@),
                es.len() == args@.len(),
                forall|j: int| 0 <= j < es.len() ==> #[trigger] es[j] == args@[j]@,
                scope < self@.env.scope_count(),
                old(self)@.env.scope_count() <= self@.env.scope_count(),
                (self@, Ok::<Seq<SValue>, SRuntimeError>(values_view(vals@))) == eval_args(old(self)@, scope as nat, es.subrange(0, i as int), depth as nat),
                forall|j: int| 0 <= j < vals@.len() ==> value_fits(#[trigger] vals@[j]@, self@.env.scope_count()),
            decreases args@.len() - i,
        {
            proof {
                lemma_exprs_size(es, i as int);
                let p = es.subrange(0, i + 1);
                assert(p.subrange(0, i as int) =~= es.subrange(0, i as int));
                assert(p[i as int] == es[i as int]);
            }
            match self.evaluate_expr(&args[i], scope, depth) {
                Ok(v) => {
                    let ghost prev = vals@;
                    vals.push(v);
                    assert(vals@.drop_last() =~= prev);
                    assert(values_view(vals@) =~= values_view(prev).push(v@));
                },
                Err(e) => {
                    proof {
                        lemma_args_error(old(self)@, scope as nat, es, depth as nat, i + 1);
                    }
                    return Err(e);
                },
            }
            i = i + 1;
        }
        assert(es.subrange(0, i as int) =~= es);
        Ok(vals)
    }

    fn call_function(&mut self, func: Function, args: Vec<Value>, depth: u32) -> (r: Result<Value, RuntimeError>)
        requires
            old(self).wf(),
            func.closure < old(self)@.env.scope_count(),
            forall|i: int| 0 <= i < args@.len() ==> value_fits(#[trigger] args@[i]@, old(self)@.env.scope_count()),
        ensures
            final(self).wf(),
            old(self)@.env.scope_count() <= final(self)@.env.scope_count(),
            (final(self)@, value_result(r)) == call_result(old(self)@, Value::Function(func)@, values_view(args@), depth as nat),
        decreases depth, 0nat,
    {
        if args.len() != func.params.len() {
            return Err(RuntimeError::ArityError { expected: func.params.len(), found: args.len() });
        }
        if depth == 0 {
            return Err(RuntimeError::StackOverflow);
        }
        let local = self.environment.with_enclosing(func.closure);
        let ghost params = strings_view(func.params@);
        let ghost vals = values_view(args@);
        let ghost env2 = self.environment@;
        let mut i: usize = 0;
        while i < args.len()
            invariant
                self.wf(),
                i <= args@.len(),
                args@.len() == func.params@.len(),
                params == strings_view(func.params@),
                vals == values_view(args@),
                local < self@.env.scope_count(),
                self@.env.scope_count() == env2.scope_count(),
                old(self)@.env.scope_count() <= self@.env.scope_count(),
                forall|j: int| 0 <= j < args@.len() ==> value_fits(#[trigger] args@[j]@, old(self)@.env.scope_count()),
                self@.env == bind_params(env2, local as nat, params.subrange(0, i as int), vals.subrange(0, i as int)),
                self@.out == old(self)@.out,
            decreases args@.len() - i,
        {
            let v = args[i].duplicate();
            self.environment.define(local, func.params[i].as_str(), v);
            proof {
                let ps = params.subrange(0, i + 1);
                let vs = vals.subrange(0, i + 1);
                assert(ps.drop_last() =~= params.subrange(0, i as int));
                assert(vs.drop_last() =~= vals.subrange(0, i as int));
            }
            i = i + 1;
        }
        proof {
            assert(params.subrange(0, i as int) =~= params);
            assert(vals.subrange(0, i as int) =~= vals);
        }
        match self.execute_block(&func.body, local, depth - 1) {
            Ok(_) => Ok(Value::Nil),
            Err(x) => Err(x),
        }
    }
}

} // verus!

//! The evaluator: walks a statement sequence against a single mutable
//! name-to-integer store, collecting the printed values in order and
//! stopping at the first failing statement. Bindings made by earlier
//! successful `let` statements remain after a failure.

use vstd::prelude::*;
use vstd::hash_map::StringHashMap;

use crate::ast::BinOp;
use crate::ast::Expr;
use crate::ast::ExprModel;
use crate::ast::Stmt;
use crate::ast::StmtModel;
use crate::ast::stmts_view;

verus! {

/// An evaluation failure: an unbound variable reference, or an arithmetic
/// fault surfaced as a recoverable error instead of a crash.
#[derive(Debug, PartialEq, Clone)]
pub enum EvalError {
    UndefinedVariable(String),
    DivisionByZero,
    ArithmeticOverflow,
}

/// The mathematical model of an evaluation failure.
pub enum EvalErrorModel {
    UndefinedVariable(Seq<char>),
    DivisionByZero,
    ArithmeticOverflow,
}

impl View for EvalError {
    type V = EvalErrorModel;

    open spec fn view(&self) -> EvalErrorModel {
        match self {
            EvalError::UndefinedVariable(n) => EvalErrorModel::UndefinedVariable(n@),
            EvalError::DivisionByZero => EvalErrorModel::DivisionByZero,
            EvalError::ArithmeticOverflow => EvalErrorModel::ArithmeticOverflow,
        }
    }
}

/// Division truncating toward zero, as the machine division does.
pub open spec fn trunc_div(x: int, d: int) -> int {
    if x == 0 {
        0
    } else if x > 0 && d > 0 {
        x / d
    } else if x < 0 && d < 0 {
        (x * -1) / (d * -1)
    } else if x < 0 {
        ((x * -1) / d) * -1
    } else {
        (x / (d * -1)) * -1
    }
}

/// What one infix operator yields on two 64-bit values: the exact result
/// where it fits, division by zero and out-of-range results as errors.
pub open spec fn spec_apply_binop(op: BinOp, a: i64, b: i64) -> Result<i64, EvalErrorModel> {
    match op {
        BinOp::Plus => if i64::MIN <= a + b <= i64::MAX {
            Ok((a + b) as i64)
        } else {
            Err(EvalErrorModel::ArithmeticOverflow)
        },
        BinOp::Minus => if i64::MIN <= a - b <= i64::MAX {
            Ok((a - b) as i64)
        } else {
            Err(EvalErrorModel::ArithmeticOverflow)
        },
        BinOp::Times => if i64::MIN <= a * b <= i64::MAX {
            Ok((a * b) as i64)
        } else {
            Err(EvalErrorModel::ArithmeticOverflow)
        },
        BinOp::Divide => if b == 0 {
            Err(EvalErrorModel::DivisionByZero)
        } else if i64::MIN <= trunc_div(a as int, b as int) <= i64::MAX {
            Ok(trunc_div(a as int, b as int) as i64)
        } else {
            Err(EvalErrorModel::ArithmeticOverflow)
        },
    }
}

/// What an expression evaluates to under a store: literals are themselves,
/// identifiers are looked up, and an infix evaluates its left side fully,
/// then its right side, then applies the operator.
pub open spec fn spec_eval_expr(e: ExprModel, env: Map<Seq<char>, i64>) -> Result<
    i64,
    EvalErrorModel,
>
    decreases e,
{
    match e {
        ExprModel::Int(v) => Ok(v),
        ExprModel::Ident(name) => if env.contains_key(name) {
            Ok(env[name])
        } else {
            Err(EvalErrorModel::UndefinedVariable(name))
        },
        ExprModel::Infix(l, op, r) => match spec_eval_expr(*l, env) {
            Ok(a) => match spec_eval_expr(*r, env) {
                Ok(b) => spec_apply_binop(op, a, b),
                Err(er) => Err(er),
            },
            Err(er) => Err(er),
        },
    }
}

/// What one statement does to the store and the output: `Let` binds or
/// overwrites, `Expr` discards the value, `Print` appends it to the output.
/// A failing expression leaves store and output as they were.
pub open spec fn spec_eval_stmt(st: StmtModel, env: Map<Seq<char>, i64>, out: Seq<i64>) -> (
    Map<Seq<char>, i64>,
    Seq<i64>,
    Option<EvalErrorModel>,
) {
    match st {
        StmtModel::Let(name, e) => match spec_eval_expr(e, env) {
            Ok(v) => (env.insert(name, v), out, None),
            Err(er) => (env, out, Some(er)),
        },
        StmtModel::Expr(e) => match spec_eval_expr(e, env) {
            Ok(v) => (env, out, None),
            Err(er) => (env, out, Some(er)),
        },
        StmtModel::Print(e) => match spec_eval_expr(e, env) {
            Ok(v) => (env, out.push(v), None),
            Err(er) => (env, out, Some(er)),
        },
    }
}

/// What a statement sequence does, statement by statement, stopping at the
/// first failure and keeping everything done before it.
pub open spec fn spec_eval_stmts(sts: Seq<StmtModel>, env: Map<Seq<char>, i64>, out: Seq<i64>) -> (
    Map<Seq<char>, i64>,
    Seq<i64>,
    Option<EvalErrorModel>,
)
    decreases sts.len(),
{
    if sts.len() == 0 {
        (env, out, None)
    } else {
        let (env1, out1, err) = spec_eval_stmt(sts[0], env, out);
        match err {
            Some(er) => (env1, out1, Some(er)),
            None => spec_eval_stmts(sts.skip(1), env1, out1),
        }
    }
}

fn apply_binop(op: BinOp, a: i64, b: i64) -> (r: Result<i64, EvalError>)
    ensures
        (match spec_apply_binop(op, a, b) {
            Ok(v) => r matches Ok(x) && x == v,
            Err(er) => r matches Err(x) && x@ == er,
        }),
{
    match op {
        BinOp::Plus => match a.checked_add(b) {
            Some(v) => Ok(v),
            None => Err(EvalError::ArithmeticOverflow),
        },
        BinOp::Minus => match a.checked_sub(b) {
            Some(v) => Ok(v),
            None => Err(EvalError::ArithmeticOverflow),
        },
        BinOp::Times => match a.checked_mul(b) {
            Some(v) => Ok(v),
            None => Err(EvalError::ArithmeticOverflow),
        },
        BinOp::Divide => {
            if b == 0 {
                Err(EvalError::DivisionByZero)
            } else {
                match a.checked_div(b) {
                    Some(v) => Ok(v),
                    None => Err(EvalError::ArithmeticOverflow),
                }
            }
        },
    }
}

/// The evaluator: one mutable name-to-integer store, created empty, and the
/// values printed so far in order.
pub struct Evaluator {
    store: StringHashMap<i64>,
    output: Vec<i64>,
}

impl Evaluator {
    /// The model of the store: a map from names to values.
    pub closed spec fn env(self) -> Map<Seq<char>, i64> {
        self.store@
    }

    /// The model of the output sink: the printed values in order.
    pub closed spec fn out(self) -> Seq<i64> {
        self.output@
    }

    pub fn new() -> (e: Evaluator)
        ensures
            e.env() == Map::<Seq<char>, i64>::empty(),
            e.out() == Seq::<i64>::empty(),
    {
        Evaluator { store: StringHashMap::new(), output: Vec::new() }
    }

    /// The values printed so far, in execution order.
    pub fn output(&self) -> (r: &Vec<i64>)
        ensures
            r@ == self.out(),
    {
        &self.output
    }

    fn eval_expr(&self, expr: &Expr) -> (r: Result<i64, EvalError>)
        ensures
            (match spec_eval_expr(expr@, self.env()) {
                Ok(v) => r matches Ok(x) && x == v,
                Err(er) => r matches Err(x) && x@ == er,
            }),
        decreases expr,
    {
        match expr {
            Expr::Int(v) => Ok(*v),
            Expr::Ident(name) => match self.store.get(name.as_str()) {
                Some(v) => Ok(*v),
                None => Err(EvalError::UndefinedVariable(name.clone())),
            },
            Expr::Infix(l, op, r) => {
                let a = match self.eval_expr(&**l) {
                    Ok(v) => v,
                    Err(er) => {
                        return Err(er);
                    },
                };
                let b = match self.eval_expr(&**r) {
                    Ok(v) => v,
                    Err(er) => {
                        return Err(er);
                    },
                };
                apply_binop(*op, a, b)
            },
        }
    }

    fn eval_stmt(&mut self, stmt: &Stmt) -> (r: Result<(), EvalError>)
        ensures
            ({
                let (env2, out2, err) = spec_eval_stmt(stmt@, old(self).env(), old(self).out());
                &&& final(self).env() == env2
                &&& final(self).out() == out2
                &&& (match err {
                    None => r is Ok,
                    Some(er) => r matches Err(x) && x@ == er,
                })
            }),
    {
        match stmt {
            Stmt::Let(name, expr) => match self.eval_expr(expr) {
                Ok(v) => {
                    self.store.insert(name.clone(), v);
                    Ok(())
                },
                Err(er) => Err(er),
            },
            Stmt::Expr(expr) => match self.eval_expr(expr) {
                Ok(_) => Ok(()),
                Err(er) => Err(er),
            },
            Stmt::Print(expr) => match self.eval_expr(expr) {
                Ok(v) => {
                    self.output.push(v);
                    Ok(())
                },
                Err(er) => Err(er),
            },
        }
    }

    /// Run the statements in order against the store, appending each printed
    /// value to the output. Stops at the first failing statement; bindings
    /// and output produced before it remain.
    pub fn eval(&mut self, stmts: Vec<Stmt>) -> (r: Result<(), EvalError>)
        ensures
            ({
                let (env2, out2, err) = spec_eval_stmts(
                    stmts_view(stmts@),
                    old(self).env(),
                    old(self).out(),
                );
                &&& final(self).env() == env2
                &&& final(self).out() == out2
                &&& (match err {
                    None => r is Ok,
                    Some(er) => r matches Err(x) && x@ == er,
                })
            }),
    {
        let n = stmts.len();
        let mut i: usize = 0;
        proof {
            assert(stmts_view(stmts@).skip(0) =~= stmts_view(stmts@));
        }
        while i < n
            invariant
                i <= n,
                n == stmts@.len(),
                spec_eval_stmts(stmts_view(stmts@).skip(i as int), self.env(), self.out())
                    == spec_eval_stmts(stmts_view(stmts@), old(self).env(), old(self).out()),
            decreases n - i,
        {
            let ghost pre = stmts_view(stmts@).skip(i as int);
            proof {
                assert(pre[0] == stmts@[i as int]@);
                assert(pre.skip(1) =~= stmts_view(stmts@).skip(i as int + 1));
            }
            match self.eval_stmt(&stmts[i]) {
                Ok(_) => {},
                Err(er) => {
                    return Err(er);
                },
            }
            i = i + 1;
        }
        proof {
            assert(stmts_view(stmts@).skip(n as int) =~= Seq::<StmtModel>::empty());
        }
        Ok(())
    }
}

/// Referencing a name that was never bound fails with an `undefined
/// variable` error naming it.
pub proof fn lemma_eval_undefined_variable(name: Seq<char>, env: Map<Seq<char>, i64>)
    requires
        !env.contains_key(name),
    ensures
        spec_eval_expr(ExprModel::Ident(name), env) == Err::<i64, EvalErrorModel>(
            EvalErrorModel::UndefinedVariable(name),
        ),
{
}

/// Redefinition overwrites: two successive `let`s of one name leave the
/// store holding the second value under that name, with nothing printed.
pub proof fn lemma_let_redefinition(
    name: Seq<char>,
    e1: ExprModel,
    e2: ExprModel,
    v1: i64,
    v2: i64,
    env: Map<Seq<char>, i64>,
    out: Seq<i64>,
)
    requires
        spec_eval_expr(e1, env) == Ok::<i64, EvalErrorModel>(v1),
        spec_eval_expr(e2, env.insert(name, v1)) == Ok::<i64, EvalErrorModel>(v2),
    ensures
        spec_eval_stmts(seq![StmtModel::Let(name, e1), StmtModel::Let(name, e2)], env, out) == (
            env.insert(name, v2),
            out,
            None::<EvalErrorModel>,
        ),
{
    let s = seq![StmtModel::Let(name, e1), StmtModel::Let(name, e2)];
    let env1 = env.insert(name, v1);
    assert(s[0] == StmtModel::Let(name, e1));
    assert(spec_eval_stmt(s[0], env, out) == (env1, out, None::<EvalErrorModel>));
    let s2 = s.skip(1);
    assert(s2 =~= seq![StmtModel::Let(name, e2)]);
    assert(s2[0] == StmtModel::Let(name, e2));
    assert(spec_eval_stmt(s2[0], env1, out) == (env1.insert(name, v2), out, None::<EvalErrorModel>));
    assert(s2.skip(1) =~= Seq::<StmtModel>::empty());
    assert(spec_eval_stmts(Seq::<StmtModel>::empty(), env1.insert(name, v2), out) == (
        env1.insert(name, v2),
        out,
        None::<EvalErrorModel>,
    ));
    assert(spec_eval_stmts(s2, env1, out) == (env1.insert(name, v2), out, None::<EvalErrorModel>));
    assert(spec_eval_stmts(s, env, out) == (env1.insert(name, v2), out, None::<EvalErrorModel>));
    assert(env1.insert(name, v2) =~= env.insert(name, v2));
}

/// Dividing by zero fails with a division-by-zero error, whatever the
/// dividend: an infix division whose right side evaluates to zero errors
/// instead of crashing.
pub proof fn lemma_eval_division_by_zero(e: ExprModel, env: Map<Seq<char>, i64>, a: i64)
    requires
        e matches ExprModel::Infix(l, op, r) && op == BinOp::Divide && spec_eval_expr(*l, env)
            == Ok::<i64, EvalErrorModel>(a) && spec_eval_expr(*r, env) == Ok::<i64, EvalErrorModel>(
            0i64,
        ),
    ensures
        spec_eval_expr(e, env) == Err::<i64, EvalErrorModel>(EvalErrorModel::DivisionByZero),
{
}

} // verus!

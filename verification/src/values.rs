//! What the optimiser's expression rewriting keeps: the value of integer
//! and logical expressions, as compiled code computes it.
use vstd::prelude::*;
use crate::ast::{BinaryOp, SpecExpr, SpecLit, UnaryOp};
use crate::optimizer::{OptStats, SpecEntry, combine, compare_ints, fold, fold_reduce, identity};

verus! {

/// A value of an integer or logical expression.
pub enum Value {
    Int(i64),
    Bool(bool),
}

/// An operation on two values, as compiled code computes it: integer
/// arithmetic wraps around, a remainder without an `i64` value has none,
/// division and power (whose results are real) are left out.
pub open spec fn apply(op: BinaryOp, a: Value, b: Value) -> Option<Value> {
    match (a, b) {
        (Value::Int(x), Value::Int(y)) => match op {
            BinaryOp::Add => Some(Value::Int(x.wrapping_add(y))),
            BinaryOp::Sub => Some(Value::Int(x.wrapping_sub(y))),
            BinaryOp::Mul => Some(Value::Int(x.wrapping_mul(y))),
            BinaryOp::Mod => match x.checked_rem(y) {
                Some(v) => Some(Value::Int(v)),
                None => None,
            },
            BinaryOp::Div => None,
            BinaryOp::Power => None,
            BinaryOp::And => None,
            BinaryOp::Or => None,
            _ => Some(Value::Bool(compare_ints(op, x, y))),
        },
        (Value::Bool(x), Value::Bool(y)) => match op {
            BinaryOp::And => Some(Value::Bool(x && y)),
            BinaryOp::Or => Some(Value::Bool(x || y)),
            BinaryOp::Eq => Some(Value::Bool(x == y)),
            BinaryOp::Ne => Some(Value::Bool(x != y)),
            _ => None,
        },
        _ => None,
    }
}

/// The value of an expression made of integer and logical literals,
/// variables given by `env`, arithmetic, comparisons and logic; `None` for
/// anything else (reals, texts, calls, array elements, type errors).
pub open spec fn eval(e: SpecExpr, env: Map<Seq<char>, Value>) -> Option<Value>
    decreases e,
{
    match e {
        SpecExpr::Lit(SpecLit::Int(n)) => Some(Value::Int(n)),
        SpecExpr::Lit(SpecLit::Bool(b)) => Some(Value::Bool(b)),
        SpecExpr::Var(x) => if env.contains_key(x) {
            Some(env[x])
        } else {
            None
        },
        SpecExpr::Unary(UnaryOp::Neg, x) => match eval(*x, env) {
            Some(Value::Int(n)) => Some(Value::Int(0i64.wrapping_sub(n))),
            _ => None,
        },
        SpecExpr::Unary(UnaryOp::Not, x) => match eval(*x, env) {
            Some(Value::Bool(b)) => Some(Value::Bool(!b)),
            _ => None,
        },
        SpecExpr::Binary(l, op, r) => match (eval(*l, env), eval(*r, env)) {
            (Some(a), Some(b)) => apply(op, a, b),
            _ => None,
        },
        _ => None,
    }
}

proof fn lemma_wrapping_facts(x: i64)
    ensures
        x.wrapping_add(0) == x,
        0i64.wrapping_add(x) == x,
        x.wrapping_sub(0) == x,
        x.wrapping_mul(1) == x,
        1i64.wrapping_mul(x) == x,
        x.wrapping_mul(0) == 0,
        0i64.wrapping_mul(x) == 0,
        x.wrapping_mul(2) == x.wrapping_add(x),
        2i64.wrapping_mul(x) == x.wrapping_add(x),
        0i64.wrapping_sub(0i64.wrapping_sub(x)) == x,
{
    let r: int = 0x1_0000_0000_0000_0000;
    assert((x * 1) as int == x as int);
    assert((1 * x) as int == x as int);
    assert((x * 0) as int == 0);
    assert((0 * x) as int == 0);
    assert((x * 2) as int == 2 * x as int);
    assert((2 * x) as int == 2 * x as int);
    if x >= 0 {
        assert((x as int) % r == x as int);
    } else {
        assert((x as int) % r == x as int + r);
    }
    let d = 2 * (x as int);
    if d >= 0 {
        assert(d % r == d);
    } else if d >= -r + 1 {
        assert(d % r == d + r);
    } else {
        assert(d == -r);
        assert(d % r == 0);
    }
}

proof fn lemma_identity_keeps(l: SpecExpr, op: BinaryOp, r: SpecExpr, env: Map<Seq<char>, Value>)
    requires
        eval(SpecExpr::Binary(Box::new(l), op, Box::new(r)), env) is Some,
    ensures
        eval(identity(l, op, r), env) == eval(SpecExpr::Binary(Box::new(l), op, Box::new(r)), env),
{
    match (eval(l, env), eval(r, env)) {
        (Some(Value::Int(x)), Some(Value::Int(y))) => {
            lemma_wrapping_facts(x);
            lemma_wrapping_facts(y);
        },
        _ => {},
    }
}

proof fn lemma_combine_keeps(
    t: Seq<SpecEntry>,
    l: SpecExpr,
    op: BinaryOp,
    r: SpecExpr,
    s: OptStats,
    env: Map<Seq<char>, Value>,
)
    requires
        eval(SpecExpr::Binary(Box::new(l), op, Box::new(r)), env) is Some,
    ensures
        match combine(t, l, op, r, s) {
            Ok((e2, _)) => eval(e2, env) == eval(SpecExpr::Binary(Box::new(l), op, Box::new(r)), env),
            Err(_) => false,
        },
{
    match (l, r) {
        (SpecExpr::Lit(SpecLit::Int(a)), SpecExpr::Lit(SpecLit::Int(b))) => {
            assert(eval(l, env) == Some(Value::Int(a)));
            assert(eval(r, env) == Some(Value::Int(b)));
            assert(apply(op, Value::Int(a), Value::Int(b)) is Some);
            match op {
                BinaryOp::Add => {},
                BinaryOp::Sub => {},
                BinaryOp::Mul => {},
                BinaryOp::Mod => {},
                BinaryOp::Eq => {},
                BinaryOp::Ne => {},
                BinaryOp::Lt => {},
                BinaryOp::Le => {},
                BinaryOp::Gt => {},
                BinaryOp::Ge => {},
                _ => {},
            }
        },
        (SpecExpr::Lit(a), SpecExpr::Lit(b)) => {
            lemma_identity_keeps(l, op, r, env);
            assert(eval(l, env) is Some);
            assert(eval(r, env) is Some);
            match op {
                BinaryOp::And => {},
                BinaryOp::Or => {},
                BinaryOp::Eq => {},
                BinaryOp::Ne => {},
                _ => {},
            }
        },
        _ => {
            lemma_identity_keeps(l, op, r, env);
        },
    }
}

/// Constant folding keeps the value of every integer or logical
/// expression, and such an expression never needs a real result.
pub proof fn law_fold_keeps_value(e: SpecExpr, t: Seq<SpecEntry>, s: OptStats, env: Map<Seq<char>, Value>)
    requires
        eval(e, env) is Some,
    ensures
        match fold(e, t, s) {
            Ok((e2, _)) => eval(e2, env) == eval(e, env),
            Err(_) => false,
        },
    decreases e,
{
    match e {
        SpecExpr::Binary(l, op, r) => {
            law_fold_keeps_value(*l, t, s, env);
            match fold(*l, t, s) {
                Ok((l2, s1)) => {
                    law_fold_keeps_value(*r, t, s1, env);
                    match fold(*r, t, s1) {
                        Ok((r2, s2)) => {
                            lemma_combine_keeps(t, l2, op, r2, s2, env);
                        },
                        Err(_) => {},
                    }
                },
                Err(_) => {},
            }
        },
        SpecExpr::Unary(op, x) => {
            law_fold_keeps_value(*x, t, s, env);
            match fold(*x, t, s) {
                Ok((x2, s1)) => {
                    match eval(x2, env) {
                        Some(Value::Int(n)) => {
                            lemma_wrapping_facts(n);
                        },
                        _ => {},
                    }
                    match x2 {
                        SpecExpr::Unary(_, y) => {
                            match eval(*y, env) {
                                Some(Value::Int(n)) => {
                                    lemma_wrapping_facts(n);
                                },
                                _ => {},
                            }
                        },
                        _ => {},
                    }
                },
                Err(_) => {},
            }
        },
        _ => {},
    }
}

/// Strength reduction after folding keeps the value of every integer or
/// logical expression.
pub proof fn law_fold_reduce_keeps_value(
    e: SpecExpr,
    t: Seq<SpecEntry>,
    s: OptStats,
    env: Map<Seq<char>, Value>,
)
    requires
        eval(e, env) is Some,
    ensures
        match fold_reduce(e, t, s) {
            Ok((e2, _)) => eval(e2, env) == eval(e, env),
            Err(_) => false,
        },
{
    law_fold_keeps_value(e, t, s, env);
    match fold(e, t, s) {
        Ok((e1, _)) => {
            match e1 {
                SpecExpr::Binary(l, _, r) => {
                    match (eval(*l, env), eval(*r, env)) {
                        (Some(Value::Int(x)), Some(Value::Int(y))) => {
                            lemma_wrapping_facts(x);
                            lemma_wrapping_facts(y);
                        },
                        _ => {},
                    }
                },
                _ => {},
            }
        },
        Err(_) => {},
    }
}


} // verus!

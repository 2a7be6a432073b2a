use psc::ast::{BinaryOp, Expression, Literal, Program, Statement, UnaryOp};
use psc::optimizer::{
    eliminate_dead_code, fold_expr, negate_real_text, optimize, propagate_constants, strength_reduce,
    OptStats, RealTable,
};

fn lit_int(k: i64) -> Expression {
    Expression::Literal(Literal::Integer(k))
}

fn lit_real(t: &str) -> Expression {
    Expression::Literal(Literal::Real(t.to_string()))
}

fn var(n: &str) -> Expression {
    Expression::Variable(n.to_string())
}

fn bin(l: Expression, op: BinaryOp, r: Expression) -> Expression {
    Expression::Binary { left: Box::new(l), op, right: Box::new(r) }
}

fn un(op: UnaryOp, e: Expression) -> Expression {
    Expression::Unary { op, expr: Box::new(e) }
}

fn is_int(e: &Expression, k: i64) -> bool {
    matches!(e, Expression::Literal(Literal::Integer(n)) if *n == k)
}

#[test]
fn folds_integer_arithmetic() {
    let t = RealTable::new();
    let mut s = OptStats::default();
    let e = fold_expr(&bin(lit_int(2), BinaryOp::Add, lit_int(3)), &t, &mut s).ok().unwrap();
    assert!(is_int(&e, 5));
    assert_eq!(s.constants_folded, 1);
    let e = fold_expr(&bin(bin(lit_int(1), BinaryOp::Add, lit_int(2)), BinaryOp::Mul, var("x")), &t, &mut s).ok().unwrap();
    assert!(matches!(e, Expression::Binary { left, op: BinaryOp::Mul, .. } if is_int(&left, 3)));
    assert_eq!(s.constants_folded, 2);
    let e = fold_expr(&bin(lit_int(7), BinaryOp::Mod, lit_int(2)), &t, &mut s).ok().unwrap();
    assert!(is_int(&e, 1));
    let e = fold_expr(&bin(lit_int(i64::MAX), BinaryOp::Add, lit_int(1)), &t, &mut s).ok().unwrap();
    assert!(is_int(&e, i64::MIN));
    let e = fold_expr(&bin(lit_int(3), BinaryOp::Lt, lit_int(4)), &t, &mut s).ok().unwrap();
    assert!(matches!(e, Expression::Literal(Literal::Boolean(true))));
}

#[test]
fn remainder_by_zero_is_left_alone() {
    let t = RealTable::new();
    let mut s = OptStats::default();
    let e = fold_expr(&bin(lit_int(7), BinaryOp::Mod, lit_int(0)), &t, &mut s).ok().unwrap();
    assert!(matches!(e, Expression::Binary { op: BinaryOp::Mod, .. }));
    assert_eq!(s.constants_folded, 0);
}

#[test]
fn real_operations_are_asked_of_the_table() {
    let mut t = RealTable::new();
    let mut s = OptStats::default();
    let e = bin(lit_real("2.5"), BinaryOp::Add, lit_int(1));
    let q = fold_expr(&e, &t, &mut s).err().unwrap();
    assert_eq!(q.op, BinaryOp::Add);
    assert!(matches!(&q.left, Literal::Real(x) if x == "2.5"));
    assert!(matches!(&q.right, Literal::Integer(1)));
    assert_eq!(s.constants_folded, 0);
    t.add(q, Some(Literal::Real("3.5".to_string())));
    let r = fold_expr(&e, &t, &mut s).ok().unwrap();
    assert!(matches!(r, Expression::Literal(Literal::Real(x)) if x == "3.5"));
    assert_eq!(s.constants_folded, 1);
}

#[test]
fn integer_division_is_asked_of_the_table() {
    let t = RealTable::new();
    let mut s = OptStats::default();
    let q = fold_expr(&bin(lit_int(7), BinaryOp::Div, lit_int(2)), &t, &mut s).err().unwrap();
    assert_eq!(q.op, BinaryOp::Div);
    let e = fold_expr(&bin(lit_int(7), BinaryOp::Div, lit_int(0)), &t, &mut s).ok().unwrap();
    assert!(matches!(e, Expression::Binary { op: BinaryOp::Div, .. }));
}

#[test]
fn folds_prefix_operators() {
    let t = RealTable::new();
    let mut s = OptStats::default();
    let e = fold_expr(&un(UnaryOp::Neg, lit_real("2.5")), &t, &mut s).ok().unwrap();
    assert!(matches!(e, Expression::Literal(Literal::Real(x)) if x == "-2.5"));
    let e = fold_expr(&un(UnaryOp::Neg, un(UnaryOp::Neg, var("x"))), &t, &mut s).ok().unwrap();
    assert!(matches!(e, Expression::Variable(n) if n == "x"));
    let e = fold_expr(&un(UnaryOp::Not, Expression::Literal(Literal::Boolean(true))), &t, &mut s).ok().unwrap();
    assert!(matches!(e, Expression::Literal(Literal::Boolean(false))));
    let e = fold_expr(&un(UnaryOp::Neg, lit_int(i64::MIN)), &t, &mut s).ok().unwrap();
    assert!(is_int(&e, i64::MIN));
    assert_eq!(s.constants_folded, 4);
}

#[test]
fn neutral_elements_are_dropped_without_counting() {
    let t = RealTable::new();
    let mut s = OptStats::default();
    let e = fold_expr(&bin(var("x"), BinaryOp::Add, lit_int(0)), &t, &mut s).ok().unwrap();
    assert!(matches!(e, Expression::Variable(_)));
    let e = fold_expr(&bin(lit_int(0), BinaryOp::Mul, var("x")), &t, &mut s).ok().unwrap();
    assert!(is_int(&e, 0));
    assert_eq!(s.constants_folded, 0);
}

#[test]
fn strength_reduction() {
    let mut s = OptStats::default();
    let e = strength_reduce(bin(var("x"), BinaryOp::Mul, lit_int(2)), &mut s);
    assert!(matches!(e, Expression::Binary { left, op: BinaryOp::Add, right } if matches!(*left, Expression::Variable(_)) && matches!(*right, Expression::Variable(_))));
    let e = strength_reduce(bin(var("x"), BinaryOp::Power, lit_int(2)), &mut s);
    assert!(matches!(e, Expression::Binary { op: BinaryOp::Mul, .. }));
    let e = strength_reduce(bin(var("x"), BinaryOp::Power, lit_int(0)), &mut s);
    assert!(matches!(e, Expression::Literal(Literal::Real(x)) if x == "1.0"));
    let e = strength_reduce(bin(var("x"), BinaryOp::Power, lit_int(1)), &mut s);
    assert!(matches!(e, Expression::Variable(_)));
    let e = strength_reduce(bin(var("x"), BinaryOp::Mul, lit_int(3)), &mut s);
    assert!(matches!(e, Expression::Binary { op: BinaryOp::Mul, .. }));
    assert_eq!(s.strength_reductions, 4);
}

#[test]
fn dead_code_after_endless_loop() {
    let stmts = vec![
        Statement::While { condition: Expression::Literal(Literal::Boolean(true)), body: vec![] },
        Statement::Write(vec![lit_int(1)], true),
    ];
    let out = eliminate_dead_code(stmts);
    assert_eq!(out.len(), 1);
    let stmts = vec![
        Statement::If { condition: Expression::Literal(Literal::Boolean(false)), then_branch: vec![], else_branch: None },
        Statement::Write(vec![lit_int(1)], true),
    ];
    let out = eliminate_dead_code(stmts);
    assert_eq!(out.len(), 1);
    assert!(matches!(&out[0], Statement::Write(..)));
}

#[test]
fn constants_propagate_through_straight_code() {
    let mut s = OptStats::default();
    let stmts = vec![
        Statement::Assign { target: "a".to_string(), value: lit_int(5) },
        Statement::Assign { target: "b".to_string(), value: bin(var("a"), BinaryOp::Add, lit_int(1)) },
        Statement::Read(vec![var("a")]),
        Statement::Write(vec![var("a")], true),
    ];
    let out = propagate_constants(stmts, &mut s);
    assert!(matches!(&out[1], Statement::Assign { value: Expression::Binary { left, .. }, .. } if is_int(left, 5)));
    assert!(matches!(&out[3], Statement::Write(es, _) if matches!(&es[0], Expression::Variable(_))));
    assert_eq!(s.propagations, 1);
}

#[test]
fn negation_of_real_text() {
    assert_eq!(negate_real_text(&"-1.5".to_string()), "1.5");
    assert_eq!(negate_real_text(&"2".to_string()), "-2");
}

#[test]
fn summary_of_counts() {
    let s = OptStats::default();
    assert_eq!(
        s.summary(),
        "constantes plegadas: 0, código muerto eliminado: 0, reducciones de fuerza: 0, propagaciones: 0"
    );
    let s = OptStats { constants_folded: 12, dead_stmts_removed: 3, strength_reductions: 0, propagations: 105 };
    assert_eq!(
        s.summary(),
        "constantes plegadas: 12, código muerto eliminado: 3, reducciones de fuerza: 0, propagaciones: 105"
    );
}

#[derive(Debug, PartialEq)]
enum Val {
    I(i64),
    B(bool),
}

fn eval(e: &Expression, x: i64) -> Option<Val> {
    match e {
        Expression::Literal(Literal::Integer(n)) => Some(Val::I(*n)),
        Expression::Literal(Literal::Boolean(b)) => Some(Val::B(*b)),
        Expression::Variable(_) => Some(Val::I(x)),
        Expression::Unary { op: UnaryOp::Neg, expr } => match eval(expr, x)? {
            Val::I(n) => Some(Val::I(0i64.wrapping_sub(n))),
            _ => None,
        },
        Expression::Unary { op: UnaryOp::Not, expr } => match eval(expr, x)? {
            Val::B(b) => Some(Val::B(!b)),
            _ => None,
        },
        Expression::Binary { left, op, right } => match (eval(left, x)?, eval(right, x)?) {
            (Val::I(a), Val::I(b)) => match op {
                BinaryOp::Add => Some(Val::I(a.wrapping_add(b))),
                BinaryOp::Sub => Some(Val::I(a.wrapping_sub(b))),
                BinaryOp::Mul => Some(Val::I(a.wrapping_mul(b))),
                BinaryOp::Mod => a.checked_rem(b).map(Val::I),
                BinaryOp::Eq => Some(Val::B(a == b)),
                BinaryOp::Lt => Some(Val::B(a < b)),
                _ => None,
            },
            (Val::B(a), Val::B(b)) => match op {
                BinaryOp::And => Some(Val::B(a && b)),
                BinaryOp::Or => Some(Val::B(a || b)),
                _ => None,
            },
            _ => None,
        },
        _ => None,
    }
}

#[test]
fn folding_and_reduction_keep_values() {
    let t = RealTable::new();
    let exprs = vec![
        bin(bin(bin(var("x"), BinaryOp::Add, lit_int(0)), BinaryOp::Mul, lit_int(1)), BinaryOp::Sub, bin(lit_int(3), BinaryOp::Mul, lit_int(4))),
        bin(un(UnaryOp::Neg, un(UnaryOp::Neg, var("x"))), BinaryOp::Mul, lit_int(2)),
        bin(lit_int(2), BinaryOp::Mul, bin(var("x"), BinaryOp::Mod, lit_int(7))),
        bin(bin(var("x"), BinaryOp::Lt, lit_int(10)), BinaryOp::Or, un(UnaryOp::Not, Expression::Literal(Literal::Boolean(true)))),
        bin(bin(lit_int(i64::MAX), BinaryOp::Add, var("x")), BinaryOp::Mul, lit_int(0)),
    ];
    for e in &exprs {
        for x in [0i64, 5, -9, i64::MAX, i64::MIN] {
            let before = eval(e, x);
            assert!(before.is_some());
            let mut s = OptStats::default();
            let folded = fold_expr(e, &t, &mut s).ok().unwrap();
            assert_eq!(eval(&folded, x), before);
            let reduced = strength_reduce(folded, &mut s);
            assert_eq!(eval(&reduced, x), before);
        }
    }
}

#[test]
fn dead_code_after_return() {
    let stmts = vec![Statement::Return(None), Statement::Write(vec![lit_int(1)], true)];
    let out = eliminate_dead_code(stmts);
    assert_eq!(out.len(), 1);
    assert!(matches!(&out[0], Statement::Return(None)));
    let stmts = vec![Statement::Write(vec![lit_int(1)], true), Statement::Return(Some(lit_int(2)))];
    let out = eliminate_dead_code(stmts);
    assert_eq!(out.len(), 2);
}

#[test]
fn call_arguments_are_not_replaced() {
    let mut s = OptStats::default();
    let stmts = vec![
        Statement::Assign { target: "x".to_string(), value: lit_int(1) },
        Statement::Call { function: "F".to_string(), args: vec![var("x")] },
        Statement::Write(vec![var("x")], true),
    ];
    let out = propagate_constants(stmts, &mut s);
    assert!(matches!(&out[1], Statement::Call { args, .. } if matches!(&args[0], Expression::Variable(n) if n == "x")));
    assert!(matches!(&out[2], Statement::Write(es, _) if matches!(&es[0], Expression::Variable(n) if n == "x")));
    assert_eq!(s.propagations, 0);
}

#[test]
fn loop_conditions_keep_their_variables() {
    let mut p = Program {
        name: "P".to_string(),
        functions: vec![],
        main_body: vec![
            Statement::Assign { target: "x".to_string(), value: lit_int(0) },
            Statement::While {
                condition: bin(var("x"), BinaryOp::Lt, lit_int(3)),
                body: vec![Statement::Assign { target: "x".to_string(), value: bin(var("x"), BinaryOp::Add, lit_int(1)) }],
            },
            Statement::Assign { target: "y".to_string(), value: lit_int(4) },
            Statement::Repeat { body: vec![], until: bin(var("y"), BinaryOp::Eq, lit_int(4)) },
        ],
    };
    let mut s = OptStats::default();
    assert!(optimize(&mut p, &mut s, &RealTable::new()).is_ok());
    assert!(matches!(&p.main_body[1], Statement::While { condition: Expression::Binary { left, op: BinaryOp::Lt, right }, .. }
        if matches!(&**left, Expression::Variable(n) if n == "x") && is_int(right, 3)));
    assert!(matches!(&p.main_body[3], Statement::Repeat { until: Expression::Binary { left, op: BinaryOp::Eq, .. }, .. }
        if matches!(&**left, Expression::Variable(n) if n == "y")));
    assert_eq!(s.propagations, 0);
}

//! Semantic analysis: type checking of expressions and statements,
//! declaration of variables, and the checks on function return variables.
use vstd::prelude::*;
use crate::ast::{
    exprs_view, expr_view, lemma_exprs_view, lemma_stmts_view, lemma_cases_view, stmts_view,
    stmt_view, cases_view, strings_view, opt_expr_view, params_view, opt_type_view,
    opt_string_view, functions_view, BinaryOp, Expression, Function, Literal, Program, SpecExpr,
    SpecFunction, SpecLit, SpecProgram, SpecStmt, SpecType, Statement, Type, UnaryOp,
    spec_type_name,
};
use crate::symbols::{SpecSymbol, SpecTable, Symbol, SymbolTable, builtin_scope, law_insert_keeps_other_names, sig_view};
use crate::text::{cat, cat3, cat5, cat7, decimal, lowercase, to_lowercase, usize_to_string};

verus! {

broadcast use vstd::std_specs::vec::group_vec_axioms;

// ---------------------------------------------------------------------
// Type rules
// ---------------------------------------------------------------------

/// May a value of type `value` be stored where `target` is expected?
/// Integers widen to reals, a real may be stored in an integer, and
/// integers and booleans are interchangeable (0 is false).
pub open spec fn compatible(target: SpecType, value: SpecType) -> bool {
    ||| target == value
    ||| target == SpecType::Real && value == SpecType::Integer
    ||| target == SpecType::Integer && value == SpecType::Real
    ||| target == SpecType::Boolean && value == SpecType::Integer
    ||| target == SpecType::Integer && value == SpecType::Boolean
}

pub open spec fn is_numeric(t: SpecType) -> bool {
    t == SpecType::Integer || t == SpecType::Real
}

pub open spec fn is_condition_type(t: SpecType) -> bool {
    t == SpecType::Boolean || t == SpecType::Integer
}

pub open spec fn lit_type(l: SpecLit) -> SpecType {
    match l {
        SpecLit::Int(_) => SpecType::Integer,
        SpecLit::Real(_) => SpecType::Real,
        SpecLit::Bool(_) => SpecType::Boolean,
        SpecLit::Str(_) => SpecType::Str,
    }
}

/// The name `{:?}` gives an operator.
pub open spec fn op_debug(op: BinaryOp) -> Seq<char> {
    match op {
        BinaryOp::Add => "Add"@,
        BinaryOp::Sub => "Sub"@,
        BinaryOp::Mul => "Mul"@,
        BinaryOp::Div => "Div"@,
        BinaryOp::Mod => "Mod"@,
        BinaryOp::Power => "Power"@,
        BinaryOp::Eq => "Eq"@,
        BinaryOp::Ne => "Ne"@,
        BinaryOp::Lt => "Lt"@,
        BinaryOp::Le => "Le"@,
        BinaryOp::Gt => "Gt"@,
        BinaryOp::Ge => "Ge"@,
        BinaryOp::And => "And"@,
        BinaryOp::Or => "Or"@,
    }
}

pub open spec fn is_arith(op: BinaryOp) -> bool {
    op == BinaryOp::Add || op == BinaryOp::Sub || op == BinaryOp::Mul || op == BinaryOp::Div
        || op == BinaryOp::Mod || op == BinaryOp::Power
}

pub open spec fn is_ordering(op: BinaryOp) -> bool {
    op == BinaryOp::Lt || op == BinaryOp::Le || op == BinaryOp::Gt || op == BinaryOp::Ge
}

pub open spec fn tn(t: SpecType) -> Seq<char> {
    spec_type_name(t)
}

// Messages.
pub open spec fn msg_is_function(name: Seq<char>) -> Seq<char> {
    "'"@ + name + "' es una función, no una variable"@
}

pub open spec fn msg_var_undefined(name: Seq<char>) -> Seq<char> {
    "Variable '"@ + name + "' no definida"@
}

pub open spec fn msg_arith(op: BinaryOp, a: SpecType, b: SpecType) -> Seq<char> {
    "Operación aritmética "@ + op_debug(op) + " entre tipos incompatibles: "@ + tn(a) + " y "@ + tn(b)
}

pub open spec fn msg_compare(op: BinaryOp, a: SpecType, b: SpecType) -> Seq<char> {
    "Comparación "@ + op_debug(op) + " entre tipos incompatibles: "@ + tn(a) + " y "@ + tn(b)
}

pub open spec fn msg_no_compare(a: SpecType, b: SpecType) -> Seq<char> {
    "No se puede comparar "@ + tn(a) + " con "@ + tn(b)
}

pub open spec fn msg_logic_left(op: BinaryOp, a: SpecType) -> Seq<char> {
    "Operando izquierdo de "@ + op_debug(op) + " debe ser Logico, encontrado "@ + tn(a)
}

pub open spec fn msg_logic_right(op: BinaryOp, b: SpecType) -> Seq<char> {
    "Operando derecho de "@ + op_debug(op) + " debe ser Logico, encontrado "@ + tn(b)
}

pub open spec fn msg_neg(t: SpecType) -> Seq<char> {
    "Negación aplicada a tipo no numérico: "@ + tn(t)
}

pub open spec fn msg_not(t: SpecType) -> Seq<char> {
    "Operador NO aplicado a tipo no logico: "@ + tn(t)
}

pub open spec fn msg_arity(f: Seq<char>, expected: nat, found: nat) -> Seq<char> {
    "Llamada a '"@ + f + "': esperados "@ + decimal(expected) + " argumentos, encontrados "@
        + decimal(found)
}

pub open spec fn msg_by_ref(f: Seq<char>, pos: nat) -> Seq<char> {
    "Llamada a '"@ + f + "': argumento "@ + decimal(pos) + " es por referencia y debe ser una variable"@
}

pub open spec fn msg_arg_type(f: Seq<char>, pos: nat, expected: SpecType, found: SpecType) -> Seq<char> {
    "Llamada a '"@ + f + "': argumento "@ + decimal(pos) + " esperado "@ + tn(expected)
        + ", encontrado "@ + tn(found)
}

pub open spec fn msg_fn_undefined(f: Seq<char>) -> Seq<char> {
    "Función '"@ + f + "' no definida"@
}

pub open spec fn msg_array_undefined(a: Seq<char>) -> Seq<char> {
    "Arreglo '"@ + a + "' no definido"@
}

pub open spec fn msg_index_numeric(t: SpecType) -> Seq<char> {
    "Índice de arreglo debe ser numérico, encontrado "@ + tn(t)
}

pub open spec fn msg_assign_types(target: Seq<char>, expected: SpecType, found: SpecType) -> Seq<char> {
    "Tipos incompatibles en asignación a '"@ + target + "': esperado "@ + tn(expected)
        + ", encontrado "@ + tn(found)
}

pub open spec fn msg_index_assign_undefined(a: Seq<char>) -> Seq<char> {
    "Arreglo '"@ + a + "' no definido para asignación por índice"@
}

pub open spec fn msg_cond_if(t: SpecType) -> Seq<char> {
    "La condición del Si debe ser Logico, encontrado "@ + tn(t)
}

pub open spec fn msg_cond_while(t: SpecType) -> Seq<char> {
    "La condición del Mientras debe ser Logico, encontrado "@ + tn(t)
}

pub open spec fn msg_cond_repeat(t: SpecType) -> Seq<char> {
    "La condición del Repetir Hasta Que debe ser Logico, encontrado "@ + tn(t)
}

pub open spec fn msg_for_var(v: Seq<char>) -> Seq<char> {
    "La variable del Para '"@ + v + "' debe ser numérica"@
}

pub open spec fn msg_read_undefined(a: Seq<char>) -> Seq<char> {
    "Arreglo '"@ + a + "' no definido para Leer"@
}

pub open spec fn msg_read_invalid() -> Seq<char> {
    "Destino inválido para Leer"@
}

pub open spec fn msg_proc_undefined(f: Seq<char>) -> Seq<char> {
    "Función o procedimiento '"@ + f + "' no definido"@
}

pub open spec fn msg_wait(t: SpecType) -> Seq<char> {
    "La duración de Esperar debe ser numérica, encontrado "@ + tn(t)
}

pub open spec fn msg_in_function(f: Seq<char>, e: Seq<char>) -> Seq<char> {
    "Función '"@ + f + "': "@ + e
}

pub open spec fn msg_return_never(f: Seq<char>, t: SpecType, v: Seq<char>) -> Seq<char> {
    "Función '"@ + f + "': tiene tipo de retorno "@ + tn(t) + " pero la variable '"@ + v
        + "' nunca se asigna"@
}

pub open spec fn msg_return_some_paths(f: Seq<char>, v: Seq<char>) -> Seq<char> {
    "Advertencia: Función '"@ + f + "': la variable de retorno '"@ + v
        + "' no se asigna en todos los caminos"@
}

pub open spec fn one_if(c: bool, m: Seq<char>) -> Seq<Seq<char>> {
    if c {
        seq![m]
    } else {
        Seq::empty()
    }
}

pub open spec fn opt_msg(m: Option<Seq<char>>) -> Seq<Seq<char>> {
    match m {
        Some(x) => seq![x],
        None => Seq::empty(),
    }
}

/// Type and messages of a binary operation on operands of known types.
pub open spec fn binary_type(op: BinaryOp, a: SpecType, b: SpecType) -> (Option<SpecType>, Seq<Seq<char>>) {
    if is_arith(op) {
        if op == BinaryOp::Add && (a == SpecType::Str || b == SpecType::Str) {
            (Some(SpecType::Str), Seq::empty())
        } else if is_numeric(a) && is_numeric(b) {
            if a == SpecType::Real || b == SpecType::Real || op == BinaryOp::Div || op
                == BinaryOp::Power {
                (Some(SpecType::Real), Seq::empty())
            } else {
                (Some(SpecType::Integer), Seq::empty())
            }
        } else {
            (None, seq![msg_arith(op, a, b)])
        }
    } else if op == BinaryOp::Eq || op == BinaryOp::Ne {
        if compatible(a, b) || compatible(b, a) {
            (Some(SpecType::Boolean), Seq::empty())
        } else {
            (None, seq![msg_compare(op, a, b)])
        }
    } else if is_ordering(op) {
        if (a == SpecType::Str && b != SpecType::Str) || (a != SpecType::Str && b == SpecType::Str) {
            (None, seq![msg_no_compare(a, b)])
        } else if (is_numeric(a) || a == SpecType::Str) && (is_numeric(b) || b == SpecType::Str) {
            (Some(SpecType::Boolean), Seq::empty())
        } else {
            (None, seq![msg_compare(op, a, b)])
        }
    } else {
        (
            if a == SpecType::Boolean && b == SpecType::Boolean {
                Some(SpecType::Boolean)
            } else {
                None
            },
            one_if(a != SpecType::Boolean, msg_logic_left(op, a)) + one_if(
                b != SpecType::Boolean,
                msg_logic_right(op, b),
            ),
        )
    }
}

pub open spec fn unary_type(op: UnaryOp, t: SpecType) -> (Option<SpecType>, Seq<Seq<char>>) {
    match op {
        UnaryOp::Neg => if is_numeric(t) {
            (Some(t), Seq::empty())
        } else {
            (None, seq![msg_neg(t)])
        },
        UnaryOp::Not => if t == SpecType::Boolean {
            (Some(SpecType::Boolean), Seq::empty())
        } else {
            (None, seq![msg_not(t)])
        },
    }
}

pub open spec fn is_place(e: SpecExpr) -> bool {
    e is Var || e is Index
}

/// The inferred type of an expression and the messages its check reports,
/// in order.
pub open spec fn check_expr(e: SpecExpr, st: SpecTable) -> (Option<SpecType>, Seq<Seq<char>>)
    decreases e, 0nat,
{
    match e {
        SpecExpr::Lit(l) => (Some(lit_type(l)), Seq::empty()),
        SpecExpr::Var(name) => match st.lookup(name) {
            Some(SpecSymbol::Variable(ty)) => (Some(ty), Seq::empty()),
            Some(_) => (None, seq![msg_is_function(name)]),
            None => (None, seq![msg_var_undefined(name)]),
        },
        SpecExpr::Binary(l, op, r) => {
            let (lt, le) = check_expr(*l, st);
            let (rt, re) = check_expr(*r, st);
            match (lt, rt) {
                (Some(a), Some(b)) => (binary_type(op, a, b).0, le + re + binary_type(op, a, b).1),
                _ => (None, le + re),
            }
        },
        SpecExpr::Unary(op, inner) => {
            let (t, es) = check_expr(*inner, st);
            match t {
                Some(ty) => (unary_type(op, ty).0, es + unary_type(op, ty).1),
                None => (None, es),
            }
        },
        SpecExpr::Call(f, args) => match st.lookup(lowercase(f)) {
            Some(SpecSymbol::Function(params, ret)) => (ret, call_errors(f, args, params, st)),
            _ => (None, seq![msg_fn_undefined(f)]),
        },
        SpecExpr::Index(a, idx) => (
            Some(
                match st.array_type(a) {
                    Some(t) => t,
                    None => SpecType::Integer,
                },
            ),
            one_if(st.lookup(a) is None, msg_array_undefined(a)) + index_errors(idx, st),
        ),
    }
}

/// Messages of the index expressions of an array access.
pub open spec fn index_errors(idx: Seq<SpecExpr>, st: SpecTable) -> Seq<Seq<char>>
    decreases idx, 0nat,
{
    if idx.len() == 0 {
        Seq::empty()
    } else {
        index_errors(idx.drop_last(), st) + index_error(idx.last(), st)
    }
}

pub open spec fn index_error(i: SpecExpr, st: SpecTable) -> Seq<Seq<char>>
    decreases i, 1nat,
{
    let (t, es) = check_expr(i, st);
    es + match t {
        Some(ty) => one_if(!is_numeric(ty), msg_index_numeric(ty)),
        None => Seq::empty(),
    }
}

/// Messages of a call of `f` with `args` to a function with `params`.
pub open spec fn call_errors(
    f: Seq<char>,
    args: Seq<SpecExpr>,
    params: Seq<(SpecType, bool)>,
    st: SpecTable,
) -> Seq<Seq<char>>
    decreases args, 1nat,
{
    if args.len() != params.len() {
        seq![msg_arity(f, params.len(), args.len())]
    } else {
        arg_errors(f, args, params, st)
    }
}

pub open spec fn arg_errors(
    f: Seq<char>,
    args: Seq<SpecExpr>,
    params: Seq<(SpecType, bool)>,
    st: SpecTable,
) -> Seq<Seq<char>>
    decreases args, 0nat,
{
    if args.len() == 0 {
        Seq::empty()
    } else {
        arg_errors(f, args.drop_last(), params, st) + arg_error(
            f,
            args.last(),
            params[args.len() - 1],
            args.len(),
            st,
        )
    }
}

pub open spec fn arg_error(
    f: Seq<char>,
    a: SpecExpr,
    param: (SpecType, bool),
    pos: nat,
    st: SpecTable,
) -> Seq<Seq<char>>
    decreases a, 1nat,
{
    let (t, es) = check_expr(a, st);
    one_if(param.1 && !is_place(a), msg_by_ref(f, pos)) + es + match t {
        Some(ty) => one_if(!compatible(param.0, ty), msg_arg_type(f, pos, param.0, ty)),
        None => Seq::empty(),
    }
}

/// Messages of checking each expression of a list, whatever their types.
pub open spec fn exprs_errors(es: Seq<SpecExpr>, st: SpecTable) -> Seq<Seq<char>>
    decreases es.len(),
{
    if es.len() == 0 {
        Seq::empty()
    } else {
        exprs_errors(es.drop_last(), st) + check_expr(es.last(), st).1
    }
}

// ---------------------------------------------------------------------
// Statements
// ---------------------------------------------------------------------

/// Messages of checking a condition whose type must be logical (or integer).
pub open spec fn cond_errors(c: SpecExpr, st: SpecTable, kind: CondKind) -> Seq<Seq<char>> {
    let (t, es) = check_expr(c, st);
    es + match t {
        Some(ty) => one_if(!is_condition_type(ty), msg_cond(kind, ty)),
        None => Seq::empty(),
    }
}

/// The statement whose condition is checked.
#[derive(Clone, Copy)]
pub enum CondKind {
    If,
    While,
    Repeat,
}

pub open spec fn msg_cond(kind: CondKind, t: SpecType) -> Seq<char> {
    match kind {
        CondKind::If => msg_cond_if(t),
        CondKind::While => msg_cond_while(t),
        CondKind::Repeat => msg_cond_repeat(t),
    }
}

/// Declares the variables of a `Definir` that no scope declares yet.
pub open spec fn define_vars(vars: Seq<Seq<char>>, ty: SpecType, st: SpecTable) -> (SpecTable, Seq<Seq<char>>)
    decreases vars.len(),
{
    if vars.len() == 0 {
        (st, Seq::empty())
    } else {
        let (st1, e1) = define_vars(vars.drop_last(), ty, st);
        let v = vars.last();
        if st1.lookup(v) is None {
            let (st2, m) = st1.insert(v, SpecSymbol::Variable(ty));
            (st2, e1 + opt_msg(m))
        } else {
            (st1, e1)
        }
    }
}

/// The targets of a `Leer`, one after the other.
pub open spec fn read_targets(ts: Seq<SpecExpr>, st: SpecTable) -> (SpecTable, Seq<Seq<char>>)
    decreases ts.len(),
{
    if ts.len() == 0 {
        (st, Seq::empty())
    } else {
        let (st1, e1) = read_targets(ts.drop_last(), st);
        let (st2, e2) = read_target(ts.last(), st1);
        (st2, e1 + e2)
    }
}

pub open spec fn read_target(t: SpecExpr, st: SpecTable) -> (SpecTable, Seq<Seq<char>>) {
    match t {
        SpecExpr::Var(v) => if st.lookup(v) is None {
            let (st2, m) = st.insert(v, SpecSymbol::Variable(SpecType::Integer));
            (st2, opt_msg(m))
        } else {
            (st, Seq::empty())
        },
        SpecExpr::Index(a, idx) => (
            st,
            one_if(st.lookup(a) is None, msg_read_undefined(a)) + exprs_errors(idx, st),
        ),
        _ => (st, seq![msg_read_invalid()]),
    }
}

/// Messages of a call statement.
pub open spec fn call_stmt_errors(f: Seq<char>, args: Seq<SpecExpr>, st: SpecTable) -> Seq<Seq<char>> {
    match st.lookup(lowercase(f)) {
        Some(SpecSymbol::Function(params, _)) => call_errors(f, args, params, st),
        _ => one_if(
            st.lookup(f) is None && st.lookup(lowercase(f)) is None,
            msg_proc_undefined(f),
        ),
    }
}

/// The table after a block, and the messages of its check, in order.
pub open spec fn check_block(stmts: Seq<SpecStmt>, st: SpecTable) -> (SpecTable, Seq<Seq<char>>)
    decreases stmts,
{
    if stmts.len() == 0 {
        (st, Seq::empty())
    } else {
        let (st1, e1) = check_block(stmts.drop_last(), st);
        let (st2, e2) = check_stmt(stmts.last(), st1);
        (st2, e1 + e2)
    }
}

pub open spec fn check_opt_block(b: Option<Seq<SpecStmt>>, st: SpecTable) -> (SpecTable, Seq<Seq<char>>)
    decreases b,
{
    match b {
        Some(s) => check_block(s, st),
        None => (st, Seq::empty()),
    }
}

pub open spec fn check_cases(cases: Seq<(SpecExpr, Seq<SpecStmt>)>, st: SpecTable) -> (SpecTable, Seq<Seq<char>>)
    decreases cases,
{
    if cases.len() == 0 {
        (st, Seq::empty())
    } else {
        let (st1, e1) = check_cases(cases.drop_last(), st);
        let e2 = check_expr(cases.last().0, st1).1;
        let (st3, e3) = check_block(cases.last().1, st1);
        (st3, e1 + e2 + e3)
    }
}

pub open spec fn opt_expr_errors(e: Option<SpecExpr>, st: SpecTable) -> Seq<Seq<char>> {
    match e {
        Some(x) => check_expr(x, st).1,
        None => Seq::empty(),
    }
}

/// The bounds and step of a `Para`, and the declaration of its variable.
pub open spec fn for_head(
    var: Seq<char>,
    start: SpecExpr,
    end: SpecExpr,
    step: Option<SpecExpr>,
    st: SpecTable,
) -> (SpecTable, Seq<Seq<char>>) {
    let es = check_expr(start, st).1 + check_expr(end, st).1 + opt_expr_errors(step, st);
    match st.lookup(var) {
        Some(SpecSymbol::Variable(ty)) => (st, es + one_if(!is_numeric(ty), msg_for_var(var))),
        _ => {
            let (st2, m) = st.insert(var, SpecSymbol::Variable(SpecType::Integer));
            (st2, es + opt_msg(m))
        },
    }
}

pub open spec fn check_stmt(s: SpecStmt, st: SpecTable) -> (SpecTable, Seq<Seq<char>>)
    decreases s,
{
    match s {
        SpecStmt::Define(vars, ty) => define_vars(vars, ty, st),
        SpecStmt::Dimension(name, sizes) => {
            let es = exprs_errors(sizes, st);
            if st.lookup(name) is None {
                let (st2, m) = st.insert(name, SpecSymbol::Variable(SpecType::Integer));
                (st2, es + opt_msg(m))
            } else {
                (st, es)
            }
        },
        SpecStmt::Assign(target, value) => {
            let (vt, es) = check_expr(value, st);
            match vt {
                None => (st, es),
                Some(v) => match st.lookup(target) {
                    Some(SpecSymbol::Variable(tt)) => (
                        st,
                        es + one_if(!compatible(tt, v), msg_assign_types(target, tt, v)),
                    ),
                    _ => {
                        let (st2, m) = st.insert(target, SpecSymbol::Variable(v));
                        (st2, es + opt_msg(m))
                    },
                },
            }
        },
        SpecStmt::IndexAssign(array, indices, value) => {
            let e1 = one_if(st.lookup(array) is None, msg_index_assign_undefined(array));
            let e2 = index_errors(indices, st);
            let (vt, e3) = check_expr(value, st);
            (
                match vt {
                    Some(v) => st.set_array(array, v),
                    None => st,
                },
                e1 + e2 + e3,
            )
        },
        SpecStmt::If(c, t, e) => {
            let ce = cond_errors(c, st, CondKind::If);
            let (st1, e1) = check_block(t, st);
            let (st2, e2) = check_opt_block(e, st1);
            (st2, ce + e1 + e2)
        },
        SpecStmt::While(c, body) => {
            let ce = cond_errors(c, st, CondKind::While);
            let (st1, e1) = check_block(body, st);
            (st1, ce + e1)
        },
        SpecStmt::Repeat(body, until) => {
            let (st1, e1) = check_block(body, st);
            let ce = cond_errors(until, st1, CondKind::Repeat);
            (st1, e1 + ce)
        },
        SpecStmt::For(var, start, end, step, body) => {
            let (st1, e1) = for_head(var, start, end, step, st);
            let (st3, e3) = check_block(body, st1);
            (st3, e1 + e3)
        },
        SpecStmt::Match(expression, cases, default) => {
            let es = check_expr(expression, st).1;
            let (st1, e1) = check_cases(cases, st);
            let (st2, e2) = check_opt_block(default, st1);
            (st2, es + e1 + e2)
        },
        SpecStmt::Read(targets) => read_targets(targets, st),
        SpecStmt::Write(exprs, _) => (st, exprs_errors(exprs, st)),
        SpecStmt::Call(f, args) => (st, call_stmt_errors(f, args, st)),
        SpecStmt::Wait(duration, _) => {
            let (t, es) = check_expr(duration, st);
            (
                st,
                es + match t {
                    Some(ty) => one_if(!is_numeric(ty), msg_wait(ty)),
                    None => Seq::empty(),
                },
            )
        },
        _ => (st, Seq::empty()),
    }
}

// ---------------------------------------------------------------------
// Executable checks
// ---------------------------------------------------------------------

pub open spec fn msgs(v: Seq<String>) -> Seq<Seq<char>> {
    v.map_values(|m: String| m@)
}

fn push_msg(errors: &mut Vec<String>, m: String)
    ensures
        msgs(final(errors)@) == msgs(old(errors)@).push(m@),
{
    errors.push(m);
    proof {
        assert(msgs(errors@) =~= msgs(old(errors)@).push(m@));
    }
}

fn op_debug_str(op: BinaryOp) -> (r: &'static str)
    ensures
        r@ == op_debug(op),
{
    match op {
        BinaryOp::Add => "Add",
        BinaryOp::Sub => "Sub",
        BinaryOp::Mul => "Mul",
        BinaryOp::Div => "Div",
        BinaryOp::Mod => "Mod",
        BinaryOp::Power => "Power",
        BinaryOp::Eq => "Eq",
        BinaryOp::Ne => "Ne",
        BinaryOp::Lt => "Lt",
        BinaryOp::Le => "Le",
        BinaryOp::Gt => "Gt",
        BinaryOp::Ge => "Ge",
        BinaryOp::And => "And",
        BinaryOp::Or => "Or",
    }
}

/// Whether a value of type `value` may be stored where `target` is expected.
pub fn types_compatible(target: &Type, value: &Type) -> (r: bool)
    ensures
        r == compatible(target@, value@),
{
    if target.equals(value) {
        return true;
    }
    if target.is_real() && value.is_integer() {
        return true;
    }
    if target.is_integer() && value.is_real() {
        return true;
    }
    if (target.is_boolean() && value.is_integer()) || (target.is_integer() && value.is_boolean()) {
        return true;
    }
    false
}

fn numeric(t: &Type) -> (r: bool)
    ensures
        r == is_numeric(t@),
{
    t.is_integer() || t.is_real()
}

fn join_op_types(head: &str, op: BinaryOp, mid: &str, a: &Type, sep: &str, b: &Type) -> (r: String)
    ensures
        r@ == head@ + op_debug(op) + mid@ + tn(a@) + sep@ + tn(b@),
{
    let an = a.name();
    let bn = b.name();
    let mut m = cat3(head, op_debug_str(op), mid);
    m.append(an.as_str());
    m.append(sep);
    m.append(bn.as_str());
    m
}

fn join_op_type(head: &str, op: BinaryOp, mid: &str, a: &Type) -> (r: String)
    ensures
        r@ == head@ + op_debug(op) + mid@ + tn(a@),
{
    let an = a.name();
    let mut m = cat3(head, op_debug_str(op), mid);
    m.append(an.as_str());
    m
}

fn with_type(head: &str, t: &Type) -> (r: String)
    ensures
        r@ == head@ + tn(t@),
{
    let n = t.name();
    cat(head, n.as_str())
}

fn around(head: &str, x: &str, tail: &str) -> (r: String)
    ensures
        r@ == head@ + x@ + tail@,
{
    cat3(head, x, tail)
}

/// Type of a binary operation on operands of known types; its messages are
/// appended to `errors`.
fn binary_type_exec(op: BinaryOp, a: &Type, b: &Type, errors: &mut Vec<String>) -> (r: Option<Type>)
    ensures
        opt_type_view(r) == binary_type(op, a@, b@).0,
        msgs(final(errors)@) == msgs(old(errors)@) + binary_type(op, a@, b@).1,
{
    let ghost e0 = msgs(errors@);
    match op {
        BinaryOp::Add | BinaryOp::Sub | BinaryOp::Mul | BinaryOp::Div | BinaryOp::Mod | BinaryOp::Power => {
            if matches!(op, BinaryOp::Add) && (a.is_string() || b.is_string()) {
                assert(e0 + Seq::<Seq<char>>::empty() =~= e0);
                return Some(Type::String);
            }
            if numeric(a) && numeric(b) {
                assert(e0 + Seq::<Seq<char>>::empty() =~= e0);
                if a.is_real() || b.is_real() || matches!(op, BinaryOp::Div | BinaryOp::Power) {
                    Some(Type::Real)
                } else {
                    Some(Type::Integer)
                }
            } else {
                push_msg(errors, join_op_types(
                    "Operación aritmética ",
                    op,
                    " entre tipos incompatibles: ",
                    a,
                    " y ",
                    b,
                ));
                assert(e0.push(msg_arith(op, a@, b@)) =~= e0 + seq![msg_arith(op, a@, b@)]);
                None
            }
        },
        BinaryOp::Eq | BinaryOp::Ne => {
            if types_compatible(a, b) || types_compatible(b, a) {
                assert(e0 + Seq::<Seq<char>>::empty() =~= e0);
                Some(Type::Boolean)
            } else {
                push_msg(errors, join_op_types(
                    "Comparación ",
                    op,
                    " entre tipos incompatibles: ",
                    a,
                    " y ",
                    b,
                ));
                assert(e0.push(msg_compare(op, a@, b@)) =~= e0 + seq![msg_compare(op, a@, b@)]);
                None
            }
        },
        BinaryOp::Lt | BinaryOp::Le | BinaryOp::Gt | BinaryOp::Ge => {
            if (a.is_string() && !b.is_string()) || (!a.is_string() && b.is_string()) {
                let an = a.name();
                let bn = b.name();
                push_msg(errors, cat5("No se puede comparar ", an.as_str(), " con ", bn.as_str(), ""));
                proof {
                    reveal_strlit("");
                    assert(msg_no_compare(a@, b@) =~= "No se puede comparar "@ + tn(a@) + " con "@
                        + tn(b@) + ""@);
                }
                assert(e0.push(msg_no_compare(a@, b@)) =~= e0 + seq![msg_no_compare(a@, b@)]);
                None
            } else if (numeric(a) || a.is_string()) && (numeric(b) || b.is_string()) {
                assert(e0 + Seq::<Seq<char>>::empty() =~= e0);
                Some(Type::Boolean)
            } else {
                push_msg(errors, join_op_types(
                    "Comparación ",
                    op,
                    " entre tipos incompatibles: ",
                    a,
                    " y ",
                    b,
                ));
                assert(e0.push(msg_compare(op, a@, b@)) =~= e0 + seq![msg_compare(op, a@, b@)]);
                None
            }
        },
        BinaryOp::And | BinaryOp::Or => {
            if !a.is_boolean() {
                push_msg(errors, join_op_type("Operando izquierdo de ", op, " debe ser Logico, encontrado ", a));
            }
            let ghost e1 = msgs(errors@);
            if !b.is_boolean() {
                push_msg(errors, join_op_type("Operando derecho de ", op, " debe ser Logico, encontrado ", b));
            }
            proof {
                assert(e1 =~= e0 + one_if(a@ != SpecType::Boolean, msg_logic_left(op, a@)));
                assert(msgs(errors@) =~= e1 + one_if(b@ != SpecType::Boolean, msg_logic_right(op, b@)));
                assert(msgs(errors@) =~= e0 + binary_type(op, a@, b@).1);
            }
            if a.is_boolean() && b.is_boolean() {
                Some(Type::Boolean)
            } else {
                None
            }
        },
    }
}

fn unary_type_exec(op: UnaryOp, t: Type, errors: &mut Vec<String>) -> (r: Option<Type>)
    ensures
        opt_type_view(r) == unary_type(op, t@).0,
        msgs(final(errors)@) == msgs(old(errors)@) + unary_type(op, t@).1,
{
    let ghost e0 = msgs(errors@);
    match op {
        UnaryOp::Neg => {
            if numeric(&t) {
                assert(e0 + Seq::<Seq<char>>::empty() =~= e0);
                Some(t)
            } else {
                push_msg(errors, with_type("Negación aplicada a tipo no numérico: ", &t));
                assert(e0.push(msg_neg(t@)) =~= e0 + seq![msg_neg(t@)]);
                None
            }
        },
        UnaryOp::Not => {
            if t.is_boolean() {
                assert(e0 + Seq::<Seq<char>>::empty() =~= e0);
                Some(Type::Boolean)
            } else {
                push_msg(errors, with_type("Operador NO aplicado a tipo no logico: ", &t));
                assert(e0.push(msg_not(t@)) =~= e0 + seq![msg_not(t@)]);
                None
            }
        },
    }
}

fn is_place_expr(e: &Expression) -> (r: bool)
    ensures
        r == is_place(e@),
{
    matches!(e, Expression::Variable(_) | Expression::Index { .. })
}

/// Checks the arguments of a call of `function` against `params`.
fn check_call_args(
    function: &String,
    args: &Vec<Expression>,
    params: &Vec<(Type, bool)>,
    st: &SymbolTable,
    errors: &mut Vec<String>,
)
    ensures
        msgs(final(errors)@) == msgs(old(errors)@) + call_errors(
            function@,
            exprs_view(args@),
            sig_view(params@),
            st@,
        ),
    decreases args, 1nat,
{
    let ghost e0 = msgs(errors@);
    proof {
        lemma_exprs_view(args@);
    }
    if args.len() != params.len() {
        let mut m = cat3("Llamada a '", function.as_str(), "': esperados ");
        let np = usize_to_string(params.len());
        m.append(np.as_str());
        m.append(" argumentos, encontrados ");
        let na = usize_to_string(args.len());
        m.append(na.as_str());
        push_msg(errors, m);
        proof {
            assert(sig_view(params@).len() == params@.len());
            assert(e0.push(m@) =~= e0 + call_errors(function@, exprs_view(args@), sig_view(params@), st@));
        }
        return;
    }
    let ghost av = exprs_view(args@);
    let ghost pv = sig_view(params@);
    let mut i: usize = 0;
    assert(av.subrange(0, 0) =~= Seq::<SpecExpr>::empty());
    while i < args.len()
        invariant
            i <= args@.len(),
            args@.len() == params@.len(),
            av == exprs_view(args@),
            pv == sig_view(params@),
            av.len() == args@.len(),
            forall|j: int| 0 <= j < args@.len() ==> #[trigger] av[j] == args@[j]@,
            msgs(errors@) == e0 + arg_errors(function@, av.subrange(0, i as int), pv, st@),
            forall|k: int| 0 <= k < args@.len() ==> decreases_to!(*args => #[trigger] args@[k]),
        decreases args@.len() - i,
    {
        let ghost before = msgs(errors@);
        let arg = &args[i];
        let expected = &params[i].0;
        let by_ref = params[i].1;
        if by_ref && !is_place_expr(arg) {
            let mut m = cat3("Llamada a '", function.as_str(), "': argumento ");
            let pos = usize_to_string(i + 1);
            m.append(pos.as_str());
            m.append(" es por referencia y debe ser una variable");
            push_msg(errors, m);
        }
        let ghost mid = msgs(errors@);
        let t = check_expr_type(arg, st, errors);
        let ghost mid2 = msgs(errors@);
        match t {
            Some(at) => {
                if !types_compatible(expected, &at) {
                    let mut m = cat3("Llamada a '", function.as_str(), "': argumento ");
                    let pos = usize_to_string(i + 1);
                    m.append(pos.as_str());
                    m.append(" esperado ");
                    let en = expected.name();
                    m.append(en.as_str());
                    m.append(", encontrado ");
                    let an = at.name();
                    m.append(an.as_str());
                    push_msg(errors, m);
                }
            },
            None => {},
        }
        proof {
            let sub = av.subrange(0, i + 1);
            assert(sub.drop_last() =~= av.subrange(0, i as int));
            assert(sub.last() == args@[i as int]@);
            assert(pv[i as int] == (params@[i as int].0@, params@[i as int].1));
            assert(mid =~= before + one_if(by_ref && !is_place(args@[i as int]@), msg_by_ref(function@, (i + 1) as nat)));
            assert(msgs(errors@) =~= before + arg_error(function@, args@[i as int]@, pv[i as int], (i + 1) as nat, st@));
        }
        i += 1;
    }
    proof {
        assert(av.subrange(0, args@.len() as int) =~= av);
    }
}

/// Messages of the index expressions of an array access.
fn check_index_exprs(indices: &Vec<Expression>, st: &SymbolTable, errors: &mut Vec<String>)
    ensures
        msgs(final(errors)@) == msgs(old(errors)@) + index_errors(exprs_view(indices@), st@),
    decreases indices, 1nat,
{
    let ghost e0 = msgs(errors@);
    proof {
        lemma_exprs_view(indices@);
    }
    let ghost iv = exprs_view(indices@);
    let mut i: usize = 0;
    assert(iv.subrange(0, 0) =~= Seq::<SpecExpr>::empty());
    while i < indices.len()
        invariant
            i <= indices@.len(),
            iv == exprs_view(indices@),
            iv.len() == indices@.len(),
            forall|j: int| 0 <= j < indices@.len() ==> #[trigger] iv[j] == indices@[j]@,
            msgs(errors@) == e0 + index_errors(iv.subrange(0, i as int), st@),
            forall|k: int| 0 <= k < indices@.len() ==> decreases_to!(*indices => #[trigger] indices@[k]),
        decreases indices@.len() - i,
    {
        let ghost before = msgs(errors@);
        let t = check_expr_type(&indices[i], st, errors);
        match t {
            Some(it) => {
                if !numeric(&it) {
                    push_msg(errors, with_type("Índice de arreglo debe ser numérico, encontrado ", &it));
                }
            },
            None => {},
        }
        proof {
            let sub = iv.subrange(0, i + 1);
            assert(sub.drop_last() =~= iv.subrange(0, i as int));
            assert(sub.last() == indices@[i as int]@);
            assert(msgs(errors@) =~= before + index_error(indices@[i as int]@, st@));
        }
        i += 1;
    }
    proof {
        assert(iv.subrange(0, indices@.len() as int) =~= iv);
    }
}

/// Checks the types of an expression, appending the messages of its
/// errors to `errors`. Returns the inferred type, or `None` when it cannot
/// be inferred.
pub fn check_expr_type(expr: &Expression, st: &SymbolTable, errors: &mut Vec<String>) -> (r: Option<Type>)
    ensures
        opt_type_view(r) == check_expr(expr@, st@).0,
        msgs(final(errors)@) == msgs(old(errors)@) + check_expr(expr@, st@).1,
    decreases expr, 0nat,
{
    let ghost e0 = msgs(errors@);
    match expr {
        Expression::Literal(lit) => {
            assert(e0 + Seq::<Seq<char>>::empty() =~= e0);
            match lit {
                Literal::Integer(_) => Some(Type::Integer),
                Literal::Real(_) => Some(Type::Real),
                Literal::Boolean(_) => Some(Type::Boolean),
                Literal::String(_) => Some(Type::String),
            }
        },
        Expression::Variable(name) => {
            match st.lookup(name.as_str()) {
                Some(Symbol::Variable { ty }) => {
                    assert(e0 + Seq::<Seq<char>>::empty() =~= e0);
                    Some(ty.copy())
                },
                Some(_) => {
                    push_msg(errors, around("'", name.as_str(), "' es una función, no una variable"));
                    assert(e0.push(msg_is_function(name@)) =~= e0 + seq![msg_is_function(name@)]);
                    None
                },
                None => {
                    push_msg(errors, around("Variable '", name.as_str(), "' no definida"));
                    assert(e0.push(msg_var_undefined(name@)) =~= e0 + seq![msg_var_undefined(name@)]);
                    None
                },
            }
        },
        Expression::Binary { left, op, right } => {
            let lt = check_expr_type(left, st, errors);
            let ghost e1 = msgs(errors@);
            let rt = check_expr_type(right, st, errors);
            let ghost e2 = msgs(errors@);
            match (lt, rt) {
                (Some(a), Some(b)) => {
                    let r = binary_type_exec(*op, &a, &b, errors);
                    assert(msgs(errors@) =~= e0 + (check_expr(left@, st@).1 + check_expr(right@, st@).1
                        + binary_type(*op, a@, b@).1));
                    r
                },
                _ => {
                    assert(msgs(errors@) =~= e0 + (check_expr(left@, st@).1 + check_expr(right@, st@).1));
                    None
                },
            }
        },
        Expression::Unary { op, expr: inner } => {
            let t = check_expr_type(inner, st, errors);
            match t {
                Some(ty) => {
                    let ghost tv = ty@;
                    let r = unary_type_exec(*op, ty, errors);
                    assert(msgs(errors@) =~= e0 + (check_expr(inner@, st@).1 + unary_type(*op, tv).1));
                    r
                },
                None => None,
            }
        },
        Expression::Call { function, args } => {
            let fl = to_lowercase(function);
            match st.lookup(fl.as_str()) {
                Some(Symbol::Function { params, ret }) => {
                    proof {
                        assert(decreases_to!(*expr => *args));
                    }
                    check_call_args(function, args, params, st, errors);
                    crate::symbols::copy_opt_type(ret)
                },
                _ => {
                    push_msg(errors, around("Función '", function.as_str(), "' no definida"));
                    assert(e0.push(msg_fn_undefined(function@)) =~= e0 + seq![msg_fn_undefined(function@)]);
                    None
                },
            }
        },
        Expression::Index { array, indices } => {
            if st.lookup(array.as_str()).is_none() {
                push_msg(errors, around("Arreglo '", array.as_str(), "' no definido"));
            }
            let ghost e1 = msgs(errors@);
            proof {
                assert(e1 =~= e0 + one_if(st@.lookup(array@) is None, msg_array_undefined(array@)));
                assert(decreases_to!(*expr => *indices));
            }
            check_index_exprs(indices, st, errors);
            assert(msgs(errors@) =~= e0 + (one_if(st@.lookup(array@) is None, msg_array_undefined(array@))
                + index_errors(exprs_view(indices@), st@)));
            match st.get_array_elem_type(array.as_str()) {
                Some(t) => Some(t.copy()),
                None => Some(Type::Integer),
            }
        },
    }
}

fn check_exprs(es: &Vec<Expression>, st: &SymbolTable, errors: &mut Vec<String>)
    ensures
        msgs(final(errors)@) == msgs(old(errors)@) + exprs_errors(exprs_view(es@), st@),
{
    let ghost e0 = msgs(errors@);
    proof {
        lemma_exprs_view(es@);
    }
    let ghost ev = exprs_view(es@);
    let mut i: usize = 0;
    assert(ev.subrange(0, 0) =~= Seq::<SpecExpr>::empty());
    while i < es.len()
        invariant
            i <= es@.len(),
            ev == exprs_view(es@),
            ev.len() == es@.len(),
            forall|j: int| 0 <= j < es@.len() ==> #[trigger] ev[j] == es@[j]@,
            msgs(errors@) == e0 + exprs_errors(ev.subrange(0, i as int), st@),
        decreases es@.len() - i,
    {
        let ghost before = msgs(errors@);
        let _ = check_expr_type(&es[i], st, errors);
        proof {
            let sub = ev.subrange(0, i + 1);
            assert(sub.drop_last() =~= ev.subrange(0, i as int));
            assert(sub.last() == es@[i as int]@);
            assert(msgs(errors@) =~= before + check_expr(es@[i as int]@, st@).1);
        }
        i += 1;
    }
    proof {
        assert(ev.subrange(0, es@.len() as int) =~= ev);
    }
}

fn check_cond(c: &Expression, st: &SymbolTable, kind: CondKind, errors: &mut Vec<String>)
    ensures
        msgs(final(errors)@) == msgs(old(errors)@) + cond_errors(c@, st@, kind),
{
    let ghost e0 = msgs(errors@);
    let t = check_expr_type(c, st, errors);
    let ghost e1 = msgs(errors@);
    match t {
        Some(ty) => {
            if !(ty.is_boolean() || ty.is_integer()) {
                let m = match kind {
                    CondKind::If => with_type("La condición del Si debe ser Logico, encontrado ", &ty),
                    CondKind::While => with_type("La condición del Mientras debe ser Logico, encontrado ", &ty),
                    CondKind::Repeat => with_type(
                        "La condición del Repetir Hasta Que debe ser Logico, encontrado ",
                        &ty,
                    ),
                };
                push_msg(errors, m);
            }
        },
        None => {},
    }
    assert(msgs(errors@) =~= e0 + cond_errors(c@, st@, kind));
}

/// Declares with `ty` each variable of `vars` that no scope declares yet.
fn define_vars_exec(vars: &Vec<String>, ty: &Type, st: &mut SymbolTable, errors: &mut Vec<String>)
    ensures
        final(st)@ == define_vars(strings_view(vars@), ty@, old(st)@).0,
        msgs(final(errors)@) == msgs(old(errors)@) + define_vars(strings_view(vars@), ty@, old(st)@).1,
{
    let ghost st0 = st@;
    let ghost e0 = msgs(errors@);
    let ghost vv = strings_view(vars@);
    let mut i: usize = 0;
    assert(vv.subrange(0, 0) =~= Seq::<Seq<char>>::empty());
    while i < vars.len()
        invariant
            i <= vars@.len(),
            vv == strings_view(vars@),
            st@ == define_vars(vv.subrange(0, i as int), ty@, st0).0,
            msgs(errors@) == e0 + define_vars(vv.subrange(0, i as int), ty@, st0).1,
        decreases vars@.len() - i,
    {
        let ghost before = msgs(errors@);
        let ghost st_before = st@;
        let var = &vars[i];
        if st.lookup(var.as_str()).is_none() {
            match st.insert(var.clone(), Symbol::Variable { ty: ty.copy() }) {
                Ok(()) => {},
                Err(e) => push_msg(errors, e),
            }
        }
        proof {
            let sub = vv.subrange(0, i + 1);
            assert(sub.drop_last() =~= vv.subrange(0, i as int));
            assert(sub.last() == vars@[i as int]@);
            if st_before.lookup(var@) is None {
                assert(msgs(errors@) =~= before + opt_msg(
                    st_before.insert(var@, SpecSymbol::Variable(ty@)).1,
                ));
            } else {
                assert(msgs(errors@) =~= before);
            }
        }
        i += 1;
    }
    proof {
        assert(vv.subrange(0, vars@.len() as int) =~= vv);
    }
}

fn read_target_exec(t: &Expression, st: &mut SymbolTable, errors: &mut Vec<String>)
    ensures
        final(st)@ == read_target(t@, old(st)@).0,
        msgs(final(errors)@) == msgs(old(errors)@) + read_target(t@, old(st)@).1,
{
    let ghost e0 = msgs(errors@);
    match t {
        Expression::Variable(var) => {
            if st.lookup(var.as_str()).is_none() {
                match st.insert(var.clone(), Symbol::Variable { ty: Type::Integer }) {
                    Ok(()) => {},
                    Err(e) => push_msg(errors, e),
                }
            }
            assert(msgs(errors@) =~= e0 + read_target(t@, old(st)@).1);
        },
        Expression::Index { array, indices } => {
            if st.lookup(array.as_str()).is_none() {
                push_msg(errors, around("Arreglo '", array.as_str(), "' no definido para Leer"));
            }
            check_exprs(indices, st, errors);
            assert(msgs(errors@) =~= e0 + read_target(t@, old(st)@).1);
        },
        _ => {
            push_msg(errors, String::from_str("Destino inválido para Leer"));
            assert(msgs(errors@) =~= e0 + read_target(t@, old(st)@).1);
        },
    }
}

fn read_targets_exec(ts: &Vec<Expression>, st: &mut SymbolTable, errors: &mut Vec<String>)
    ensures
        final(st)@ == read_targets(exprs_view(ts@), old(st)@).0,
        msgs(final(errors)@) == msgs(old(errors)@) + read_targets(exprs_view(ts@), old(st)@).1,
{
    let ghost st0 = st@;
    let ghost e0 = msgs(errors@);
    proof {
        lemma_exprs_view(ts@);
    }
    let ghost tv = exprs_view(ts@);
    let mut i: usize = 0;
    assert(tv.subrange(0, 0) =~= Seq::<SpecExpr>::empty());
    while i < ts.len()
        invariant
            i <= ts@.len(),
            tv == exprs_view(ts@),
            tv.len() == ts@.len(),
            forall|j: int| 0 <= j < ts@.len() ==> #[trigger] tv[j] == ts@[j]@,
            st@ == read_targets(tv.subrange(0, i as int), st0).0,
            msgs(errors@) == e0 + read_targets(tv.subrange(0, i as int), st0).1,
        decreases ts@.len() - i,
    {
        let ghost before = msgs(errors@);
        read_target_exec(&ts[i], st, errors);
        proof {
            let sub = tv.subrange(0, i + 1);
            assert(sub.drop_last() =~= tv.subrange(0, i as int));
            assert(sub.last() == ts@[i as int]@);
            assert(msgs(errors@) =~= e0 + read_targets(sub, st0).1);
        }
        i += 1;
    }
    proof {
        assert(tv.subrange(0, ts@.len() as int) =~= tv);
    }
}

fn call_stmt_exec(function: &String, args: &Vec<Expression>, st: &SymbolTable, errors: &mut Vec<String>)
    ensures
        msgs(final(errors)@) == msgs(old(errors)@) + call_stmt_errors(function@, exprs_view(args@), st@),
{
    let ghost e0 = msgs(errors@);
    let fl = to_lowercase(function);
    match st.lookup(fl.as_str()) {
        Some(Symbol::Function { params, .. }) => {
            check_call_args(function, args, params, st, errors);
        },
        _ => {
            if st.lookup(function.as_str()).is_none() && st.lookup(fl.as_str()).is_none() {
                push_msg(errors, around("Función o procedimiento '", function.as_str(), "' no definido"));
            }
            assert(msgs(errors@) =~= e0 + call_stmt_errors(function@, exprs_view(args@), st@));
        },
    }
}

fn analyze_opt_block(b: &Option<Vec<Statement>>, st: &mut SymbolTable, errors: &mut Vec<String>)
    ensures
        ({
            let bv = match *b {
                Some(v) => Some(stmts_view(v@)),
                None => None,
            };
            &&& final(st)@ == check_opt_block(bv, old(st)@).0
            &&& msgs(final(errors)@) == msgs(old(errors)@) + check_opt_block(bv, old(st)@).1
        }),
    decreases b,
{
    match b {
        Some(v) => {
            proof {
                assert(decreases_to!(*b => *v));
            }
            analyze_block(v, st, errors);
        },
        None => {
            assert(msgs(errors@) =~= msgs(old(errors)@) + Seq::<Seq<char>>::empty());
        },
    }
}

fn check_cases_exec(cases: &Vec<(Expression, Vec<Statement>)>, st: &mut SymbolTable, errors: &mut Vec<String>)
    ensures
        final(st)@ == check_cases(cases_view(cases@), old(st)@).0,
        msgs(final(errors)@) == msgs(old(errors)@) + check_cases(cases_view(cases@), old(st)@).1,
    decreases cases,
{
    let ghost st0 = st@;
    let ghost e0 = msgs(errors@);
    proof {
        lemma_cases_view(cases@);
    }
    let ghost cv = cases_view(cases@);
    let mut i: usize = 0;
    assert(cv.subrange(0, 0) =~= Seq::<(SpecExpr, Seq<SpecStmt>)>::empty());
    while i < cases.len()
        invariant
            i <= cases@.len(),
            cv == cases_view(cases@),
            cv.len() == cases@.len(),
            forall|j: int| 0 <= j < cases@.len() ==> #[trigger] cv[j] == (cases@[j].0@, stmts_view(cases@[j].1@)),
            st@ == check_cases(cv.subrange(0, i as int), st0).0,
            msgs(errors@) == e0 + check_cases(cv.subrange(0, i as int), st0).1,
            forall|k: int| 0 <= k < cases@.len() ==> decreases_to!(*cases => #[trigger] cases@[k].1),
        decreases cases@.len() - i,
    {
        let ghost before = msgs(errors@);
        let _ = check_expr_type(&cases[i].0, st, errors);
        analyze_block(&cases[i].1, st, errors);
        proof {
            let sub = cv.subrange(0, i + 1);
            assert(sub.drop_last() =~= cv.subrange(0, i as int));
            assert(sub.last() == cv[i as int]);
            assert(msgs(errors@) =~= e0 + check_cases(sub, st0).1);
        }
        i += 1;
    }
    proof {
        assert(cv.subrange(0, cases@.len() as int) =~= cv);
    }
}

fn for_head_exec(
    var: &String,
    start: &Expression,
    end: &Expression,
    step: &Option<Expression>,
    st: &mut SymbolTable,
    errors: &mut Vec<String>,
)
    ensures
        final(st)@ == for_head(var@, start@, end@, opt_expr_view(*step), old(st)@).0,
        msgs(final(errors)@) == msgs(old(errors)@) + for_head(var@, start@, end@, opt_expr_view(*step), old(st)@).1,
{
    let ghost st0 = st@;
    let ghost e0 = msgs(errors@);
    let _ = check_expr_type(start, st, errors);
    let _ = check_expr_type(end, st, errors);
    match step {
        Some(s) => {
            let _ = check_expr_type(s, st, errors);
        },
        None => {},
    }
    let ghost e1 = msgs(errors@);
    assert(e1 =~= e0 + (check_expr(start@, st0).1 + check_expr(end@, st0).1 + opt_expr_errors(
        opt_expr_view(*step),
        st0,
    )));
    match st.lookup(var.as_str()) {
        Some(Symbol::Variable { ty }) => {
            if !numeric(ty) {
                push_msg(errors, around("La variable del Para '", var.as_str(), "' debe ser numérica"));
            }
        },
        _ => {
            match st.insert(var.clone(), Symbol::Variable { ty: Type::Integer }) {
                Ok(()) => {},
                Err(e) => push_msg(errors, e),
            }
        },
    }
    assert(msgs(errors@) =~= e0 + for_head(var@, start@, end@, opt_expr_view(*step), st0).1);
}

/// The statements without nested blocks that declare or type-check.
#[verifier::spinoff_prover]
fn analyze_simple(stmt: &Statement, st: &mut SymbolTable, errors: &mut Vec<String>)
    requires
        *stmt is Dimension || *stmt is Assign || *stmt is IndexAssign || *stmt is Wait,
    ensures
        final(st)@ == check_stmt(stmt@, old(st)@).0,
        msgs(final(errors)@) == msgs(old(errors)@) + check_stmt(stmt@, old(st)@).1,
{
    let ghost st0 = st@;
    let ghost e0 = msgs(errors@);
    match stmt {
        Statement::Dimension { name, sizes } => {
            check_exprs(sizes, st, errors);
            if st.lookup(name.as_str()).is_none() {
                match st.insert(name.clone(), Symbol::Variable { ty: Type::Integer }) {
                    Ok(()) => {},
                    Err(e) => push_msg(errors, e),
                }
            }
            assert(msgs(errors@) =~= e0 + check_stmt(stmt@, st0).1);
        },
        Statement::Assign { target, value } => {
            let vt = check_expr_type(value, st, errors);
            match vt {
                Some(v) => {
                    match st.lookup(target.as_str()) {
                        Some(Symbol::Variable { ty }) => {
                            if !types_compatible(ty, &v) {
                                let mut m = cat3(
                                    "Tipos incompatibles en asignación a '",
                                    target.as_str(),
                                    "': esperado ",
                                );
                                let tn1 = ty.name();
                                m.append(tn1.as_str());
                                m.append(", encontrado ");
                                let tn2 = v.name();
                                m.append(tn2.as_str());
                                push_msg(errors, m);
                            }
                        },
                        _ => {
                            match st.insert(target.clone(), Symbol::Variable { ty: v }) {
                                Ok(()) => {},
                                Err(e) => push_msg(errors, e),
                            }
                        },
                    }
                },
                None => {},
            }
            assert(msgs(errors@) =~= e0 + check_stmt(stmt@, st0).1);
        },
        Statement::IndexAssign { array, indices, value } => {
            if st.lookup(array.as_str()).is_none() {
                push_msg(
                    errors,
                    around("Arreglo '", array.as_str(), "' no definido para asignación por índice"),
                );
            }
            check_index_exprs(indices, st, errors);
            let vt = check_expr_type(value, st, errors);
            match vt {
                Some(v) => st.set_array_elem_type(array.as_str(), v),
                None => {},
            }
            assert(msgs(errors@) =~= e0 + check_stmt(stmt@, st0).1);
        },
        Statement::Wait { duration, .. } => {
            let t = check_expr_type(duration, st, errors);
            match t {
                Some(ty) => {
                    if !numeric(&ty) {
                        push_msg(
                            errors,
                            with_type("La duración de Esperar debe ser numérica, encontrado ", &ty),
                        );
                    }
                },
                None => {},
            }
            assert(msgs(errors@) =~= e0 + check_stmt(stmt@, st0).1);
        },
        _ => {},
    }
}

/// Checks one statement: declares what it declares and appends the
/// messages of its errors.
fn analyze_stmt(stmt: &Statement, st: &mut SymbolTable, errors: &mut Vec<String>)
    ensures
        final(st)@ == check_stmt(stmt@, old(st)@).0,
        msgs(final(errors)@) == msgs(old(errors)@) + check_stmt(stmt@, old(st)@).1,
    decreases stmt,
{
    let ghost st0 = st@;
    let ghost e0 = msgs(errors@);
    match stmt {
        Statement::Define { vars, ty } => {
            define_vars_exec(vars, ty, st, errors);
        },
        Statement::Dimension { .. } | Statement::Assign { .. } | Statement::IndexAssign { .. } => {
            analyze_simple(stmt, st, errors);
        },
        Statement::If { condition, then_branch, else_branch } => {
            check_cond(condition, st, CondKind::If, errors);
            analyze_block(then_branch, st, errors);
            analyze_opt_block(else_branch, st, errors);
            assert(msgs(errors@) =~= e0 + check_stmt(stmt@, st0).1);
        },
        Statement::While { condition, body } => {
            check_cond(condition, st, CondKind::While, errors);
            analyze_block(body, st, errors);
            assert(msgs(errors@) =~= e0 + check_stmt(stmt@, st0).1);
        },
        Statement::Repeat { body, until } => {
            analyze_block(body, st, errors);
            check_cond(until, st, CondKind::Repeat, errors);
            assert(msgs(errors@) =~= e0 + check_stmt(stmt@, st0).1);
        },
        Statement::For { var, start, end, step, body } => {
            for_head_exec(var, start, end, step, st, errors);
            analyze_block(body, st, errors);
            assert(msgs(errors@) =~= e0 + check_stmt(stmt@, st0).1);
        },
        Statement::Match { expression, cases, default } => {
            let _ = check_expr_type(expression, st, errors);
            check_cases_exec(cases, st, errors);
            analyze_opt_block(default, st, errors);
            assert(msgs(errors@) =~= e0 + check_stmt(stmt@, st0).1);
        },
        Statement::Read(targets) => {
            read_targets_exec(targets, st, errors);
        },
        Statement::Write(exprs, _) => {
            check_exprs(exprs, st, errors);
        },
        Statement::Call { function, args } => {
            call_stmt_exec(function, args, st, errors);
        },
        Statement::Wait { .. } => {
            analyze_simple(stmt, st, errors);
        },
        _ => {
            assert(msgs(errors@) =~= e0 + check_stmt(stmt@, st0).1);
        },
    }
}

/// Checks a block of statements, one after the other.
pub fn analyze_block(stmts: &Vec<Statement>, st: &mut SymbolTable, errors: &mut Vec<String>)
    ensures
        final(st)@ == check_block(stmts_view(stmts@), old(st)@).0,
        msgs(final(errors)@) == msgs(old(errors)@) + check_block(stmts_view(stmts@), old(st)@).1,
    decreases stmts,
{
    let ghost st0 = st@;
    let ghost e0 = msgs(errors@);
    proof {
        lemma_stmts_view(stmts@);
    }
    let ghost sv = stmts_view(stmts@);
    let mut i: usize = 0;
    assert(sv.subrange(0, 0) =~= Seq::<SpecStmt>::empty());
    while i < stmts.len()
        invariant
            i <= stmts@.len(),
            sv == stmts_view(stmts@),
            sv.len() == stmts@.len(),
            forall|j: int| 0 <= j < stmts@.len() ==> #[trigger] sv[j] == stmts@[j]@,
            st@ == check_block(sv.subrange(0, i as int), st0).0,
            msgs(errors@) == e0 + check_block(sv.subrange(0, i as int), st0).1,
            forall|k: int| 0 <= k < stmts@.len() ==> decreases_to!(*stmts => #[trigger] stmts@[k]),
        decreases stmts@.len() - i,
    {
        analyze_stmt(&stmts[i], st, errors);
        proof {
            let sub = sv.subrange(0, i + 1);
            assert(sub.drop_last() =~= sv.subrange(0, i as int));
            assert(sub.last() == stmts@[i as int]@);
            assert(msgs(errors@) =~= e0 + check_block(sub, st0).1);
        }
        i += 1;
    }
    proof {
        assert(sv.subrange(0, stmts@.len() as int) =~= sv);
    }
}

// ---------------------------------------------------------------------
// Assignment of the return variable
// ---------------------------------------------------------------------

/// Does the statement assign `v` on every path through it?
pub open spec fn stmt_assigns_all(s: SpecStmt, v: Seq<char>) -> bool
    decreases s,
{
    match s {
        SpecStmt::Assign(t, _) => t == v,
        SpecStmt::If(_, t, Some(e)) => assigns_all(t, v) && assigns_all(e, v),
        SpecStmt::Repeat(body, _) => assigns_all(body, v),
        SpecStmt::Match(_, cases, Some(d)) => cases.len() > 0 && cases_assign_all(cases, v)
            && assigns_all(d, v),
        _ => false,
    }
}

/// Does the block assign `v` on every path? (Some statement of the block
/// assigns it on every path; `Mientras` and `Para` loops may run zero
/// times, while a `Repetir` body always runs at least once.)
pub open spec fn assigns_all(stmts: Seq<SpecStmt>, v: Seq<char>) -> bool
    decreases stmts,
{
    if stmts.len() == 0 {
        false
    } else {
        assigns_all(stmts.drop_last(), v) || stmt_assigns_all(stmts.last(), v)
    }
}

pub open spec fn cases_assign_all(cases: Seq<(SpecExpr, Seq<SpecStmt>)>, v: Seq<char>) -> bool
    decreases cases,
{
    if cases.len() == 0 {
        true
    } else {
        cases_assign_all(cases.drop_last(), v) && assigns_all(cases.last().1, v)
    }
}

/// Does the statement, or a block nested in it, assign `v` anywhere?
pub open spec fn stmt_assigns_any(s: SpecStmt, v: Seq<char>) -> bool
    decreases s,
{
    match s {
        SpecStmt::Assign(t, _) => t == v,
        SpecStmt::If(_, t, e) => assigns_any(t, v) || match e {
            Some(b) => assigns_any(b, v),
            None => false,
        },
        SpecStmt::While(_, body) => assigns_any(body, v),
        SpecStmt::Repeat(body, _) => assigns_any(body, v),
        SpecStmt::For(_, _, _, _, body) => assigns_any(body, v),
        SpecStmt::Match(_, cases, d) => cases_assign_any(cases, v) || match d {
            Some(b) => assigns_any(b, v),
            None => false,
        },
        _ => false,
    }
}

pub open spec fn assigns_any(stmts: Seq<SpecStmt>, v: Seq<char>) -> bool
    decreases stmts,
{
    if stmts.len() == 0 {
        false
    } else {
        assigns_any(stmts.drop_last(), v) || stmt_assigns_any(stmts.last(), v)
    }
}

pub open spec fn cases_assign_any(cases: Seq<(SpecExpr, Seq<SpecStmt>)>, v: Seq<char>) -> bool
    decreases cases,
{
    if cases.len() == 0 {
        false
    } else {
        cases_assign_any(cases.drop_last(), v) || assigns_any(cases.last().1, v)
    }
}

fn stmt_assigns_var_all_paths(s: &Statement, v: &String) -> (r: bool)
    ensures
        r == stmt_assigns_all(s@, v@),
    decreases s,
{
    match s {
        Statement::Assign { target, .. } => *target == *v,
        Statement::If { then_branch, else_branch: Some(eb), .. } => {
            block_assigns_var_all_paths(then_branch, v) && block_assigns_var_all_paths(eb, v)
        },
        Statement::Repeat { body, .. } => block_assigns_var_all_paths(body, v),
        Statement::Match { cases, default: Some(d), .. } => {
            if cases.len() == 0 {
                proof {
                    lemma_cases_view(cases@);
                }
                return false;
            }
            proof {
                lemma_cases_view(cases@);
            }
            let ghost cv = cases_view(cases@);
            let mut i: usize = 0;
            let mut all = true;
            assert(cv.subrange(0, 0) =~= Seq::<(SpecExpr, Seq<SpecStmt>)>::empty());
            while i < cases.len()
                invariant
                    i <= cases@.len(),
                    cv == cases_view(cases@),
                    cv.len() == cases@.len(),
                    forall|j: int| 0 <= j < cases@.len() ==> #[trigger] cv[j] == (cases@[j].0@, stmts_view(cases@[j].1@)),
                    all == cases_assign_all(cv.subrange(0, i as int), v@),
                    forall|k: int| 0 <= k < cases@.len() ==> decreases_to!(*s => #[trigger] cases@[k].1),
                decreases cases@.len() - i,
            {
                let b = block_assigns_var_all_paths(&cases[i].1, v);
                all = all && b;
                proof {
                    let sub = cv.subrange(0, i + 1);
                    assert(sub.drop_last() =~= cv.subrange(0, i as int));
                    assert(sub.last() == cv[i as int]);
                }
                i += 1;
            }
            assert(cv.subrange(0, cases@.len() as int) =~= cv);
            all && block_assigns_var_all_paths(d, v)
        },
        _ => false,
    }
}

/// Whether a block assigns `var_name` on every execution path.
pub fn block_assigns_var_all_paths(stmts: &Vec<Statement>, var_name: &String) -> (r: bool)
    ensures
        r == assigns_all(stmts_view(stmts@), var_name@),
    decreases stmts,
{
    proof {
        lemma_stmts_view(stmts@);
    }
    let ghost sv = stmts_view(stmts@);
    let mut i: usize = 0;
    let mut found = false;
    assert(sv.subrange(0, 0) =~= Seq::<SpecStmt>::empty());
    while i < stmts.len()
        invariant
            i <= stmts@.len(),
            sv == stmts_view(stmts@),
            sv.len() == stmts@.len(),
            forall|j: int| 0 <= j < stmts@.len() ==> #[trigger] sv[j] == stmts@[j]@,
            found == assigns_all(sv.subrange(0, i as int), var_name@),
            forall|k: int| 0 <= k < stmts@.len() ==> decreases_to!(*stmts => #[trigger] stmts@[k]),
        decreases stmts@.len() - i,
    {
        let b = stmt_assigns_var_all_paths(&stmts[i], var_name);
        found = found || b;
        proof {
            let sub = sv.subrange(0, i + 1);
            assert(sub.drop_last() =~= sv.subrange(0, i as int));
            assert(sub.last() == stmts@[i as int]@);
        }
        i += 1;
    }
    assert(sv.subrange(0, stmts@.len() as int) =~= sv);
    found
}

fn opt_block_assigns_any(b: &Option<Vec<Statement>>, v: &String) -> (r: bool)
    ensures
        r == match *b {
            Some(x) => assigns_any(stmts_view(x@), v@),
            None => false,
        },
    decreases b,
{
    match b {
        Some(x) => {
            proof {
                assert(decreases_to!(*b => *x));
            }
            block_assigns_var_any(x, v)
        },
        None => false,
    }
}

fn stmt_assigns_var_any(s: &Statement, v: &String) -> (r: bool)
    ensures
        r == stmt_assigns_any(s@, v@),
    decreases s,
{
    match s {
        Statement::Assign { target, .. } => *target == *v,
        Statement::If { then_branch, else_branch, .. } => {
            block_assigns_var_any(then_branch, v) || opt_block_assigns_any(else_branch, v)
        },
        Statement::While { body, .. } => block_assigns_var_any(body, v),
        Statement::Repeat { body, .. } => block_assigns_var_any(body, v),
        Statement::For { body, .. } => block_assigns_var_any(body, v),
        Statement::Match { cases, default, .. } => {
            proof {
                lemma_cases_view(cases@);
            }
            let ghost cv = cases_view(cases@);
            let mut i: usize = 0;
            let mut any = false;
            assert(cv.subrange(0, 0) =~= Seq::<(SpecExpr, Seq<SpecStmt>)>::empty());
            while i < cases.len()
                invariant
                    i <= cases@.len(),
                    cv == cases_view(cases@),
                    cv.len() == cases@.len(),
                    forall|j: int| 0 <= j < cases@.len() ==> #[trigger] cv[j] == (cases@[j].0@, stmts_view(cases@[j].1@)),
                    any == cases_assign_any(cv.subrange(0, i as int), v@),
                    forall|k: int| 0 <= k < cases@.len() ==> decreases_to!(*s => #[trigger] cases@[k].1),
                decreases cases@.len() - i,
            {
                let b = block_assigns_var_any(&cases[i].1, v);
                any = any || b;
                proof {
                    let sub = cv.subrange(0, i + 1);
                    assert(sub.drop_last() =~= cv.subrange(0, i as int));
                    assert(sub.last() == cv[i as int]);
                }
                i += 1;
            }
            assert(cv.subrange(0, cases@.len() as int) =~= cv);
            any || opt_block_assigns_any(default, v)
        },
        _ => false,
    }
}

/// Whether a block, or a block nested in it, assigns `var_name` anywhere.
pub fn block_assigns_var_any(stmts: &Vec<Statement>, var_name: &String) -> (r: bool)
    ensures
        r == assigns_any(stmts_view(stmts@), var_name@),
    decreases stmts,
{
    proof {
        lemma_stmts_view(stmts@);
    }
    let ghost sv = stmts_view(stmts@);
    let mut i: usize = 0;
    let mut found = false;
    assert(sv.subrange(0, 0) =~= Seq::<SpecStmt>::empty());
    while i < stmts.len()
        invariant
            i <= stmts@.len(),
            sv == stmts_view(stmts@),
            sv.len() == stmts@.len(),
            forall|j: int| 0 <= j < stmts@.len() ==> #[trigger] sv[j] == stmts@[j]@,
            found == assigns_any(sv.subrange(0, i as int), var_name@),
            forall|k: int| 0 <= k < stmts@.len() ==> decreases_to!(*stmts => #[trigger] stmts@[k]),
        decreases stmts@.len() - i,
    {
        let b = stmt_assigns_var_any(&stmts[i], var_name);
        found = found || b;
        proof {
            let sub = sv.subrange(0, i + 1);
            assert(sub.drop_last() =~= sv.subrange(0, i as int));
            assert(sub.last() == stmts@[i as int]@);
        }
        i += 1;
    }
    assert(sv.subrange(0, stmts@.len() as int) =~= sv);
    found
}

// ---------------------------------------------------------------------
// Whole programs
// ---------------------------------------------------------------------

/// The table that analysis starts from: the native functions.
pub open spec fn initial_table() -> SpecTable {
    SpecTable { scopes: seq![builtin_scope()], arrays: Map::empty() }
}

pub open spec fn function_symbol(f: SpecFunction) -> SpecSymbol {
    SpecSymbol::Function(f.params.map_values(|p: (Seq<char>, SpecType, bool)| (p.1, p.2)), f.return_type)
}

/// Declares the functions in the global scope, each also under its
/// lower-case name when that differs (refusals of the latter are silent).
pub open spec fn register_functions(fs: Seq<SpecFunction>, st: SpecTable) -> (SpecTable, Seq<Seq<char>>)
    decreases fs.len(),
{
    if fs.len() == 0 {
        (st, Seq::empty())
    } else {
        let (st1, e1) = register_functions(fs.drop_last(), st);
        let f = fs.last();
        let (st2, m) = st1.insert(f.name, function_symbol(f));
        let st3 = if lowercase(f.name) != f.name {
            st2.insert(lowercase(f.name), function_symbol(f)).0
        } else {
            st2
        };
        (st3, e1 + opt_msg(m))
    }
}

pub open spec fn in_function(f: Seq<char>, m: Option<Seq<char>>) -> Seq<Seq<char>> {
    match m {
        Some(x) => seq![msg_in_function(f, x)],
        None => Seq::empty(),
    }
}

/// Declares the parameters of function `f` as variables.
pub open spec fn declare_params(f: Seq<char>, ps: Seq<(Seq<char>, SpecType, bool)>, st: SpecTable) -> (SpecTable, Seq<Seq<char>>)
    decreases ps.len(),
{
    if ps.len() == 0 {
        (st, Seq::empty())
    } else {
        let (st1, e1) = declare_params(f, ps.drop_last(), st);
        let (st2, m) = st1.insert(ps.last().0, SpecSymbol::Variable(ps.last().1));
        (st2, e1 + in_function(f, m))
    }
}

/// The checks on the return variable of a function.
pub open spec fn return_errors(f: SpecFunction) -> Seq<Seq<char>> {
    match (f.return_var, f.return_type) {
        (Some(rv), Some(rt)) => if rt != SpecType::Void {
            if !assigns_any(f.body, rv) {
                seq![msg_return_never(f.name, rt, rv)]
            } else if !assigns_all(f.body, rv) {
                seq![msg_return_some_paths(f.name, rv)]
            } else {
                Seq::empty()
            }
        } else {
            Seq::empty()
        },
        _ => Seq::empty(),
    }
}

/// Checks one function body in a scope of its own.
pub open spec fn check_function(f: SpecFunction, st: SpecTable) -> (SpecTable, Seq<Seq<char>>) {
    let (st2, e2) = declare_params(f.name, f.params, st.enter());
    let (st3, e3) = match f.return_var {
        Some(rv) => {
            let rt = match f.return_type {
                Some(t) => t,
                None => SpecType::Integer,
            };
            let (s, m) = st2.insert(rv, SpecSymbol::Variable(rt));
            (s, in_function(f.name, m))
        },
        None => (st2, Seq::empty()),
    };
    let (st4, e4) = check_block(f.body, st3);
    (st4.exit(), e2 + e3 + e4 + return_errors(f))
}

pub open spec fn check_functions(fs: Seq<SpecFunction>, st: SpecTable) -> (SpecTable, Seq<Seq<char>>)
    decreases fs.len(),
{
    if fs.len() == 0 {
        (st, Seq::empty())
    } else {
        let (st1, e1) = check_functions(fs.drop_last(), st);
        let (st2, e2) = check_function(fs.last(), st1);
        (st2, e1 + e2)
    }
}

/// The table that the analysis of a program ends with, and the messages it
/// reports, in order.
pub open spec fn analysis(p: SpecProgram) -> (SpecTable, Seq<Seq<char>>) {
    let (st1, e1) = register_functions(p.functions, initial_table());
    let (st2, e2) = check_block(p.main_body, st1.enter());
    let (st4, e4) = check_functions(p.functions, st2.exit());
    (st4, e1 + e2 + e4)
}

fn function_signature(params: &Vec<(String, Type, bool)>) -> (r: Vec<(Type, bool)>)
    ensures
        sig_view(r@) == params_view(params@).map_values(|p: (Seq<char>, SpecType, bool)| (p.1, p.2)),
{
    let mut out: Vec<(Type, bool)> = Vec::new();
    let mut i: usize = 0;
    while i < params.len()
        invariant
            i <= params@.len(),
            out@.len() == i,
            forall|j: int| 0 <= j < i ==> #[trigger] out@[j].0@ == params@[j].1@ && out@[j].1 == params@[j].2,
        decreases params@.len() - i,
    {
        out.push((params[i].1.copy(), params[i].2));
        i += 1;
    }
    assert(sig_view(out@) =~= params_view(params@).map_values(|p: (Seq<char>, SpecType, bool)| (p.1, p.2)));
    out
}

fn register_functions_exec(fs: &Vec<Function>, st: &mut SymbolTable, errors: &mut Vec<String>)
    ensures
        final(st)@ == register_functions(functions_view(fs@), old(st)@).0,
        msgs(final(errors)@) == msgs(old(errors)@) + register_functions(functions_view(fs@), old(st)@).1,
{
    let ghost st0 = st@;
    let ghost e0 = msgs(errors@);
    let ghost fv = functions_view(fs@);
    let mut i: usize = 0;
    assert(fv.subrange(0, 0) =~= Seq::<SpecFunction>::empty());
    while i < fs.len()
        invariant
            i <= fs@.len(),
            fv == functions_view(fs@),
            st@ == register_functions(fv.subrange(0, i as int), st0).0,
            msgs(errors@) == e0 + register_functions(fv.subrange(0, i as int), st0).1,
        decreases fs@.len() - i,
    {
        let ghost before = msgs(errors@);
        let func = &fs[i];
        let sig = function_signature(&func.params);
        let sym = Symbol::Function { params: sig, ret: crate::symbols::copy_opt_type(&func.return_type) };
        let sym2 = sym.copy();
        match st.insert(func.name.clone(), sym) {
            Ok(()) => {},
            Err(e) => push_msg(errors, e),
        }
        let lower = to_lowercase(&func.name);
        if lower != func.name {
            let _ = st.insert(lower, sym2);
        }
        proof {
            let sub = fv.subrange(0, i + 1);
            assert(sub.drop_last() =~= fv.subrange(0, i as int));
            assert(sub.last() == fs@[i as int]@);
            assert(msgs(errors@) =~= e0 + register_functions(sub, st0).1);
        }
        i += 1;
    }
    assert(fv.subrange(0, fs@.len() as int) =~= fv);
}

fn declare_params_exec(
    fname: &String,
    params: &Vec<(String, Type, bool)>,
    st: &mut SymbolTable,
    errors: &mut Vec<String>,
)
    ensures
        final(st)@ == declare_params(fname@, params_view(params@), old(st)@).0,
        msgs(final(errors)@) == msgs(old(errors)@) + declare_params(fname@, params_view(params@), old(st)@).1,
{
    let ghost st0 = st@;
    let ghost e0 = msgs(errors@);
    let ghost pv = params_view(params@);
    let mut i: usize = 0;
    assert(pv.subrange(0, 0) =~= Seq::<(Seq<char>, SpecType, bool)>::empty());
    while i < params.len()
        invariant
            i <= params@.len(),
            pv == params_view(params@),
            st@ == declare_params(fname@, pv.subrange(0, i as int), st0).0,
            msgs(errors@) == e0 + declare_params(fname@, pv.subrange(0, i as int), st0).1,
        decreases params@.len() - i,
    {
        let ghost before = msgs(errors@);
        match st.insert(params[i].0.clone(), Symbol::Variable { ty: params[i].1.copy() }) {
            Ok(()) => {},
            Err(e) => push_msg(errors, cat3("Función '", fname.as_str(), "': ").concat(e.as_str())),
        }
        proof {
            let sub = pv.subrange(0, i + 1);
            assert(sub.drop_last() =~= pv.subrange(0, i as int));
            assert(msgs(errors@) =~= e0 + declare_params(fname@, sub, st0).1);
        }
        i += 1;
    }
    assert(pv.subrange(0, params@.len() as int) =~= pv);
}

fn check_function_exec(func: &Function, st: &mut SymbolTable, errors: &mut Vec<String>)
    ensures
        final(st)@ == check_function(func@, old(st)@).0,
        msgs(final(errors)@) == msgs(old(errors)@) + check_function(func@, old(st)@).1,
{
    let ghost st0 = st@;
    let ghost e0 = msgs(errors@);
    st.enter_scope();
    declare_params_exec(&func.name, &func.params, st, errors);
    let ghost e2 = msgs(errors@);
    match &func.return_var {
        Some(ret_var) => {
            let ret_ty = match &func.return_type {
                Some(t) => t.copy(),
                None => Type::Integer,
            };
            match st.insert(ret_var.clone(), Symbol::Variable { ty: ret_ty }) {
                Ok(()) => {},
                Err(e) => push_msg(errors, cat3("Función '", func.name.as_str(), "': ").concat(e.as_str())),
            }
        },
        None => {},
    }
    let ghost e3 = msgs(errors@);
    analyze_block(&func.body, st, errors);
    let ghost e4 = msgs(errors@);
    match &func.return_var {
        Some(ret_var) => match &func.return_type {
            Some(ret_ty) => {
                if !ret_ty.is_void() {
                    if !block_assigns_var_any(&func.body, ret_var) {
                        let mut m = cat3("Función '", func.name.as_str(), "': tiene tipo de retorno ");
                        let n = ret_ty.name();
                        m.append(n.as_str());
                        m.append(" pero la variable '");
                        m.append(ret_var.as_str());
                        m.append("' nunca se asigna");
                        push_msg(errors, m);
                    } else if !block_assigns_var_all_paths(&func.body, ret_var) {
                        let mut m = cat3("Advertencia: Función '", func.name.as_str(), "': la variable de retorno '");
                        m.append(ret_var.as_str());
                        m.append("' no se asigna en todos los caminos");
                        push_msg(errors, m);
                    }
                }
            },
            None => {},
        },
        None => {},
    }
    proof {
        assert(msgs(errors@) =~= e4 + return_errors(func@));
    }
    st.exit_scope();
    assert(msgs(errors@) =~= e0 + check_function(func@, st0).1);
}

fn check_functions_exec(fs: &Vec<Function>, st: &mut SymbolTable, errors: &mut Vec<String>)
    ensures
        final(st)@ == check_functions(functions_view(fs@), old(st)@).0,
        msgs(final(errors)@) == msgs(old(errors)@) + check_functions(functions_view(fs@), old(st)@).1,
{
    let ghost st0 = st@;
    let ghost e0 = msgs(errors@);
    let ghost fv = functions_view(fs@);
    let mut i: usize = 0;
    assert(fv.subrange(0, 0) =~= Seq::<SpecFunction>::empty());
    while i < fs.len()
        invariant
            i <= fs@.len(),
            fv == functions_view(fs@),
            st@ == check_functions(fv.subrange(0, i as int), st0).0,
            msgs(errors@) == e0 + check_functions(fv.subrange(0, i as int), st0).1,
        decreases fs@.len() - i,
    {
        check_function_exec(&fs[i], st, errors);
        proof {
            let sub = fv.subrange(0, i + 1);
            assert(sub.drop_last() =~= fv.subrange(0, i as int));
            assert(sub.last() == fs@[i as int]@);
            assert(msgs(errors@) =~= e0 + check_functions(sub, st0).1);
        }
        i += 1;
    }
    assert(fv.subrange(0, fs@.len() as int) =~= fv);
}

/// Analyses a program. On success returns the final symbol table (the
/// global scope with the native and user functions, and the element types
/// of arrays); otherwise the messages of all errors found, in order.
pub fn analyze(program: &Program) -> (r: Result<SymbolTable, Vec<String>>)
    ensures
        match r {
            Ok(t) => analysis(program@).1.len() == 0 && t@ == analysis(program@).0,
            Err(es) => analysis(program@).1.len() > 0 && msgs(es@) == analysis(program@).1,
        },
{
    let mut sym_table = SymbolTable::new();
    let mut errors: Vec<String> = Vec::new();
    assert(sym_table@ == initial_table());
    assert(msgs(errors@) =~= Seq::<Seq<char>>::empty());
    register_functions_exec(&program.functions, &mut sym_table, &mut errors);
    sym_table.enter_scope();
    analyze_block(&program.main_body, &mut sym_table, &mut errors);
    sym_table.exit_scope();
    check_functions_exec(&program.functions, &mut sym_table, &mut errors);
    assert(msgs(errors@) =~= analysis(program@).1);
    if errors.len() == 0 {
        Ok(sym_table)
    } else {
        Err(errors)
    }
}

// ---------------------------------------------------------------------
// Laws
// ---------------------------------------------------------------------

/// Compatibility of types is reflexive and symmetric.
pub proof fn law_compatible_reflexive_symmetric(a: SpecType, b: SpecType)
    ensures
        compatible(a, a),
        compatible(a, b) == compatible(b, a),
{
}

/// A block that assigns a variable on every path assigns it somewhere.
pub proof fn law_all_paths_implies_any(stmts: Seq<SpecStmt>, v: Seq<char>)
    ensures
        assigns_all(stmts, v) ==> assigns_any(stmts, v),
    decreases stmts,
{
    if stmts.len() > 0 {
        law_all_paths_implies_any(stmts.drop_last(), v);
        lemma_stmt_all_implies_any(stmts.last(), v);
    }
}

proof fn lemma_stmt_all_implies_any(s: SpecStmt, v: Seq<char>)
    ensures
        stmt_assigns_all(s, v) ==> stmt_assigns_any(s, v),
    decreases s,
{
    match s {
        SpecStmt::If(_, t, Some(e)) => {
            law_all_paths_implies_any(t, v);
        },
        SpecStmt::Repeat(body, _) => {
            law_all_paths_implies_any(body, v);
        },
        SpecStmt::Match(_, cases, Some(d)) => {
            if stmt_assigns_all(s, v) {
                lemma_cases_all_implies_any(cases, v);
            }
        },
        _ => {},
    }
}

proof fn lemma_cases_all_implies_any(cases: Seq<(SpecExpr, Seq<SpecStmt>)>, v: Seq<char>)
    requires
        cases.len() > 0,
        cases_assign_all(cases, v),
    ensures
        cases_assign_any(cases, v),
    decreases cases,
{
    law_all_paths_implies_any(cases.last().1, v);
}

/// A type inference that fails reports at least one message, provided
/// every function in scope has a result type.
pub proof fn law_failed_inference_reports(e: SpecExpr, st: SpecTable)
    requires
        forall|n: Seq<char>| #[trigger] st.lookup(n) matches Some(SpecSymbol::Function(_, r)) ==> r is Some,
    ensures
        check_expr(e, st).0 is None ==> check_expr(e, st).1.len() > 0,
    decreases e,
{
    match e {
        SpecExpr::Binary(l, op, r) => {
            law_failed_inference_reports(*l, st);
            law_failed_inference_reports(*r, st);
        },
        SpecExpr::Unary(op, x) => {
            law_failed_inference_reports(*x, st);
        },
        SpecExpr::Call(f, args) => {
            let found = st.lookup(lowercase(f));
        },
        _ => {},
    }
}

/// Negation accepts every numeric operand: an expression of type Integer
/// or Real negates to a value of the same type and adds no message, while
/// negating a Boolean, text or array operand yields no type.
pub proof fn law_negation_keeps_numeric_type(x: SpecExpr, st: SpecTable)
    ensures
        check_expr(x, st).0 == Some(SpecType::Integer) ==> check_expr(
            SpecExpr::Unary(UnaryOp::Neg, Box::new(x)),
            st,
        ) == (Some(SpecType::Integer), check_expr(x, st).1),
        check_expr(x, st).0 == Some(SpecType::Real) ==> check_expr(
            SpecExpr::Unary(UnaryOp::Neg, Box::new(x)),
            st,
        ) == (Some(SpecType::Real), check_expr(x, st).1),
        check_expr(x, st).0 == Some(SpecType::Boolean) ==> check_expr(
            SpecExpr::Unary(UnaryOp::Neg, Box::new(x)),
            st,
        ).0 is None,
        check_expr(x, st).0 == Some(SpecType::Str) ==> check_expr(
            SpecExpr::Unary(UnaryOp::Neg, Box::new(x)),
            st,
        ).0 is None,
{
    let (t, es) = check_expr(x, st);
    assert(es + Seq::<Seq<char>>::empty() =~= es);
}

/// Logical negation accepts a Boolean operand and gives a Boolean with no
/// new message; a numeric or text operand yields no type.
pub proof fn law_not_takes_boolean(x: SpecExpr, st: SpecTable)
    ensures
        check_expr(x, st).0 == Some(SpecType::Boolean) ==> check_expr(
            SpecExpr::Unary(UnaryOp::Not, Box::new(x)),
            st,
        ) == (Some(SpecType::Boolean), check_expr(x, st).1),
        check_expr(x, st).0 == Some(SpecType::Integer) ==> check_expr(
            SpecExpr::Unary(UnaryOp::Not, Box::new(x)),
            st,
        ).0 is None,
        check_expr(x, st).0 == Some(SpecType::Real) ==> check_expr(
            SpecExpr::Unary(UnaryOp::Not, Box::new(x)),
            st,
        ).0 is None,
        check_expr(x, st).0 == Some(SpecType::Str) ==> check_expr(
            SpecExpr::Unary(UnaryOp::Not, Box::new(x)),
            st,
        ).0 is None,
{
    let (t, es) = check_expr(x, st);
    assert(es + Seq::<Seq<char>>::empty() =~= es);
}

/// The result types of the binary operators, with no message: `+`, `-`,
/// `*` and `MOD` of two integers are an integer; `/` and `^` of two numbers
/// and any arithmetic with a real operand are real; `+` with a text operand
/// is text; `<`, `<=`, `>` and `>=` of two numbers or two texts, `=` and
/// `<>` of two values of one type, and `Y`/`O` of two logical values are
/// logical.
pub proof fn law_binary_result_types(op: BinaryOp, a: SpecType, b: SpecType)
    ensures
        (op == BinaryOp::Add || op == BinaryOp::Sub || op == BinaryOp::Mul || op == BinaryOp::Mod)
            && a == SpecType::Integer && b == SpecType::Integer ==> binary_type(op, a, b) == (
            Some(SpecType::Integer),
            Seq::<Seq<char>>::empty(),
        ),
        (op == BinaryOp::Add || op == BinaryOp::Sub || op == BinaryOp::Mul || op == BinaryOp::Div
            || op == BinaryOp::Mod || op == BinaryOp::Power) && (a == SpecType::Integer || a
            == SpecType::Real) && (b == SpecType::Integer || b == SpecType::Real) && (a
            == SpecType::Real || b == SpecType::Real || op == BinaryOp::Div || op
            == BinaryOp::Power) ==> binary_type(op, a, b) == (
            Some(SpecType::Real),
            Seq::<Seq<char>>::empty(),
        ),
        a == SpecType::Str || b == SpecType::Str ==> binary_type(BinaryOp::Add, a, b) == (
            Some(SpecType::Str),
            Seq::<Seq<char>>::empty(),
        ),
        (op == BinaryOp::Lt || op == BinaryOp::Le || op == BinaryOp::Gt || op == BinaryOp::Ge) && ((
        (a == SpecType::Integer || a == SpecType::Real) && (b == SpecType::Integer || b
            == SpecType::Real)) || (a == SpecType::Str && b == SpecType::Str)) ==> binary_type(
            op,
            a,
            b,
        ) == (Some(SpecType::Boolean), Seq::<Seq<char>>::empty()),
        (op == BinaryOp::Eq || op == BinaryOp::Ne) ==> binary_type(op, a, a) == (
            Some(SpecType::Boolean),
            Seq::<Seq<char>>::empty(),
        ),
        (op == BinaryOp::And || op == BinaryOp::Or) ==> binary_type(
            op,
            SpecType::Boolean,
            SpecType::Boolean,
        ) == (Some(SpecType::Boolean), Seq::<Seq<char>>::empty()),
{
    assert(Seq::<Seq<char>>::empty() + Seq::<Seq<char>>::empty() =~= Seq::<Seq<char>>::empty());
}

proof fn lemma_insert_keeps_var(st: SpecTable, name: Seq<char>, sym: SpecSymbol, n: Seq<char>, ty: SpecType)
    requires
        st.lookup(n) == Some(SpecSymbol::Variable(ty)),
        !(st.lookup(name) matches Some(SpecSymbol::Variable(_))),
    ensures
        st.insert(name, sym).0.lookup(n) == Some(SpecSymbol::Variable(ty)),
{
    law_insert_keeps_other_names(st, name, sym, n);
}

proof fn lemma_define_keeps_var(vars: Seq<Seq<char>>, t: SpecType, st: SpecTable, n: Seq<char>, ty: SpecType)
    requires
        st.lookup(n) == Some(SpecSymbol::Variable(ty)),
    ensures
        define_vars(vars, t, st).0.lookup(n) == Some(SpecSymbol::Variable(ty)),
    decreases vars.len(),
{
    if vars.len() > 0 {
        lemma_define_keeps_var(vars.drop_last(), t, st, n, ty);
        let st1 = define_vars(vars.drop_last(), t, st).0;
        if st1.lookup(vars.last()) is None {
            lemma_insert_keeps_var(st1, vars.last(), SpecSymbol::Variable(t), n, ty);
        }
    }
}

proof fn lemma_read_keeps_var(ts: Seq<SpecExpr>, st: SpecTable, n: Seq<char>, ty: SpecType)
    requires
        st.lookup(n) == Some(SpecSymbol::Variable(ty)),
    ensures
        read_targets(ts, st).0.lookup(n) == Some(SpecSymbol::Variable(ty)),
    decreases ts.len(),
{
    if ts.len() > 0 {
        lemma_read_keeps_var(ts.drop_last(), st, n, ty);
        let st1 = read_targets(ts.drop_last(), st).0;
        match ts.last() {
            SpecExpr::Var(v) => if st1.lookup(v) is None {
                lemma_insert_keeps_var(st1, v, SpecSymbol::Variable(SpecType::Integer), n, ty);
            },
            _ => {},
        }
    }
}

proof fn lemma_stmt_keeps_var(s: SpecStmt, st: SpecTable, n: Seq<char>, ty: SpecType)
    requires
        st.lookup(n) == Some(SpecSymbol::Variable(ty)),
    ensures
        check_stmt(s, st).0.lookup(n) == Some(SpecSymbol::Variable(ty)),
    decreases s,
{
    match s {
        SpecStmt::Define(vars, t) => lemma_define_keeps_var(vars, t, st, n, ty),
        SpecStmt::Dimension(name, _) => if st.lookup(name) is None {
            lemma_insert_keeps_var(st, name, SpecSymbol::Variable(SpecType::Integer), n, ty);
        },
        SpecStmt::Assign(target, value) => match check_expr(value, st).0 {
            Some(v) => if !(st.lookup(target) matches Some(SpecSymbol::Variable(_))) {
                lemma_insert_keeps_var(st, target, SpecSymbol::Variable(v), n, ty);
            },
            None => {},
        },
        SpecStmt::If(_, t, e) => {
            lemma_block_keeps_var(t, st, n, ty);
            let st1 = check_block(t, st).0;
            match e {
                Some(b) => lemma_block_keeps_var(b, st1, n, ty),
                None => {},
            }
        },
        SpecStmt::While(_, body) => lemma_block_keeps_var(body, st, n, ty),
        SpecStmt::Repeat(body, _) => lemma_block_keeps_var(body, st, n, ty),
        SpecStmt::For(var, start, end, step, body) => {
            if !(st.lookup(var) matches Some(SpecSymbol::Variable(_))) {
                lemma_insert_keeps_var(st, var, SpecSymbol::Variable(SpecType::Integer), n, ty);
            }
            let st1 = for_head(var, start, end, step, st).0;
            lemma_block_keeps_var(body, st1, n, ty);
        },
        SpecStmt::Match(_, cases, default) => {
            lemma_cases_keep_var(cases, st, n, ty);
            let st1 = check_cases(cases, st).0;
            match default {
                Some(b) => lemma_block_keeps_var(b, st1, n, ty),
                None => {},
            }
        },
        SpecStmt::Read(ts) => lemma_read_keeps_var(ts, st, n, ty),
        _ => {},
    }
}

proof fn lemma_cases_keep_var(cases: Seq<(SpecExpr, Seq<SpecStmt>)>, st: SpecTable, n: Seq<char>, ty: SpecType)
    requires
        st.lookup(n) == Some(SpecSymbol::Variable(ty)),
    ensures
        check_cases(cases, st).0.lookup(n) == Some(SpecSymbol::Variable(ty)),
    decreases cases,
{
    if cases.len() > 0 {
        lemma_cases_keep_var(cases.drop_last(), st, n, ty);
        let st1 = check_cases(cases.drop_last(), st).0;
        lemma_block_keeps_var(cases.last().1, st1, n, ty);
    }
}

proof fn lemma_block_keeps_var(stmts: Seq<SpecStmt>, st: SpecTable, n: Seq<char>, ty: SpecType)
    requires
        st.lookup(n) == Some(SpecSymbol::Variable(ty)),
    ensures
        check_block(stmts, st).0.lookup(n) == Some(SpecSymbol::Variable(ty)),
    decreases stmts,
{
    if stmts.len() > 0 {
        lemma_block_keeps_var(stmts.drop_last(), st, n, ty);
        let st1 = check_block(stmts.drop_last(), st).0;
        lemma_stmt_keeps_var(stmts.last(), st1, n, ty);
    }
}

/// Checking a block never redeclares or retypes a variable that is
/// already visible: each name visible as a variable of some type before
/// the block is, after it, still a variable of that type. (The messages
/// of the block are appended to those already reported.)
pub proof fn law_block_keeps_visible_variables(stmts: Seq<SpecStmt>, st: SpecTable, n: Seq<char>, ty: SpecType)
    requires
        st.lookup(n) == Some(SpecSymbol::Variable(ty)),
    ensures
        check_block(stmts, st).0.lookup(n) == Some(SpecSymbol::Variable(ty)),
{
    lemma_block_keeps_var(stmts, st, n, ty);
}

} // verus!

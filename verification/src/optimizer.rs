//! AST-level optimisation, run before code generation:
//! - constant folding (2+3 -> 5),
//! - constant propagation (limited to straight-line code),
//! - strength reduction (x*2 -> x+x, x^2 -> x*x),
//! - dead code elimination (statements after an endless loop or a
//!   `Retornar`, empty branches whose condition folded to false).
//!
//! Folding an operation on real numbers needs floating-point arithmetic,
//! which the library does not do itself: it reads the result from a
//! [`RealTable`]. When the table lacks a result, optimisation stops and
//! names the operation ([`RealQuery`]); the caller computes it, adds it to
//! the table and runs the optimisation again.
use vstd::prelude::*;
use vstd::string::StringExecFns;
use vstd::string::StrSliceExecFns;
use crate::symbols::{distinct_names, entries_map, find_entry, lemma_entries_map};
use crate::text::{cat7, decimal, usize_to_string};
use crate::ast::{
    exprs_view, expr_view, lemma_exprs_view, lemma_stmts_view, lemma_cases_view, stmts_view,
    stmt_view, cases_view, strings_view, opt_expr_view, functions_view, BinaryOp, Expression,
    Function, Literal, Program, SpecExpr, SpecFunction, SpecLit, SpecProgram, SpecStmt,
    Statement, UnaryOp, copy_stmts, copy_opt_stmts, copy_cases, opt_stmts_view,
};

verus! {

broadcast use vstd::std_specs::vec::group_vec_axioms;

/// Counts of the optimisations made, for reports. Each count stops at
/// `usize::MAX`.
#[derive(Debug, Clone, Copy)]
pub struct OptStats {
    pub constants_folded: usize,
    pub dead_stmts_removed: usize,
    pub strength_reductions: usize,
    pub propagations: usize,
}

pub open spec fn sat_add(x: usize, k: nat) -> usize {
    if x + k > usize::MAX {
        usize::MAX
    } else {
        (x + k) as usize
    }
}

impl OptStats {
    pub open spec fn folded(self, k: nat) -> OptStats {
        OptStats { constants_folded: sat_add(self.constants_folded, k), ..self }
    }

    pub open spec fn dead(self, k: nat) -> OptStats {
        OptStats { dead_stmts_removed: sat_add(self.dead_stmts_removed, k), ..self }
    }

    pub open spec fn reduced(self, k: nat) -> OptStats {
        OptStats { strength_reductions: sat_add(self.strength_reductions, k), ..self }
    }

    pub open spec fn propagated(self, k: nat) -> OptStats {
        OptStats { propagations: sat_add(self.propagations, k), ..self }
    }

    pub open spec fn zero() -> OptStats {
        OptStats { constants_folded: 0, dead_stmts_removed: 0, strength_reductions: 0, propagations: 0 }
    }
}

impl OptStats {
    /// The counts as reports show them.
    pub fn summary(&self) -> (r: String)
        ensures
            r@ == "constantes plegadas: "@ + decimal(self.constants_folded as nat)
                + ", código muerto eliminado: "@ + decimal(self.dead_stmts_removed as nat)
                + ", reducciones de fuerza: "@ + decimal(self.strength_reductions as nat)
                + ", propagaciones: "@ + decimal(self.propagations as nat),
    {
        let a = usize_to_string(self.constants_folded);
        let b = usize_to_string(self.dead_stmts_removed);
        let c = usize_to_string(self.strength_reductions);
        let d = usize_to_string(self.propagations);
        let mut r = cat7(
            "constantes plegadas: ",
            a.as_str(),
            ", código muerto eliminado: ",
            b.as_str(),
            ", reducciones de fuerza: ",
            c.as_str(),
            ", propagaciones: ",
        );
        r.append(d.as_str());
        r
    }
}

impl Default for OptStats {
    fn default() -> (r: OptStats)
        ensures
            r == OptStats::zero(),
    {
        OptStats { constants_folded: 0, dead_stmts_removed: 0, strength_reductions: 0, propagations: 0 }
    }
}

/// An operation on numeric literals, at least one of them real (or an
/// integer division or power, whose result is real), whose folded result
/// takes floating-point arithmetic.
#[derive(Debug)]
pub struct RealQuery {
    pub op: BinaryOp,
    pub left: Literal,
    pub right: Literal,
}

/// The folded result of one operation: `None` where the operation does not
/// fold (a division by zero).
#[derive(Debug)]
pub struct RealResult {
    pub op: BinaryOp,
    pub left: Literal,
    pub right: Literal,
    pub result: Option<Literal>,
}

/// Known results of operations on real numbers.
#[derive(Debug)]
pub struct RealTable {
    pub entries: Vec<RealResult>,
}

pub type SpecQuery = (BinaryOp, SpecLit, SpecLit);

pub type SpecEntry = (BinaryOp, SpecLit, SpecLit, Option<SpecLit>);

impl View for RealQuery {
    type V = SpecQuery;

    open spec fn view(&self) -> SpecQuery {
        (self.op, self.left@, self.right@)
    }
}

pub open spec fn opt_lit_view(o: Option<Literal>) -> Option<SpecLit> {
    match o {
        Some(l) => Some(l@),
        None => None,
    }
}

impl View for RealTable {
    type V = Seq<SpecEntry>;

    open spec fn view(&self) -> Seq<SpecEntry> {
        self.entries@.map_values(
            |e: RealResult| (e.op, e.left@, e.right@, opt_lit_view(e.result)),
        )
    }
}

/// The result the table records for an operation: the first entry for it.
pub open spec fn table_lookup(t: Seq<SpecEntry>, op: BinaryOp, a: SpecLit, b: SpecLit) -> Option<Option<SpecLit>>
    decreases t.len(),
{
    if t.len() == 0 {
        None
    } else if t[0].0 == op && t[0].1 == a && t[0].2 == b {
        Some(t[0].3)
    } else {
        table_lookup(t.drop_first(), op, a, b)
    }
}

pub open spec fn real_result(t: Seq<SpecEntry>, op: BinaryOp, a: SpecLit, b: SpecLit) -> Result<Option<SpecLit>, SpecQuery> {
    match table_lookup(t, op, a, b) {
        Some(r) => Ok(r),
        None => Err((op, a, b)),
    }
}

pub open spec fn is_comparison(op: BinaryOp) -> bool {
    op == BinaryOp::Eq || op == BinaryOp::Ne || op == BinaryOp::Lt || op == BinaryOp::Le || op
        == BinaryOp::Gt || op == BinaryOp::Ge
}

pub open spec fn compare_ints(op: BinaryOp, a: i64, b: i64) -> bool {
    match op {
        BinaryOp::Eq => a == b,
        BinaryOp::Ne => a != b,
        BinaryOp::Lt => a < b,
        BinaryOp::Le => a <= b,
        BinaryOp::Gt => a > b,
        _ => a >= b,
    }
}

/// Folding of an operation on two integer literals. Addition, subtraction
/// and multiplication wrap around; a remainder that has no value in `i64`
/// (by zero, or `i64::MIN % -1`) does not fold.
pub open spec fn int_fold(t: Seq<SpecEntry>, op: BinaryOp, a: i64, b: i64) -> Result<Option<SpecLit>, SpecQuery> {
    match op {
        BinaryOp::Add => Ok(Some(SpecLit::Int(a.wrapping_add(b)))),
        BinaryOp::Sub => Ok(Some(SpecLit::Int(a.wrapping_sub(b)))),
        BinaryOp::Mul => Ok(Some(SpecLit::Int(a.wrapping_mul(b)))),
        BinaryOp::Div => if b != 0 {
            real_result(t, op, SpecLit::Int(a), SpecLit::Int(b))
        } else {
            Ok(None)
        },
        BinaryOp::Mod => match a.checked_rem(b) {
            Some(v) => Ok(Some(SpecLit::Int(v))),
            None => Ok(None),
        },
        BinaryOp::Power => real_result(t, op, SpecLit::Int(a), SpecLit::Int(b)),
        BinaryOp::And => Ok(None),
        BinaryOp::Or => Ok(None),
        _ => Ok(Some(SpecLit::Bool(compare_ints(op, a, b)))),
    }
}

pub open spec fn is_number(l: SpecLit) -> bool {
    l is Int || l is Real
}

/// Folding of two numeric literals, at least one real.
pub open spec fn real_fold(t: Seq<SpecEntry>, op: BinaryOp, a: SpecLit, b: SpecLit) -> Result<Option<SpecLit>, SpecQuery> {
    if op == BinaryOp::Mod || op == BinaryOp::And || op == BinaryOp::Or {
        Ok(None)
    } else {
        real_result(t, op, a, b)
    }
}

pub open spec fn bool_fold(op: BinaryOp, a: bool, b: bool) -> Option<SpecLit> {
    match op {
        BinaryOp::And => Some(SpecLit::Bool(a && b)),
        BinaryOp::Or => Some(SpecLit::Bool(a || b)),
        BinaryOp::Eq => Some(SpecLit::Bool(a == b)),
        BinaryOp::Ne => Some(SpecLit::Bool(a != b)),
        _ => None,
    }
}

/// The literal an operation on two folded operands folds to, if any.
pub open spec fn const_fold(t: Seq<SpecEntry>, l: SpecExpr, op: BinaryOp, r: SpecExpr) -> Result<Option<SpecLit>, SpecQuery> {
    match (l, r) {
        (SpecExpr::Lit(SpecLit::Int(a)), SpecExpr::Lit(SpecLit::Int(b))) => match int_fold(t, op, a, b) {
            Ok(None) => Ok(None),
            other => other,
        },
        (SpecExpr::Lit(a), SpecExpr::Lit(b)) => if is_number(a) && is_number(b) {
            real_fold(t, op, a, b)
        } else if a is Bool && b is Bool {
            Ok(bool_fold(op, a->Bool_0, b->Bool_0))
        } else {
            Ok(None)
        },
        _ => Ok(None),
    }
}

pub open spec fn int_lit(k: i64) -> SpecExpr {
    SpecExpr::Lit(SpecLit::Int(k))
}

/// Simplifications by neutral and absorbing elements (not counted).
pub open spec fn identity(l: SpecExpr, op: BinaryOp, r: SpecExpr) -> SpecExpr {
    if (op == BinaryOp::Add || op == BinaryOp::Sub) && r == int_lit(0) {
        l
    } else if op == BinaryOp::Add && l == int_lit(0) {
        r
    } else if op == BinaryOp::Mul && r == int_lit(1) {
        l
    } else if op == BinaryOp::Mul && l == int_lit(1) {
        r
    } else if op == BinaryOp::Mul && (r == int_lit(0) || l == int_lit(0)) {
        int_lit(0)
    } else {
        SpecExpr::Binary(Box::new(l), op, Box::new(r))
    }
}

pub open spec fn combine(t: Seq<SpecEntry>, l: SpecExpr, op: BinaryOp, r: SpecExpr, s: OptStats) -> Result<(SpecExpr, OptStats), SpecQuery> {
    match const_fold(t, l, op, r) {
        Err(q) => Err(q),
        Ok(Some(lit)) => Ok((SpecExpr::Lit(lit), s.folded(1))),
        Ok(None) => Ok((identity(l, op, r), s)),
    }
}

/// The text of the negation of a real number given by its text.
pub open spec fn negate_text(t: Seq<char>) -> Seq<char> {
    if t.len() > 0 && t[0] == '-' {
        t.drop_first()
    } else {
        seq!['-'] + t
    }
}

pub open spec fn unary_fold(op: UnaryOp, x: SpecExpr, s: OptStats) -> (SpecExpr, OptStats) {
    match (op, x) {
        (UnaryOp::Neg, SpecExpr::Lit(SpecLit::Int(n))) => (int_lit(0i64.wrapping_sub(n)), s.folded(1)),
        (UnaryOp::Neg, SpecExpr::Lit(SpecLit::Real(t))) => (
            SpecExpr::Lit(SpecLit::Real(negate_text(t))),
            s.folded(1),
        ),
        (UnaryOp::Not, SpecExpr::Lit(SpecLit::Bool(b))) => (SpecExpr::Lit(SpecLit::Bool(!b)), s.folded(1)),
        (UnaryOp::Neg, SpecExpr::Unary(UnaryOp::Neg, y)) => (*y, s.folded(1)),
        (UnaryOp::Not, SpecExpr::Unary(UnaryOp::Not, y)) => (*y, s.folded(1)),
        _ => (SpecExpr::Unary(op, Box::new(x)), s),
    }
}

/// Constant folding of an expression, bottom-up.
pub open spec fn fold(e: SpecExpr, t: Seq<SpecEntry>, s: OptStats) -> Result<(SpecExpr, OptStats), SpecQuery>
    decreases e,
{
    match e {
        SpecExpr::Binary(l, op, r) => match fold(*l, t, s) {
            Err(q) => Err(q),
            Ok((l2, s1)) => match fold(*r, t, s1) {
                Err(q) => Err(q),
                Ok((r2, s2)) => combine(t, l2, op, r2, s2),
            },
        },
        SpecExpr::Unary(op, x) => match fold(*x, t, s) {
            Err(q) => Err(q),
            Ok((x2, s1)) => Ok(unary_fold(op, x2, s1)),
        },
        SpecExpr::Call(f, args) => match fold_list(args, t, s) {
            Err(q) => Err(q),
            Ok((a2, s1)) => Ok((SpecExpr::Call(f, a2), s1)),
        },
        SpecExpr::Index(a, idx) => match fold_list(idx, t, s) {
            Err(q) => Err(q),
            Ok((i2, s1)) => Ok((SpecExpr::Index(a, i2), s1)),
        },
        _ => Ok((e, s)),
    }
}

pub open spec fn fold_list(es: Seq<SpecExpr>, t: Seq<SpecEntry>, s: OptStats) -> Result<(Seq<SpecExpr>, OptStats), SpecQuery>
    decreases es,
{
    if es.len() == 0 {
        Ok((Seq::empty(), s))
    } else {
        match fold_list(es.drop_last(), t, s) {
            Err(q) => Err(q),
            Ok((f1, s1)) => match fold(es.last(), t, s1) {
                Err(q) => Err(q),
                Ok((x, s2)) => Ok((f1.push(x), s2)),
            },
        }
    }
}

pub open spec fn fold_opt(o: Option<SpecExpr>, t: Seq<SpecEntry>, s: OptStats) -> Result<(Option<SpecExpr>, OptStats), SpecQuery> {
    match o {
        Some(x) => match fold(x, t, s) {
            Err(q) => Err(q),
            Ok((y, s1)) => Ok((Some(y), s1)),
        },
        None => Ok((None, s)),
    }
}

/// Strength reduction of the outermost operation of an expression.
pub open spec fn reduce(e: SpecExpr, s: OptStats) -> (SpecExpr, OptStats) {
    match e {
        SpecExpr::Binary(l, op, r) => if op == BinaryOp::Power {
            if *r == int_lit(2) {
                (SpecExpr::Binary(l, BinaryOp::Mul, l), s.reduced(1))
            } else if *r == int_lit(0) {
                (SpecExpr::Lit(SpecLit::Real("1.0"@)), s.reduced(1))
            } else if *r == int_lit(1) {
                (*l, s.reduced(1))
            } else {
                (e, s)
            }
        } else if op == BinaryOp::Mul {
            if *r == int_lit(2) {
                (SpecExpr::Binary(l, BinaryOp::Add, l), s.reduced(1))
            } else if *l == int_lit(2) {
                (SpecExpr::Binary(r, BinaryOp::Add, r), s.reduced(1))
            } else {
                (e, s)
            }
        } else {
            (e, s)
        },
        _ => (e, s),
    }
}

/// Folding followed by strength reduction.
pub open spec fn fold_reduce(e: SpecExpr, t: Seq<SpecEntry>, s: OptStats) -> Result<(SpecExpr, OptStats), SpecQuery> {
    match fold(e, t, s) {
        Err(q) => Err(q),
        Ok((e1, s1)) => Ok(reduce(e1, s1)),
    }
}

// ---------------------------------------------------------------------
// Statements and blocks
// ---------------------------------------------------------------------

pub open spec fn bool_lit(b: bool) -> SpecExpr {
    SpecExpr::Lit(SpecLit::Bool(b))
}

pub open spec fn opt_len(o: Option<Seq<SpecStmt>>) -> nat {
    match o {
        Some(b) => b.len(),
        None => 0,
    }
}

/// Optimises one statement: its expressions and nested blocks.
pub open spec fn opt_stmt(st: SpecStmt, t: Seq<SpecEntry>, s: OptStats) -> Result<(SpecStmt, OptStats), SpecQuery>
    decreases st, 0nat,
{
    match st {
        SpecStmt::Assign(target, v) => match fold_reduce(v, t, s) {
            Err(q) => Err(q),
            Ok((v2, s1)) => Ok((SpecStmt::Assign(target, v2), s1)),
        },
        SpecStmt::IndexAssign(a, idx, v) => match fold_list(idx, t, s) {
            Err(q) => Err(q),
            Ok((idx2, s1)) => match fold_reduce(v, t, s1) {
                Err(q) => Err(q),
                Ok((v2, s2)) => Ok((SpecStmt::IndexAssign(a, idx2, v2), s2)),
            },
        },
        SpecStmt::Write(es, nl) => match fold_list(es, t, s) {
            Err(q) => Err(q),
            Ok((es2, s1)) => Ok((SpecStmt::Write(es2, nl), s1)),
        },
        SpecStmt::If(c, tb, eb) => match fold(c, t, s) {
            Err(q) => Err(q),
            Ok((c2, s1)) => if c2 == bool_lit(true) {
                match opt_block(tb, t, s1) {
                    Err(q) => Err(q),
                    Ok((tb2, s2)) => Ok((SpecStmt::If(c2, tb2, None), s2.dead(opt_len(eb)))),
                }
            } else if c2 == bool_lit(false) {
                let s2 = s1.dead(tb.len());
                match eb {
                    Some(b) => match opt_block(b, t, s2) {
                        Err(q) => Err(q),
                        Ok((b2, s3)) => Ok((SpecStmt::If(c2, Seq::empty(), Some(b2)), s3)),
                    },
                    None => Ok((SpecStmt::If(c2, Seq::empty(), None), s2)),
                }
            } else {
                match opt_block(tb, t, s1) {
                    Err(q) => Err(q),
                    Ok((tb2, s2)) => match opt_opt_block(eb, t, s2) {
                        Err(q) => Err(q),
                        Ok((eb2, s3)) => Ok((SpecStmt::If(c2, tb2, eb2), s3)),
                    },
                }
            },
        },
        SpecStmt::While(c, body) => match fold(c, t, s) {
            Err(q) => Err(q),
            Ok((c2, s1)) => match opt_block(body, t, s1) {
                Err(q) => Err(q),
                Ok((b2, s2)) => Ok((SpecStmt::While(c2, b2), s2)),
            },
        },
        SpecStmt::Repeat(body, u) => match opt_block(body, t, s) {
            Err(q) => Err(q),
            Ok((b2, s1)) => match fold(u, t, s1) {
                Err(q) => Err(q),
                Ok((u2, s2)) => Ok((SpecStmt::Repeat(b2, u2), s2)),
            },
        },
        SpecStmt::For(v, a, b, step, body) => match fold(a, t, s) {
            Err(q) => Err(q),
            Ok((a2, s1)) => match fold(b, t, s1) {
                Err(q) => Err(q),
                Ok((b2, s2)) => match fold_opt(step, t, s2) {
                    Err(q) => Err(q),
                    Ok((step2, s3)) => match opt_block(body, t, s3) {
                        Err(q) => Err(q),
                        Ok((body2, s4)) => Ok((SpecStmt::For(v, a2, b2, step2, body2), s4)),
                    },
                },
            },
        },
        SpecStmt::Match(e, cases, d) => match fold(e, t, s) {
            Err(q) => Err(q),
            Ok((e2, s1)) => match opt_cases(cases, t, s1) {
                Err(q) => Err(q),
                Ok((c2, s2)) => match opt_opt_block(d, t, s2) {
                    Err(q) => Err(q),
                    Ok((d2, s3)) => Ok((SpecStmt::Match(e2, c2, d2), s3)),
                },
            },
        },
        SpecStmt::Call(f, args) => match fold_list(args, t, s) {
            Err(q) => Err(q),
            Ok((a2, s1)) => Ok((SpecStmt::Call(f, a2), s1)),
        },
        SpecStmt::Wait(d, ms) => match fold(d, t, s) {
            Err(q) => Err(q),
            Ok((d2, s1)) => Ok((SpecStmt::Wait(d2, ms), s1)),
        },
        SpecStmt::Dimension(n, sizes) => match fold_list(sizes, t, s) {
            Err(q) => Err(q),
            Ok((z2, s1)) => Ok((SpecStmt::Dimension(n, z2), s1)),
        },
        _ => Ok((st, s)),
    }
}

pub open spec fn opt_each(ss: Seq<SpecStmt>, t: Seq<SpecEntry>, s: OptStats) -> Result<(Seq<SpecStmt>, OptStats), SpecQuery>
    decreases ss, 0nat,
{
    if ss.len() == 0 {
        Ok((Seq::empty(), s))
    } else {
        match opt_each(ss.drop_last(), t, s) {
            Err(q) => Err(q),
            Ok((o1, s1)) => match opt_stmt(ss.last(), t, s1) {
                Err(q) => Err(q),
                Ok((x, s2)) => Ok((o1.push(x), s2)),
            },
        }
    }
}

pub open spec fn opt_cases(cases: Seq<(SpecExpr, Seq<SpecStmt>)>, t: Seq<SpecEntry>, s: OptStats) -> Result<(Seq<(SpecExpr, Seq<SpecStmt>)>, OptStats), SpecQuery>
    decreases cases, 0nat,
{
    if cases.len() == 0 {
        Ok((Seq::empty(), s))
    } else {
        match opt_cases(cases.drop_last(), t, s) {
            Err(q) => Err(q),
            Ok((c1, s1)) => match fold(cases.last().0, t, s1) {
                Err(q) => Err(q),
                Ok((e2, s2)) => match opt_block(cases.last().1, t, s2) {
                    Err(q) => Err(q),
                    Ok((b2, s3)) => Ok((c1.push((e2, b2)), s3)),
                },
            },
        }
    }
}

pub open spec fn opt_opt_block(o: Option<Seq<SpecStmt>>, t: Seq<SpecEntry>, s: OptStats) -> Result<(Option<Seq<SpecStmt>>, OptStats), SpecQuery>
    decreases o, 0nat,
{
    match o {
        Some(b) => match opt_block(b, t, s) {
            Err(q) => Err(q),
            Ok((b2, s1)) => Ok((Some(b2), s1)),
        },
        None => Ok((None, s)),
    }
}

/// Optimises a block: each statement, then dead code elimination,
/// constant propagation and a second folding pass.
pub open spec fn opt_block(ss: Seq<SpecStmt>, t: Seq<SpecEntry>, s: OptStats) -> Result<(Seq<SpecStmt>, OptStats), SpecQuery>
    decreases ss, 1nat,
{
    match opt_each(ss, t, s) {
        Err(q) => Err(q),
        Ok((ss1, s1)) => {
            let ss2 = eliminate_dead(ss1);
            let s2 = s1.dead((ss1.len() - ss2.len()) as nat);
            let (ss3, s3) = propagate(ss2, s2);
            fold_stmts(ss3, t, s3)
        },
    }
}

// Dead code.
pub open spec fn is_endless_loop(st: SpecStmt) -> bool {
    st matches SpecStmt::While(c, _) && c == bool_lit(true)
}

/// A statement after which nothing in the same block runs: an endless loop
/// (`Mientras Verdadero`) or a `Retornar`.
pub open spec fn ends_block(st: SpecStmt) -> bool {
    is_endless_loop(st) || st is Return
}

pub open spec fn is_empty_false_if(st: SpecStmt) -> bool {
    st matches SpecStmt::If(c, tb, eb) && c == bool_lit(false) && tb.len() == 0 && eb is None
}

/// The first statement at or after `i` that ends the block and that some
/// statement follows.
pub open spec fn first_cut(ss: Seq<SpecStmt>, i: nat) -> Option<nat>
    decreases ss.len() - i,
{
    if i >= ss.len() {
        None
    } else if ends_block(ss[i as int]) && i + 1 < ss.len() {
        Some(i)
    } else {
        first_cut(ss, i + 1)
    }
}

pub open spec fn drop_empty_false_ifs(ss: Seq<SpecStmt>) -> Seq<SpecStmt>
    decreases ss.len(),
{
    if ss.len() == 0 {
        Seq::empty()
    } else if is_empty_false_if(ss.last()) {
        drop_empty_false_ifs(ss.drop_last())
    } else {
        drop_empty_false_ifs(ss.drop_last()).push(ss.last())
    }
}

/// Drops what follows the first endless loop (`Mientras Verdadero`) or
/// `Retornar`, then the `Si` statements left empty by a condition folded
/// to false.
pub open spec fn eliminate_dead(ss: Seq<SpecStmt>) -> Seq<SpecStmt> {
    let cut = match first_cut(ss, 0) {
        Some(i) => ss.take(i + 1 as int),
        None => ss,
    };
    drop_empty_false_ifs(cut)
}

// Constant propagation.
pub type Known = Map<Seq<char>, SpecLit>;

pub open spec fn subst_expr(e: SpecExpr, k: Known, s: OptStats) -> (SpecExpr, OptStats)
    decreases e,
{
    match e {
        SpecExpr::Var(n) => if k.contains_key(n) {
            (SpecExpr::Lit(k[n]), s.propagated(1))
        } else {
            (e, s)
        },
        SpecExpr::Binary(l, op, r) => {
            let (l2, s1) = subst_expr(*l, k, s);
            let (r2, s2) = subst_expr(*r, k, s1);
            (SpecExpr::Binary(Box::new(l2), op, Box::new(r2)), s2)
        },
        SpecExpr::Unary(op, x) => {
            let (x2, s1) = subst_expr(*x, k, s);
            (SpecExpr::Unary(op, Box::new(x2)), s1)
        },
        SpecExpr::Call(f, args) => {
            let (a2, s1) = subst_list(args, k, s);
            (SpecExpr::Call(f, a2), s1)
        },
        SpecExpr::Index(a, idx) => {
            let (i2, s1) = subst_list(idx, k, s);
            (SpecExpr::Index(a, i2), s1)
        },
        _ => (e, s),
    }
}

pub open spec fn subst_list(es: Seq<SpecExpr>, k: Known, s: OptStats) -> (Seq<SpecExpr>, OptStats)
    decreases es,
{
    if es.len() == 0 {
        (Seq::empty(), s)
    } else {
        let (f1, s1) = subst_list(es.drop_last(), k, s);
        let (x, s2) = subst_expr(es.last(), k, s1);
        (f1.push(x), s2)
    }
}

pub open spec fn subst_opt(o: Option<SpecExpr>, k: Known, s: OptStats) -> (Option<SpecExpr>, OptStats) {
    match o {
        Some(x) => {
            let (y, s1) = subst_expr(x, k, s);
            (Some(y), s1)
        },
        None => (None, s),
    }
}

/// Replaces the variables of known constant value in the expressions of a
/// statement (not in its nested blocks). The conditions of `Mientras` and
/// `Repetir` are left alone, since they are evaluated again after the body
/// has run, and so are the arguments of a procedure call, which may be
/// bound to parameters passed by reference.
pub open spec fn subst_stmt(st: SpecStmt, k: Known, s: OptStats) -> (SpecStmt, OptStats) {
    match st {
        SpecStmt::Assign(target, v) => {
            let (v2, s1) = subst_expr(v, k, s);
            (SpecStmt::Assign(target, v2), s1)
        },
        SpecStmt::IndexAssign(a, idx, v) => {
            let (i2, s1) = subst_list(idx, k, s);
            let (v2, s2) = subst_expr(v, k, s1);
            (SpecStmt::IndexAssign(a, i2, v2), s2)
        },
        SpecStmt::Write(es, nl) => {
            let (e2, s1) = subst_list(es, k, s);
            (SpecStmt::Write(e2, nl), s1)
        },
        SpecStmt::If(c, tb, eb) => {
            let (c2, s1) = subst_expr(c, k, s);
            (SpecStmt::If(c2, tb, eb), s1)
        },
        SpecStmt::For(v, a, b, step, body) => {
            let (a2, s1) = subst_expr(a, k, s);
            let (b2, s2) = subst_expr(b, k, s1);
            let (st2, s3) = subst_opt(step, k, s2);
            (SpecStmt::For(v, a2, b2, st2, body), s3)
        },
        SpecStmt::Wait(d, ms) => {
            let (d2, s1) = subst_expr(d, k, s);
            (SpecStmt::Wait(d2, ms), s1)
        },
        _ => (st, s),
    }
}

pub open spec fn forget_read(ts: Seq<SpecExpr>, k: Known) -> Known
    decreases ts.len(),
{
    if ts.len() == 0 {
        k
    } else {
        let k1 = forget_read(ts.drop_last(), k);
        match ts.last() {
            SpecExpr::Var(n) => k1.remove(n),
            _ => k1,
        }
    }
}

/// What is known after a statement: an assignment of a literal records it,
/// any other assignment forgets the variable; control flow and calls
/// forget everything; reading forgets the variables read.
pub open spec fn update_known(st: SpecStmt, k: Known) -> Known {
    match st {
        SpecStmt::Assign(target, v) => match v {
            SpecExpr::Lit(l) => k.insert(target, l),
            _ => k.remove(target),
        },
        SpecStmt::If(_, _, _) => Map::empty(),
        SpecStmt::While(_, _) => Map::empty(),
        SpecStmt::Repeat(_, _) => Map::empty(),
        SpecStmt::For(_, _, _, _, _) => Map::empty(),
        SpecStmt::Match(_, _, _) => Map::empty(),
        SpecStmt::Read(ts) => forget_read(ts, k),
        SpecStmt::Call(_, _) => Map::empty(),
        _ => k,
    }
}

pub open spec fn propagate_from(ss: Seq<SpecStmt>, s: OptStats) -> (Seq<SpecStmt>, Known, OptStats)
    decreases ss.len(),
{
    if ss.len() == 0 {
        (Seq::empty(), Map::empty(), s)
    } else {
        let (o1, k1, s1) = propagate_from(ss.drop_last(), s);
        let (x, s2) = subst_stmt(ss.last(), k1, s1);
        (o1.push(x), update_known(x, k1), s2)
    }
}

/// Constant propagation through a block of straight-line code.
pub open spec fn propagate(ss: Seq<SpecStmt>, s: OptStats) -> (Seq<SpecStmt>, OptStats) {
    (propagate_from(ss, s).0, propagate_from(ss, s).2)
}

// The second folding pass.
pub open spec fn fold_stmt(st: SpecStmt, t: Seq<SpecEntry>, s: OptStats) -> Result<(SpecStmt, OptStats), SpecQuery>
    decreases st,
{
    match st {
        SpecStmt::Assign(target, v) => match fold_reduce(v, t, s) {
            Err(q) => Err(q),
            Ok((v2, s1)) => Ok((SpecStmt::Assign(target, v2), s1)),
        },
        SpecStmt::IndexAssign(a, idx, v) => match fold_list(idx, t, s) {
            Err(q) => Err(q),
            Ok((idx2, s1)) => match fold(v, t, s1) {
                Err(q) => Err(q),
                Ok((v2, s2)) => Ok((SpecStmt::IndexAssign(a, idx2, v2), s2)),
            },
        },
        SpecStmt::Write(es, nl) => match fold_list(es, t, s) {
            Err(q) => Err(q),
            Ok((es2, s1)) => Ok((SpecStmt::Write(es2, nl), s1)),
        },
        SpecStmt::If(c, tb, eb) => match fold(c, t, s) {
            Err(q) => Err(q),
            Ok((c2, s1)) => match fold_stmts(tb, t, s1) {
                Err(q) => Err(q),
                Ok((tb2, s2)) => match eb {
                    Some(b) => match fold_stmts(b, t, s2) {
                        Err(q) => Err(q),
                        Ok((b2, s3)) => Ok((SpecStmt::If(c2, tb2, Some(b2)), s3)),
                    },
                    None => Ok((SpecStmt::If(c2, tb2, None), s2)),
                },
            },
        },
        SpecStmt::While(c, body) => match fold(c, t, s) {
            Err(q) => Err(q),
            Ok((c2, s1)) => match fold_stmts(body, t, s1) {
                Err(q) => Err(q),
                Ok((b2, s2)) => Ok((SpecStmt::While(c2, b2), s2)),
            },
        },
        SpecStmt::Repeat(body, u) => match fold_stmts(body, t, s) {
            Err(q) => Err(q),
            Ok((b2, s1)) => match fold(u, t, s1) {
                Err(q) => Err(q),
                Ok((u2, s2)) => Ok((SpecStmt::Repeat(b2, u2), s2)),
            },
        },
        SpecStmt::For(v, a, b, step, body) => match fold(a, t, s) {
            Err(q) => Err(q),
            Ok((a2, s1)) => match fold(b, t, s1) {
                Err(q) => Err(q),
                Ok((b2, s2)) => match fold_opt(step, t, s2) {
                    Err(q) => Err(q),
                    Ok((step2, s3)) => match fold_stmts(body, t, s3) {
                        Err(q) => Err(q),
                        Ok((body2, s4)) => Ok((SpecStmt::For(v, a2, b2, step2, body2), s4)),
                    },
                },
            },
        },
        _ => Ok((st, s)),
    }
}

pub open spec fn fold_stmts(ss: Seq<SpecStmt>, t: Seq<SpecEntry>, s: OptStats) -> Result<(Seq<SpecStmt>, OptStats), SpecQuery>
    decreases ss,
{
    if ss.len() == 0 {
        Ok((Seq::empty(), s))
    } else {
        match fold_stmts(ss.drop_last(), t, s) {
            Err(q) => Err(q),
            Ok((o1, s1)) => match fold_stmt(ss.last(), t, s1) {
                Err(q) => Err(q),
                Ok((x, s2)) => Ok((o1.push(x), s2)),
            },
        }
    }
}

// Programs.
pub open spec fn opt_functions(fs: Seq<SpecFunction>, t: Seq<SpecEntry>, s: OptStats) -> Result<(Seq<SpecFunction>, OptStats), SpecQuery>
    decreases fs.len(),
{
    if fs.len() == 0 {
        Ok((Seq::empty(), s))
    } else {
        match opt_functions(fs.drop_last(), t, s) {
            Err(q) => Err(q),
            Ok((o1, s1)) => match opt_block(fs.last().body, t, s1) {
                Err(q) => Err(q),
                Ok((b, s2)) => Ok((o1.push(SpecFunction { body: b, ..fs.last() }), s2)),
            },
        }
    }
}

/// Optimises the body of each function, then the main body.
pub open spec fn opt_program(p: SpecProgram, t: Seq<SpecEntry>, s: OptStats) -> Result<(SpecProgram, OptStats), SpecQuery> {
    match opt_functions(p.functions, t, s) {
        Err(q) => Err(q),
        Ok((fs, s1)) => match opt_block(p.main_body, t, s1) {
            Err(q) => Err(q),
            Ok((m, s2)) => Ok((SpecProgram { name: p.name, functions: fs, main_body: m }, s2)),
        },
    }
}

// ---------------------------------------------------------------------
// Progress of the question-and-answer loop over real results
// ---------------------------------------------------------------------
/// A failure asks for an operation that the table does not answer.
pub open spec fn asks_new<T>(r: Result<T, SpecQuery>, t: Seq<SpecEntry>) -> bool {
    match r {
        Err(q) => table_lookup(t, q.0, q.1, q.2) is None,
        Ok(_) => true,
    }
}

proof fn lemma_combine_new(t: Seq<SpecEntry>, l: SpecExpr, op: BinaryOp, r: SpecExpr, s: OptStats)
    ensures
        asks_new(combine(t, l, op, r, s), t),
{
    match (l, r) {
        (SpecExpr::Lit(SpecLit::Int(a)), SpecExpr::Lit(SpecLit::Int(b))) => {
            assert(asks_new(int_fold(t, op, a, b), t));
        },
        (SpecExpr::Lit(a), SpecExpr::Lit(b)) => {
            assert(asks_new(real_fold(t, op, a, b), t));
        },
        _ => {},
    }
}

proof fn lemma_fold_new(e: SpecExpr, t: Seq<SpecEntry>)
    ensures
        forall|s: OptStats| asks_new(#[trigger] fold(e, t, s), t),
    decreases e,
{
    match e {
        SpecExpr::Binary(l, op, r) => {
            lemma_fold_new(*l, t);
            lemma_fold_new(*r, t);
            assert forall|s: OptStats| asks_new(#[trigger] fold(e, t, s), t) by {
                match fold(*l, t, s) {
                    Err(_) => {},
                    Ok((l2, s1)) => match fold(*r, t, s1) {
                        Err(_) => {},
                        Ok((r2, s2)) => {
                            lemma_combine_new(t, l2, op, r2, s2);
                        },
                    },
                }
            }
        },
        SpecExpr::Unary(_, x) => {
            lemma_fold_new(*x, t);
            assert forall|s: OptStats| asks_new(#[trigger] fold(e, t, s), t) by {
                assert(asks_new(fold(*x, t, s), t));
            }
        },
        SpecExpr::Call(_, args) => {
            lemma_fold_list_new(args, t);
            assert forall|s: OptStats| asks_new(#[trigger] fold(e, t, s), t) by {
                assert(asks_new(fold_list(args, t, s), t));
            }
        },
        SpecExpr::Index(_, idx) => {
            lemma_fold_list_new(idx, t);
            assert forall|s: OptStats| asks_new(#[trigger] fold(e, t, s), t) by {
                assert(asks_new(fold_list(idx, t, s), t));
            }
        },
        _ => {
            assert forall|s: OptStats| asks_new(#[trigger] fold(e, t, s), t) by {
                assert(fold(e, t, s) == Ok::<(SpecExpr, OptStats), SpecQuery>((e, s)));
            }
        },
    }
}

proof fn lemma_fold_list_new(es: Seq<SpecExpr>, t: Seq<SpecEntry>)
    ensures
        forall|s: OptStats| asks_new(#[trigger] fold_list(es, t, s), t),
    decreases es,
{
    if es.len() > 0 {
        lemma_fold_list_new(es.drop_last(), t);
        assert(decreases_to!(es => es[es.len() - 1]));
        lemma_fold_new(es.last(), t);
        assert forall|s: OptStats| asks_new(#[trigger] fold_list(es, t, s), t) by {
            match fold_list(es.drop_last(), t, s) {
                Err(_) => {},
                Ok((f1, s1)) => {
                    assert(asks_new(fold(es.last(), t, s1), t));
                },
            }
        }
    }
}

proof fn lemma_fold_reduce_new(e: SpecExpr, t: Seq<SpecEntry>)
    ensures
        forall|s: OptStats| asks_new(#[trigger] fold_reduce(e, t, s), t),
        forall|o: Option<SpecExpr>, s: OptStats| asks_new(#[trigger] fold_opt(o, t, s), t),
{
    lemma_fold_new(e, t);
    assert forall|o: Option<SpecExpr>, s: OptStats| asks_new(#[trigger] fold_opt(o, t, s), t) by {
        if o is Some {
            lemma_fold_new(o->0, t);
        }
    }
}

proof fn lemma_opt_stmt_new(st: SpecStmt, t: Seq<SpecEntry>)
    ensures
        forall|s: OptStats| asks_new(#[trigger] opt_stmt(st, t, s), t),
    decreases st, 0nat,
{
    match st {
        SpecStmt::Assign(_, v) => {
            lemma_fold_reduce_new(v, t);
            assert forall|s: OptStats| asks_new(#[trigger] opt_stmt(st, t, s), t) by {
                assert(asks_new(fold_reduce(v, t, s), t));
            }
        },
        SpecStmt::IndexAssign(_, idx, v) => {
            lemma_fold_list_new(idx, t);
            lemma_fold_reduce_new(v, t);
            assert forall|s: OptStats| asks_new(#[trigger] opt_stmt(st, t, s), t) by {
                match fold_list(idx, t, s) {
                    Err(_) => {},
                    Ok((_, s1)) => {
                        assert(asks_new(fold_reduce(v, t, s1), t));
                    },
                }
            }
        },
        SpecStmt::Write(es, _) => {
            lemma_fold_list_new(es, t);
            assert forall|s: OptStats| asks_new(#[trigger] opt_stmt(st, t, s), t) by {
                assert(asks_new(fold_list(es, t, s), t));
            }
        },
        SpecStmt::If(c, tb, eb) => {
            lemma_fold_new(c, t);
            lemma_opt_block_new(tb, t);
            lemma_opt_opt_block_new(eb, t);
            if eb is Some {
                lemma_opt_block_new(eb->0, t);
            }
            assert forall|s: OptStats| asks_new(#[trigger] opt_stmt(st, t, s), t) by {
                match fold(c, t, s) {
                    Err(_) => {},
                    Ok((c2, s1)) => {
                        if c2 == bool_lit(true) {
                            assert(asks_new(opt_block(tb, t, s1), t));
                        } else if c2 == bool_lit(false) {
                            if eb is Some {
                                assert(asks_new(opt_block(eb->0, t, s1.dead(tb.len())), t));
                            }
                        } else {
                            match opt_block(tb, t, s1) {
                                Err(_) => {},
                                Ok((_, s2)) => {
                                    assert(asks_new(opt_opt_block(eb, t, s2), t));
                                },
                            }
                        }
                    },
                }
            }
        },
        SpecStmt::While(c, body) => {
            lemma_fold_new(c, t);
            lemma_opt_block_new(body, t);
            assert forall|s: OptStats| asks_new(#[trigger] opt_stmt(st, t, s), t) by {
                match fold(c, t, s) {
                    Err(_) => {},
                    Ok((_, s1)) => {
                        assert(asks_new(opt_block(body, t, s1), t));
                    },
                }
            }
        },
        SpecStmt::Repeat(body, u) => {
            lemma_opt_block_new(body, t);
            lemma_fold_new(u, t);
            assert forall|s: OptStats| asks_new(#[trigger] opt_stmt(st, t, s), t) by {
                match opt_block(body, t, s) {
                    Err(_) => {},
                    Ok((_, s1)) => {
                        assert(asks_new(fold(u, t, s1), t));
                    },
                }
            }
        },
        SpecStmt::For(_, a, b, step, body) => {
            lemma_fold_new(a, t);
            lemma_fold_new(b, t);
            lemma_fold_reduce_new(a, t);
            lemma_opt_block_new(body, t);
            assert forall|s: OptStats| asks_new(#[trigger] opt_stmt(st, t, s), t) by {
                match fold(a, t, s) {
                    Err(_) => {},
                    Ok((_, s1)) => match fold(b, t, s1) {
                        Err(_) => {},
                        Ok((_, s2)) => match fold_opt(step, t, s2) {
                            Err(_) => {},
                            Ok((_, s3)) => {
                                assert(asks_new(opt_block(body, t, s3), t));
                            },
                        },
                    },
                }
            }
        },
        SpecStmt::Match(e, cases, d) => {
            lemma_fold_new(e, t);
            lemma_opt_cases_new(cases, t);
            lemma_opt_opt_block_new(d, t);
            assert forall|s: OptStats| asks_new(#[trigger] opt_stmt(st, t, s), t) by {
                match fold(e, t, s) {
                    Err(_) => {},
                    Ok((_, s1)) => match opt_cases(cases, t, s1) {
                        Err(_) => {},
                        Ok((_, s2)) => {
                            assert(asks_new(opt_opt_block(d, t, s2), t));
                        },
                    },
                }
            }
        },
        SpecStmt::Call(_, args) => {
            lemma_fold_list_new(args, t);
            assert forall|s: OptStats| asks_new(#[trigger] opt_stmt(st, t, s), t) by {
                assert(asks_new(fold_list(args, t, s), t));
            }
        },
        SpecStmt::Wait(d, _) => {
            lemma_fold_new(d, t);
            assert forall|s: OptStats| asks_new(#[trigger] opt_stmt(st, t, s), t) by {
                assert(asks_new(fold(d, t, s), t));
            }
        },
        SpecStmt::Dimension(_, sizes) => {
            lemma_fold_list_new(sizes, t);
            assert forall|s: OptStats| asks_new(#[trigger] opt_stmt(st, t, s), t) by {
                assert(asks_new(fold_list(sizes, t, s), t));
            }
        },
        _ => {
            assert forall|s: OptStats| asks_new(#[trigger] opt_stmt(st, t, s), t) by {
                assert(opt_stmt(st, t, s) == Ok::<(SpecStmt, OptStats), SpecQuery>((st, s)));
            }
        },
    }
}

proof fn lemma_opt_each_new(ss: Seq<SpecStmt>, t: Seq<SpecEntry>)
    ensures
        forall|s: OptStats| asks_new(#[trigger] opt_each(ss, t, s), t),
    decreases ss, 0nat,
{
    if ss.len() > 0 {
        lemma_opt_each_new(ss.drop_last(), t);
        assert(decreases_to!(ss => ss[ss.len() - 1]));
        lemma_opt_stmt_new(ss.last(), t);
        assert forall|s: OptStats| asks_new(#[trigger] opt_each(ss, t, s), t) by {
            match opt_each(ss.drop_last(), t, s) {
                Err(_) => {},
                Ok((_, s1)) => {
                    assert(asks_new(opt_stmt(ss.last(), t, s1), t));
                },
            }
        }
    }
}

proof fn lemma_opt_cases_new(cases: Seq<(SpecExpr, Seq<SpecStmt>)>, t: Seq<SpecEntry>)
    ensures
        forall|s: OptStats| asks_new(#[trigger] opt_cases(cases, t, s), t),
    decreases cases, 0nat,
{
    if cases.len() > 0 {
        lemma_opt_cases_new(cases.drop_last(), t);
        assert(decreases_to!(cases => cases[cases.len() - 1]));
        lemma_fold_new(cases.last().0, t);
        lemma_opt_block_new(cases.last().1, t);
        assert forall|s: OptStats| asks_new(#[trigger] opt_cases(cases, t, s), t) by {
            match opt_cases(cases.drop_last(), t, s) {
                Err(_) => {},
                Ok((_, s1)) => match fold(cases.last().0, t, s1) {
                    Err(_) => {},
                    Ok((_, s2)) => {
                        assert(asks_new(opt_block(cases.last().1, t, s2), t));
                    },
                },
            }
        }
    }
}

proof fn lemma_opt_opt_block_new(o: Option<Seq<SpecStmt>>, t: Seq<SpecEntry>)
    ensures
        forall|s: OptStats| asks_new(#[trigger] opt_opt_block(o, t, s), t),
    decreases o, 0nat,
{
    if o is Some {
        lemma_opt_block_new(o->0, t);
        assert forall|s: OptStats| asks_new(#[trigger] opt_opt_block(o, t, s), t) by {
            assert(asks_new(opt_block(o->0, t, s), t));
        }
    }
}

proof fn lemma_opt_block_new(ss: Seq<SpecStmt>, t: Seq<SpecEntry>)
    ensures
        forall|s: OptStats| asks_new(#[trigger] opt_block(ss, t, s), t),
    decreases ss, 1nat,
{
    lemma_opt_each_new(ss, t);
    assert forall|s: OptStats| asks_new(#[trigger] opt_block(ss, t, s), t) by {
        match opt_each(ss, t, s) {
            Ok((ss1, s1)) => {
                let ss2 = eliminate_dead(ss1);
                let s2 = s1.dead((ss1.len() - ss2.len()) as nat);
                let (ss3, s3) = propagate(ss2, s2);
                lemma_fold_stmts_new(ss3, t);
                assert(asks_new(fold_stmts(ss3, t, s3), t));
            },
            Err(_) => {},
        }
    }
}

proof fn lemma_fold_stmt_new(st: SpecStmt, t: Seq<SpecEntry>)
    ensures
        forall|s: OptStats| asks_new(#[trigger] fold_stmt(st, t, s), t),
    decreases st,
{
    match st {
        SpecStmt::Assign(_, v) => {
            lemma_fold_reduce_new(v, t);
            assert forall|s: OptStats| asks_new(#[trigger] fold_stmt(st, t, s), t) by {
                assert(asks_new(fold_reduce(v, t, s), t));
            }
        },
        SpecStmt::IndexAssign(_, idx, v) => {
            lemma_fold_list_new(idx, t);
            lemma_fold_new(v, t);
            assert forall|s: OptStats| asks_new(#[trigger] fold_stmt(st, t, s), t) by {
                match fold_list(idx, t, s) {
                    Err(_) => {},
                    Ok((_, s1)) => {
                        assert(asks_new(fold(v, t, s1), t));
                    },
                }
            }
        },
        SpecStmt::Write(es, _) => {
            lemma_fold_list_new(es, t);
            assert forall|s: OptStats| asks_new(#[trigger] fold_stmt(st, t, s), t) by {
                assert(asks_new(fold_list(es, t, s), t));
            }
        },
        SpecStmt::If(c, tb, eb) => {
            lemma_fold_new(c, t);
            lemma_fold_stmts_new(tb, t);
            if eb is Some {
                lemma_fold_stmts_new(eb->0, t);
            }
            assert forall|s: OptStats| asks_new(#[trigger] fold_stmt(st, t, s), t) by {
                match fold(c, t, s) {
                    Err(_) => {},
                    Ok((_, s1)) => match fold_stmts(tb, t, s1) {
                        Err(_) => {},
                        Ok((_, s2)) => {
                            if eb is Some {
                                assert(asks_new(fold_stmts(eb->0, t, s2), t));
                            }
                        },
                    },
                }
            }
        },
        SpecStmt::While(c, body) => {
            lemma_fold_new(c, t);
            lemma_fold_stmts_new(body, t);
            assert forall|s: OptStats| asks_new(#[trigger] fold_stmt(st, t, s), t) by {
                match fold(c, t, s) {
                    Err(_) => {},
                    Ok((_, s1)) => {
                        assert(asks_new(fold_stmts(body, t, s1), t));
                    },
                }
            }
        },
        SpecStmt::Repeat(body, u) => {
            lemma_fold_stmts_new(body, t);
            lemma_fold_new(u, t);
            assert forall|s: OptStats| asks_new(#[trigger] fold_stmt(st, t, s), t) by {
                match fold_stmts(body, t, s) {
                    Err(_) => {},
                    Ok((_, s1)) => {
                        assert(asks_new(fold(u, t, s1), t));
                    },
                }
            }
        },
        SpecStmt::For(_, a, b, step, body) => {
            lemma_fold_new(a, t);
            lemma_fold_new(b, t);
            lemma_fold_reduce_new(a, t);
            lemma_fold_stmts_new(body, t);
            assert forall|s: OptStats| asks_new(#[trigger] fold_stmt(st, t, s), t) by {
                match fold(a, t, s) {
                    Err(_) => {},
                    Ok((_, s1)) => match fold(b, t, s1) {
                        Err(_) => {},
                        Ok((_, s2)) => match fold_opt(step, t, s2) {
                            Err(_) => {},
                            Ok((_, s3)) => {
                                assert(asks_new(fold_stmts(body, t, s3), t));
                            },
                        },
                    },
                }
            }
        },
        _ => {
            assert forall|s: OptStats| asks_new(#[trigger] fold_stmt(st, t, s), t) by {
                assert(fold_stmt(st, t, s) == Ok::<(SpecStmt, OptStats), SpecQuery>((st, s)));
            }
        },
    }
}

proof fn lemma_fold_stmts_new(ss: Seq<SpecStmt>, t: Seq<SpecEntry>)
    ensures
        forall|s: OptStats| asks_new(#[trigger] fold_stmts(ss, t, s), t),
    decreases ss,
{
    if ss.len() > 0 {
        lemma_fold_stmts_new(ss.drop_last(), t);
        assert(decreases_to!(ss => ss[ss.len() - 1]));
        lemma_fold_stmt_new(ss.last(), t);
        assert forall|s: OptStats| asks_new(#[trigger] fold_stmts(ss, t, s), t) by {
            match fold_stmts(ss.drop_last(), t, s) {
                Err(_) => {},
                Ok((_, s1)) => {
                    assert(asks_new(fold_stmt(ss.last(), t, s1), t));
                },
            }
        }
    }
}

proof fn lemma_opt_functions_new(fs: Seq<SpecFunction>, t: Seq<SpecEntry>)
    ensures
        forall|s: OptStats| asks_new(#[trigger] opt_functions(fs, t, s), t),
    decreases fs.len(),
{
    if fs.len() > 0 {
        lemma_opt_functions_new(fs.drop_last(), t);
        lemma_opt_block_new(fs.last().body, t);
        assert forall|s: OptStats| asks_new(#[trigger] opt_functions(fs, t, s), t) by {
            match opt_functions(fs.drop_last(), t, s) {
                Err(_) => {},
                Ok((_, s1)) => {
                    assert(asks_new(opt_block(fs.last().body, t, s1), t));
                },
            }
        }
    }
}

/// When optimisation stops to ask for the result of an operation on real
/// numbers, the table does not hold that result yet: each answer added to
/// the table lets the next run get further.
pub proof fn law_optimize_asks_new(p: SpecProgram, t: Seq<SpecEntry>, s: OptStats)
    ensures
        asks_new(opt_program(p, t, s), t),
{
    lemma_opt_functions_new(p.functions, t);
    lemma_opt_block_new(p.main_body, t);
    match opt_functions(p.functions, t, s) {
        Err(_) => {},
        Ok((_, s1)) => {
            assert(asks_new(opt_block(p.main_body, t, s1), t));
        },
    }
}

proof fn lemma_subst_expr_nothing_known(e: SpecExpr, s: OptStats)
    ensures
        subst_expr(e, Map::empty(), s) == (e, s),
    decreases e,
{
    match e {
        SpecExpr::Binary(l, op, r) => {
            lemma_subst_expr_nothing_known(*l, s);
            lemma_subst_expr_nothing_known(*r, s);
        },
        SpecExpr::Unary(op, x) => {
            lemma_subst_expr_nothing_known(*x, s);
        },
        SpecExpr::Call(f, args) => {
            lemma_subst_list_nothing_known(args, s);
        },
        SpecExpr::Index(a, idx) => {
            lemma_subst_list_nothing_known(idx, s);
        },
        _ => {},
    }
}

proof fn lemma_subst_list_nothing_known(es: Seq<SpecExpr>, s: OptStats)
    ensures
        subst_list(es, Map::empty(), s) == (es, s),
    decreases es,
{
    if es.len() > 0 {
        lemma_subst_list_nothing_known(es.drop_last(), s);
        lemma_subst_expr_nothing_known(es.last(), s);
        assert(es.drop_last().push(es.last()) =~= es);
    }
}

proof fn lemma_subst_stmt_nothing_known(st: SpecStmt, s: OptStats)
    ensures
        subst_stmt(st, Map::empty(), s) == (st, s),
{
    match st {
        SpecStmt::Assign(_, v) => lemma_subst_expr_nothing_known(v, s),
        SpecStmt::IndexAssign(_, idx, v) => {
            lemma_subst_list_nothing_known(idx, s);
            lemma_subst_expr_nothing_known(v, s);
        },
        SpecStmt::Write(es, _) => lemma_subst_list_nothing_known(es, s),
        SpecStmt::If(c, _, _) => lemma_subst_expr_nothing_known(c, s),
        SpecStmt::For(_, a, b, step, _) => {
            lemma_subst_expr_nothing_known(a, s);
            lemma_subst_expr_nothing_known(b, s);
            match step {
                Some(x) => lemma_subst_expr_nothing_known(x, s),
                None => {},
            }
        },
        SpecStmt::Wait(d, _) => lemma_subst_expr_nothing_known(d, s),
        _ => {},
    }
}

/// After a loop (`Para`, `Mientras`, `Repetir`), a branch (`Si`, `Segun`)
/// or a procedure call, no variable is known to hold a constant, so the
/// statement that follows is kept as it is: a value assigned before the
/// loop is never put in place of a variable after it.
pub proof fn law_nothing_known_after_control_flow(
    ss: Seq<SpecStmt>,
    st: SpecStmt,
    next: SpecStmt,
    s: OptStats,
)
    requires
        st is For || st is While || st is Repeat || st is If || st is Match || st is Call,
    ensures
        propagate_from(ss.push(st), s).1 == Map::<Seq<char>, SpecLit>::empty(),
        propagate_from(ss.push(st).push(next), s).0 == propagate_from(ss.push(st), s).0.push(next),
        propagate_from(ss.push(st).push(next), s).2 == propagate_from(ss.push(st), s).2,
{
    let pre = ss.push(st);
    let all = pre.push(next);
    assert(pre.drop_last() =~= ss);
    assert(all.drop_last() =~= pre);
    let (o0, k0, s0) = propagate_from(ss, s);
    let (x, s1) = subst_stmt(st, k0, s0);
    assert(update_known(x, k0) == Map::<Seq<char>, SpecLit>::empty());
    lemma_subst_stmt_nothing_known(next, propagate_from(pre, s).2);
}

// ---------------------------------------------------------------------
// Executable optimisation
// ---------------------------------------------------------------------

/// Equality of literals by their models.
pub fn lit_eq(a: &Literal, b: &Literal) -> (r: bool)
    ensures
        r == (a@ == b@),
{
    match (a, b) {
        (Literal::Integer(x), Literal::Integer(y)) => *x == *y,
        (Literal::Real(x), Literal::Real(y)) => *x == *y,
        (Literal::String(x), Literal::String(y)) => *x == *y,
        (Literal::Boolean(x), Literal::Boolean(y)) => *x == *y,
        _ => false,
    }
}

fn copy_opt_lit(o: &Option<Literal>) -> (r: Option<Literal>)
    ensures
        opt_lit_view(r) == opt_lit_view(*o),
{
    match o {
        Some(l) => Some(l.copy()),
        None => None,
    }
}

impl RealTable {
    /// A table with no results.
    pub fn new() -> (r: RealTable)
        ensures
            r@ == Seq::<SpecEntry>::empty(),
    {
        let r = RealTable { entries: Vec::new() };
        assert(r@ =~= Seq::<SpecEntry>::empty());
        r
    }

    /// Records the result of the operation `q`.
    pub fn add(&mut self, q: RealQuery, result: Option<Literal>)
        ensures
            final(self)@ == old(self)@.push((q.op, q.left@, q.right@, opt_lit_view(result))),
    {
        let e = RealResult { op: q.op, left: q.left, right: q.right, result };
        self.entries.push(e);
        assert(self@ =~= old(self)@.push((q.op, q.left@, q.right@, opt_lit_view(result))));
    }

    /// The result recorded for an operation, if any.
    pub fn lookup(&self, op: BinaryOp, a: &Literal, b: &Literal) -> (r: Option<Option<Literal>>)
        ensures
            match r {
                Some(x) => table_lookup(self@, op, a@, b@) == Some(opt_lit_view(x)),
                None => table_lookup(self@, op, a@, b@) is None,
            },
    {
        let ghost tv = self@;
        let mut i: usize = 0;
        assert(tv.subrange(0, tv.len() as int) =~= tv);
        while i < self.entries.len()
            invariant
                i <= self.entries@.len(),
                tv == self@,
                tv.len() == self.entries@.len(),
                table_lookup(tv, op, a@, b@) == table_lookup(tv.subrange(i as int, tv.len() as int), op, a@, b@),
            decreases self.entries@.len() - i,
        {
            let e = &self.entries[i];
            let ghost sub = tv.subrange(i as int, tv.len() as int);
            assert(sub[0] == tv[i as int]);
            if e.op == op && lit_eq(&e.left, a) && lit_eq(&e.right, b) {
                return Some(copy_opt_lit(&e.result));
            }
            assert(sub.drop_first() =~= tv.subrange(i + 1, tv.len() as int));
            i += 1;
        }
        None
    }
}

fn query(op: BinaryOp, a: &Literal, b: &Literal) -> (r: RealQuery)
    ensures
        r@ == (op, a@, b@),
{
    RealQuery { op, left: a.copy(), right: b.copy() }
}

fn real_result_exec(t: &RealTable, op: BinaryOp, a: &Literal, b: &Literal) -> (r: Result<Option<Literal>, RealQuery>)
    ensures
        match r {
            Ok(x) => real_result(t@, op, a@, b@) == Ok::<Option<SpecLit>, SpecQuery>(opt_lit_view(x)),
            Err(q) => real_result(t@, op, a@, b@) == Err::<Option<SpecLit>, SpecQuery>(q@),
        },
{
    match t.lookup(op, a, b) {
        Some(x) => Ok(x),
        None => Err(query(op, a, b)),
    }
}

fn compare_ints_exec(op: BinaryOp, a: i64, b: i64) -> (r: bool)
    ensures
        r == compare_ints(op, a, b),
{
    match op {
        BinaryOp::Eq => a == b,
        BinaryOp::Ne => a != b,
        BinaryOp::Lt => a < b,
        BinaryOp::Le => a <= b,
        BinaryOp::Gt => a > b,
        _ => a >= b,
    }
}

fn const_fold_exec(t: &RealTable, l: &Expression, op: BinaryOp, r: &Expression) -> (res: Result<Option<Literal>, RealQuery>)
    ensures
        match res {
            Ok(x) => const_fold(t@, l@, op, r@) == Ok::<Option<SpecLit>, SpecQuery>(opt_lit_view(x)),
            Err(q) => const_fold(t@, l@, op, r@) == Err::<Option<SpecLit>, SpecQuery>(q@),
        },
{
    match (l, r) {
        (Expression::Literal(Literal::Integer(a)), Expression::Literal(Literal::Integer(b))) => {
            let a = *a;
            let b = *b;
            match op {
                BinaryOp::Add => Ok(Some(Literal::Integer(a.wrapping_add(b)))),
                BinaryOp::Sub => Ok(Some(Literal::Integer(a.wrapping_sub(b)))),
                BinaryOp::Mul => Ok(Some(Literal::Integer(a.wrapping_mul(b)))),
                BinaryOp::Div => {
                    if b != 0 {
                        real_result_exec(t, op, &Literal::Integer(a), &Literal::Integer(b))
                    } else {
                        Ok(None)
                    }
                },
                BinaryOp::Mod => match a.checked_rem(b) {
                    Some(v) => Ok(Some(Literal::Integer(v))),
                    None => Ok(None),
                },
                BinaryOp::Power => real_result_exec(t, op, &Literal::Integer(a), &Literal::Integer(b)),
                BinaryOp::And | BinaryOp::Or => Ok(None),
                _ => Ok(Some(Literal::Boolean(compare_ints_exec(op, a, b)))),
            }
        },
        (Expression::Literal(a), Expression::Literal(b)) => {
            let an = matches!(a, Literal::Integer(_) | Literal::Real(_));
            let bn = matches!(b, Literal::Integer(_) | Literal::Real(_));
            if an && bn {
                if matches!(op, BinaryOp::Mod | BinaryOp::And | BinaryOp::Or) {
                    Ok(None)
                } else {
                    real_result_exec(t, op, a, b)
                }
            } else {
                match (a, b) {
                    (Literal::Boolean(x), Literal::Boolean(y)) => {
                        let x = *x;
                        let y = *y;
                        match op {
                            BinaryOp::And => Ok(Some(Literal::Boolean(x && y))),
                            BinaryOp::Or => Ok(Some(Literal::Boolean(x || y))),
                            BinaryOp::Eq => Ok(Some(Literal::Boolean(x == y))),
                            BinaryOp::Ne => Ok(Some(Literal::Boolean(x != y))),
                            _ => Ok(None),
                        }
                    },
                    _ => Ok(None),
                }
            }
        },
        _ => Ok(None),
    }
}

fn is_int_lit(e: &Expression, k: i64) -> (r: bool)
    ensures
        r == (e@ == int_lit(k)),
{
    match e {
        Expression::Literal(Literal::Integer(n)) => *n == k,
        _ => false,
    }
}

fn identity_exec(l: Expression, op: BinaryOp, r: Expression) -> (res: Expression)
    ensures
        res@ == identity(l@, op, r@),
{
    if matches!(op, BinaryOp::Add | BinaryOp::Sub) && is_int_lit(&r, 0) {
        l
    } else if matches!(op, BinaryOp::Add) && is_int_lit(&l, 0) {
        r
    } else if matches!(op, BinaryOp::Mul) && is_int_lit(&r, 1) {
        l
    } else if matches!(op, BinaryOp::Mul) && is_int_lit(&l, 1) {
        r
    } else if matches!(op, BinaryOp::Mul) && (is_int_lit(&r, 0) || is_int_lit(&l, 0)) {
        Expression::Literal(Literal::Integer(0))
    } else {
        Expression::Binary { left: Box::new(l), op, right: Box::new(r) }
    }
}

fn bump_folded(stats: &mut OptStats)
    ensures
        *final(stats) == old(stats).folded(1),
{
    stats.constants_folded = stats.constants_folded.saturating_add(1);
}

fn bump_reduced(stats: &mut OptStats)
    ensures
        *final(stats) == old(stats).reduced(1),
{
    stats.strength_reductions = stats.strength_reductions.saturating_add(1);
}

fn bump_propagated(stats: &mut OptStats)
    ensures
        *final(stats) == old(stats).propagated(1),
{
    stats.propagations = stats.propagations.saturating_add(1);
}

fn bump_dead(stats: &mut OptStats, k: usize)
    ensures
        *final(stats) == old(stats).dead(k as nat),
{
    stats.dead_stmts_removed = stats.dead_stmts_removed.saturating_add(k);
}

fn combine_exec(t: &RealTable, l: Expression, op: BinaryOp, r: Expression, stats: &mut OptStats) -> (res: Result<Expression, RealQuery>)
    ensures
        match res {
            Ok(x) => combine(t@, l@, op, r@, *old(stats)) == Ok::<(SpecExpr, OptStats), SpecQuery>((x@, *final(stats))),
            Err(q) => combine(t@, l@, op, r@, *old(stats)) == Err::<(SpecExpr, OptStats), SpecQuery>(q@),
        },
{
    match const_fold_exec(t, &l, op, &r) {
        Err(q) => Err(q),
        Ok(Some(lit)) => {
            bump_folded(stats);
            Ok(Expression::Literal(lit))
        },
        Ok(None) => Ok(identity_exec(l, op, r)),
    }
}

/// The text of the negation of the real number written `t`.
pub fn negate_real_text(t: &String) -> (r: String)
    ensures
        r@ == negate_text(t@),
{
    let s = t.as_str();
    let n = s.unicode_len();
    if n > 0 && s.get_char(0) == '-' {
        let rest = s.substring_char(1, n);
        assert(rest@ =~= t@.drop_first());
        rest.to_owned()
    } else {
        let r = crate::text::cat("-", s);
        proof {
            reveal_strlit("-");
            assert(r@ =~= seq!['-'] + t@);
        }
        r
    }
}

fn unary_fold_exec(op: UnaryOp, x: Expression, stats: &mut OptStats) -> (r: Expression)
    ensures
        (r@, *final(stats)) == unary_fold(op, x@, *old(stats)),
{
    match op {
        UnaryOp::Neg => match x {
            Expression::Literal(Literal::Integer(n)) => {
                bump_folded(stats);
                Expression::Literal(Literal::Integer(0i64.wrapping_sub(n)))
            },
            Expression::Literal(Literal::Real(t)) => {
                bump_folded(stats);
                Expression::Literal(Literal::Real(negate_real_text(&t)))
            },
            Expression::Unary { op: UnaryOp::Neg, expr: inner } => {
                bump_folded(stats);
                *inner
            },
            other => Expression::Unary { op, expr: Box::new(other) },
        },
        UnaryOp::Not => match x {
            Expression::Literal(Literal::Boolean(b)) => {
                bump_folded(stats);
                Expression::Literal(Literal::Boolean(!b))
            },
            Expression::Unary { op: UnaryOp::Not, expr: inner } => {
                bump_folded(stats);
                *inner
            },
            other => Expression::Unary { op, expr: Box::new(other) },
        },
    }
}

proof fn lemma_fold_list_err(es: Seq<SpecExpr>, n: int, t: Seq<SpecEntry>, s: OptStats)
    requires
        0 <= n <= es.len(),
        fold_list(es.take(n), t, s) is Err,
    ensures
        fold_list(es, t, s) == fold_list(es.take(n), t, s),
    decreases es.len(),
{
    if es.len() > n {
        assert(es.drop_last().take(n) =~= es.take(n));
        lemma_fold_list_err(es.drop_last(), n, t, s);
    } else {
        assert(es.take(n) =~= es);
    }
}

fn fold_vec(es: &Vec<Expression>, t: &RealTable, stats: &mut OptStats) -> (r: Result<Vec<Expression>, RealQuery>)
    ensures
        match r {
            Ok(v) => fold_list(exprs_view(es@), t@, *old(stats)) == Ok::<(Seq<SpecExpr>, OptStats), SpecQuery>((exprs_view(v@), *final(stats))),
            Err(q) => fold_list(exprs_view(es@), t@, *old(stats)) == Err::<(Seq<SpecExpr>, OptStats), SpecQuery>(q@),
        },
    decreases es,
{
    let ghost s0 = *stats;
    proof {
        lemma_exprs_view(es@);
    }
    let ghost ev = exprs_view(es@);
    let mut out: Vec<Expression> = Vec::new();
    let mut i: usize = 0;
    assert(ev.subrange(0, 0) =~= Seq::<SpecExpr>::empty());
    assert(exprs_view(out@) =~= Seq::<SpecExpr>::empty());
    while i < es.len()
        invariant
            i <= es@.len(),
            ev == exprs_view(es@),
            ev.len() == es@.len(),
            forall|j: int| 0 <= j < es@.len() ==> #[trigger] ev[j] == es@[j]@,
            s0 == *old(stats),
            fold_list(ev.subrange(0, i as int), t@, s0) == Ok::<(Seq<SpecExpr>, OptStats), SpecQuery>((exprs_view(out@), *stats)),
            forall|k: int| 0 <= k < es@.len() ==> decreases_to!(*es => #[trigger] es@[k]),
        decreases es@.len() - i,
    {
        let ghost s_before = *stats;
        let ghost out_before = out@;
        let ghost sub = ev.subrange(0, i + 1);
        proof {
            assert(sub.drop_last() =~= ev.subrange(0, i as int));
            assert(sub.last() == es@[i as int]@);
        }
        match fold_expr(&es[i], t, stats) {
            Err(q) => {
                proof {
                    assert(fold(sub.last(), t@, s_before) == Err::<(SpecExpr, OptStats), SpecQuery>(q@));
                    assert(fold_list(sub, t@, s0) == Err::<(Seq<SpecExpr>, OptStats), SpecQuery>(q@));
                    assert(ev.take(i + 1) =~= sub);
                    lemma_fold_list_err(ev, i + 1, t@, s0);
                }
                return Err(q);
            },
            Ok(x) => {
                out.push(x);
                proof {
                    crate::ast::lemma_exprs_view_push(out_before, x);
                }
            },
        }
        i += 1;
    }
    assert(ev.subrange(0, es@.len() as int) =~= ev);
    Ok(out)
}

/// Constant folding: evaluates the operations on literals that are known
/// at compile time, bottom-up.
pub fn fold_expr(e: &Expression, t: &RealTable, stats: &mut OptStats) -> (r: Result<Expression, RealQuery>)
    ensures
        match r {
            Ok(x) => fold(e@, t@, *old(stats)) == Ok::<(SpecExpr, OptStats), SpecQuery>((x@, *final(stats))),
            Err(q) => fold(e@, t@, *old(stats)) == Err::<(SpecExpr, OptStats), SpecQuery>(q@),
        },
    decreases e,
{
    match e {
        Expression::Binary { left, op, right } => {
            let l = match fold_expr(left, t, stats) {
                Ok(x) => x,
                Err(q) => return Err(q),
            };
            let r = match fold_expr(right, t, stats) {
                Ok(x) => x,
                Err(q) => return Err(q),
            };
            combine_exec(t, l, *op, r, stats)
        },
        Expression::Unary { op, expr } => {
            let x = match fold_expr(expr, t, stats) {
                Ok(x) => x,
                Err(q) => return Err(q),
            };
            Ok(unary_fold_exec(*op, x, stats))
        },
        Expression::Call { function, args } => {
            proof {
                assert(decreases_to!(*e => *args));
            }
            match fold_vec(args, t, stats) {
                Ok(a2) => Ok(Expression::Call { function: function.clone(), args: a2 }),
                Err(q) => Err(q),
            }
        },
        Expression::Index { array, indices } => {
            proof {
                assert(decreases_to!(*e => *indices));
            }
            match fold_vec(indices, t, stats) {
                Ok(i2) => Ok(Expression::Index { array: array.clone(), indices: i2 }),
                Err(q) => Err(q),
            }
        },
        _ => Ok(e.copy()),
    }
}

/// Strength reduction of the outermost operation: `x^2` becomes `x*x`,
/// `x^1` becomes `x`, `x^0` becomes `1.0`, `x*2` and `2*x` become `x+x`.
pub fn strength_reduce(e: Expression, stats: &mut OptStats) -> (r: Expression)
    ensures
        (r@, *final(stats)) == reduce(e@, *old(stats)),
{
    match e {
        Expression::Binary { left, op: BinaryOp::Power, right } => {
            if is_int_lit(&right, 2) {
                bump_reduced(stats);
                let l2 = left.copy();
                Expression::Binary { left, op: BinaryOp::Mul, right: Box::new(l2) }
            } else if is_int_lit(&right, 0) {
                bump_reduced(stats);
                Expression::Literal(Literal::Real(String::from_str("1.0")))
            } else if is_int_lit(&right, 1) {
                bump_reduced(stats);
                *left
            } else {
                Expression::Binary { left, op: BinaryOp::Power, right }
            }
        },
        Expression::Binary { left, op: BinaryOp::Mul, right } => {
            if is_int_lit(&right, 2) {
                bump_reduced(stats);
                let l2 = left.copy();
                Expression::Binary { left, op: BinaryOp::Add, right: Box::new(l2) }
            } else if is_int_lit(&left, 2) {
                bump_reduced(stats);
                let r2 = right.copy();
                Expression::Binary { left: right, op: BinaryOp::Add, right: Box::new(r2) }
            } else {
                Expression::Binary { left, op: BinaryOp::Mul, right }
            }
        },
        other => other,
    }
}

fn fold_reduce_exec(e: &Expression, t: &RealTable, stats: &mut OptStats) -> (r: Result<Expression, RealQuery>)
    ensures
        match r {
            Ok(x) => fold_reduce(e@, t@, *old(stats)) == Ok::<(SpecExpr, OptStats), SpecQuery>((x@, *final(stats))),
            Err(q) => fold_reduce(e@, t@, *old(stats)) == Err::<(SpecExpr, OptStats), SpecQuery>(q@),
        },
{
    match fold_expr(e, t, stats) {
        Ok(x) => Ok(strength_reduce(x, stats)),
        Err(q) => Err(q),
    }
}

fn fold_opt_exec(o: &Option<Expression>, t: &RealTable, stats: &mut OptStats) -> (r: Result<Option<Expression>, RealQuery>)
    ensures
        match r {
            Ok(x) => fold_opt(opt_expr_view(*o), t@, *old(stats)) == Ok::<(Option<SpecExpr>, OptStats), SpecQuery>((opt_expr_view(x), *final(stats))),
            Err(q) => fold_opt(opt_expr_view(*o), t@, *old(stats)) == Err::<(Option<SpecExpr>, OptStats), SpecQuery>(q@),
        },
{
    match o {
        Some(x) => match fold_expr(x, t, stats) {
            Ok(y) => Ok(Some(y)),
            Err(q) => Err(q),
        },
        None => Ok(None),
    }
}

// Dead code elimination.

proof fn lemma_first_cut(ss: Seq<SpecStmt>, i: nat)
    ensures
        first_cut(ss, i) matches Some(c) ==> i <= c && c + 1 < ss.len() && ends_block(ss[c as int]),
    decreases ss.len() - i,
{
    if i < ss.len() {
        lemma_first_cut(ss, i + 1);
    }
}

fn ends_block_exec(st: &Statement) -> (r: bool)
    ensures
        r == ends_block(st@),
{
    match st {
        Statement::While { condition: Expression::Literal(Literal::Boolean(b)), .. } => *b,
        Statement::Return(_) => true,
        _ => false,
    }
}

fn is_empty_false_if_exec(st: &Statement) -> (r: bool)
    ensures
        r == is_empty_false_if(st@),
{
    match st {
        Statement::If {
            condition: Expression::Literal(Literal::Boolean(b)),
            then_branch,
            else_branch: None,
        } => {
            proof {
                lemma_stmts_view(then_branch@);
            }
            !*b && then_branch.len() == 0
        },
        _ => false,
    }
}

/// Eliminates dead code: the statements after the first endless loop
/// (`Mientras Verdadero`) or `Retornar`, and the `Si` statements left with
/// no branch by a condition folded to false.
pub fn eliminate_dead_code(stmts: Vec<Statement>) -> (r: Vec<Statement>)
    ensures
        stmts_view(r@) == eliminate_dead(stmts_view(stmts@)),
{
    let ghost sv = stmts_view(stmts@);
    proof {
        lemma_stmts_view(stmts@);
    }
    let mut v = stmts;
    let mut i: usize = 0;
    let mut cut: Option<usize> = None;
    while i < v.len()
        invariant_except_break
            i <= v@.len(),
            sv == stmts_view(v@),
            sv.len() == v@.len(),
            forall|j: int| 0 <= j < v@.len() ==> #[trigger] sv[j] == v@[j]@,
            first_cut(sv, 0) == first_cut(sv, i as nat),
            cut is None,
        ensures
            sv == stmts_view(v@),
            sv.len() == v@.len(),
            forall|j: int| 0 <= j < v@.len() ==> #[trigger] sv[j] == v@[j]@,
            match cut {
                Some(c) => first_cut(sv, 0) == Some(c as nat),
                None => first_cut(sv, 0) is None,
            },
        decreases v@.len() - i,
    {
        if ends_block_exec(&v[i]) && i + 1 < v.len() {
            cut = Some(i);
            break;
        }
        i += 1;
    }
    let ghost cut_seq = match first_cut(sv, 0) {
        Some(c) => sv.take(c + 1 as int),
        None => sv,
    };
    let ghost v_before = v@;
    proof {
        lemma_first_cut(sv, 0);
    }
    match cut {
        Some(c) => {
            assert(first_cut(sv, 0) == Some(c as nat));
            assert(c + 1 < sv.len());
            let n = v.len();
            assert(c < n);
            v.truncate(c + 1);
        },
        None => {},
    }
    proof {
        lemma_stmts_view(v@);
        assert forall|j: int| 0 <= j < v@.len() implies #[trigger] v@[j] == v_before[j] by {}
        assert(stmts_view(v@) =~= cut_seq);
    }
    let mut out: Vec<Statement> = Vec::new();
    let mut k: usize = 0;
    assert(cut_seq.subrange(0, 0) =~= Seq::<SpecStmt>::empty());
    assert(stmts_view(out@) =~= Seq::<SpecStmt>::empty());
    while k < v.len()
        invariant
            k <= v@.len(),
            stmts_view(v@) == cut_seq,
            cut_seq.len() == v@.len(),
            forall|j: int| 0 <= j < v@.len() ==> #[trigger] cut_seq[j] == v@[j]@,
            stmts_view(out@) == drop_empty_false_ifs(cut_seq.subrange(0, k as int)),
        decreases v@.len() - k,
    {
        let ghost sub = cut_seq.subrange(0, k + 1);
        proof {
            assert(sub.drop_last() =~= cut_seq.subrange(0, k as int));
            assert(sub.last() == v@[k as int]@);
        }
        if !is_empty_false_if_exec(&v[k]) {
            let c = v[k].copy();
            let ghost before = out@;
            out.push(c);
            proof {
                crate::ast::lemma_stmts_view_push(before, c);
            }
        }
        k += 1;
    }
    assert(cut_seq.subrange(0, v@.len() as int) =~= cut_seq);
    out
}

// Constant propagation.

pub open spec fn known_view(k: Seq<(String, Literal)>) -> Known {
    entries_map(k)
}

fn known_find(k: &Vec<(String, Literal)>, name: &String) -> (r: Option<Literal>)
    requires
        distinct_names(k@),
    ensures
        match r {
            Some(l) => known_view(k@).contains_key(name@) && known_view(k@)[name@] == l@,
            None => !known_view(k@).contains_key(name@),
        },
{
    proof {
        lemma_entries_map(k@);
    }
    match find_entry(k, name) {
        Some(i) => Some(k[i].1.copy()),
        None => None,
    }
}

proof fn lemma_remove_entry(s: Seq<(String, Literal)>, i: int)
    requires
        distinct_names(s),
        0 <= i < s.len(),
    ensures
        distinct_names(s.remove(i)),
        entries_map(s.remove(i)) == entries_map(s).remove(s[i].0@),
{
    let r = s.remove(i);
    assert forall|a: int, b: int| 0 <= a < b < r.len() implies r[a].0@ != r[b].0@ by {
        let a2 = if a < i { a } else { a + 1 };
        let b2 = if b < i { b } else { b + 1 };
        assert(r[a] == s[a2]);
        assert(r[b] == s[b2]);
    }
    lemma_entries_map(s);
    lemma_entries_map(r);
    let n = s[i].0@;
    assert forall|x: Seq<char>| #[trigger] entries_map(r).contains_key(x) == entries_map(s).remove(n).contains_key(x) by {
        if entries_map(r).contains_key(x) {
            let a = choose|a: int| 0 <= a < r.len() && r[a].0@ == x;
            let a2 = if a < i { a } else { a + 1 };
            assert(r[a] == s[a2]);
        }
        if entries_map(s).remove(n).contains_key(x) {
            let b = choose|b: int| 0 <= b < s.len() && s[b].0@ == x;
            assert(b != i);
            let a = if b < i { b } else { b - 1 };
            assert(r[a] == s[b]);
        }
    }
    assert forall|x: Seq<char>| #[trigger] entries_map(r).contains_key(x) implies entries_map(r)[x] == entries_map(s).remove(n)[x] by {
        let a = choose|a: int| 0 <= a < r.len() && r[a].0@ == x;
        let a2 = if a < i { a } else { a + 1 };
        assert(r[a] == s[a2]);
    }
    assert(entries_map(r) =~= entries_map(s).remove(n));
}

proof fn lemma_set_entry(s: Seq<(String, Literal)>, i: int, e: (String, Literal))
    requires
        distinct_names(s),
        0 <= i < s.len(),
        s[i].0@ == e.0@,
    ensures
        distinct_names(s.update(i, e)),
        entries_map(s.update(i, e)) == entries_map(s).insert(e.0@, e.1@),
{
    let r = s.update(i, e);
    assert forall|a: int, b: int| 0 <= a < b < r.len() implies r[a].0@ != r[b].0@ by {
        if a != i {
            assert(r[a] == s[a]);
        }
        if b != i {
            assert(r[b] == s[b]);
        }
    }
    lemma_entries_map(s);
    lemma_entries_map(r);
    assert forall|x: Seq<char>| #[trigger] entries_map(r).contains_key(x) == entries_map(s).insert(e.0@, e.1@).contains_key(x) by {
        if entries_map(r).contains_key(x) {
            let a = choose|a: int| 0 <= a < r.len() && r[a].0@ == x;
            if a != i {
                assert(r[a] == s[a]);
            }
        }
        if entries_map(s).contains_key(x) {
            let b = choose|b: int| 0 <= b < s.len() && s[b].0@ == x;
            if b != i {
                assert(r[b] == s[b]);
            } else {
                assert(r[i].0@ == x);
            }
        }
        if x == e.0@ {
            assert(r[i].0@ == x);
        }
    }
    assert forall|x: Seq<char>| #[trigger] entries_map(r).contains_key(x) implies entries_map(r)[x] == entries_map(s).insert(e.0@, e.1@)[x] by {
        let a = choose|a: int| 0 <= a < r.len() && r[a].0@ == x;
        if a != i {
            assert(r[a] == s[a]);
        }
    }
    assert(entries_map(r) =~= entries_map(s).insert(e.0@, e.1@));
}

fn known_remove(k: &mut Vec<(String, Literal)>, name: &String)
    requires
        distinct_names(old(k)@),
    ensures
        distinct_names(final(k)@),
        known_view(final(k)@) == known_view(old(k)@).remove(name@),
{
    proof {
        lemma_entries_map(k@);
    }
    match find_entry(k, name) {
        Some(i) => {
            proof {
                lemma_remove_entry(k@, i as int);
            }
            let _ = k.remove(i);
        },
        None => {
            assert(known_view(k@) =~= known_view(k@).remove(name@));
        },
    }
}

fn known_insert(k: &mut Vec<(String, Literal)>, name: &String, l: Literal)
    requires
        distinct_names(old(k)@),
    ensures
        distinct_names(final(k)@),
        known_view(final(k)@) == known_view(old(k)@).insert(name@, l@),
{
    proof {
        lemma_entries_map(k@);
    }
    let e = (name.clone(), l);
    match find_entry(k, name) {
        Some(i) => {
            proof {
                lemma_set_entry(k@, i as int, e);
            }
            k.set(i, e);
        },
        None => {
            let ghost before = k@;
            k.push(e);
            proof {
                assert(k@.drop_last() =~= before);
                assert(distinct_names(k@));
            }
        },
    }
}

fn subst_vec(es: &Vec<Expression>, k: &Vec<(String, Literal)>, stats: &mut OptStats) -> (r: Vec<Expression>)
    requires
        distinct_names(k@),
    ensures
        (exprs_view(r@), *final(stats)) == subst_list(exprs_view(es@), known_view(k@), *old(stats)),
    decreases es,
{
    let ghost s0 = *stats;
    proof {
        lemma_exprs_view(es@);
    }
    let ghost ev = exprs_view(es@);
    let mut out: Vec<Expression> = Vec::new();
    let mut i: usize = 0;
    assert(ev.subrange(0, 0) =~= Seq::<SpecExpr>::empty());
    assert(exprs_view(out@) =~= Seq::<SpecExpr>::empty());
    while i < es.len()
        invariant
            i <= es@.len(),
            distinct_names(k@),
            ev == exprs_view(es@),
            ev.len() == es@.len(),
            forall|j: int| 0 <= j < es@.len() ==> #[trigger] ev[j] == es@[j]@,
            s0 == *old(stats),
            subst_list(ev.subrange(0, i as int), known_view(k@), s0) == (exprs_view(out@), *stats),
            forall|j: int| 0 <= j < es@.len() ==> decreases_to!(*es => #[trigger] es@[j]),
        decreases es@.len() - i,
    {
        let ghost sub = ev.subrange(0, i + 1);
        proof {
            assert(sub.drop_last() =~= ev.subrange(0, i as int));
            assert(sub.last() == es@[i as int]@);
        }
        let x = subst_expr_exec(&es[i], k, stats);
        let ghost before = out@;
        out.push(x);
        proof {
            crate::ast::lemma_exprs_view_push(before, x);
        }
        i += 1;
    }
    assert(ev.subrange(0, es@.len() as int) =~= ev);
    out
}

/// Replaces the variables of known constant value by their values.
fn subst_expr_exec(e: &Expression, k: &Vec<(String, Literal)>, stats: &mut OptStats) -> (r: Expression)
    requires
        distinct_names(k@),
    ensures
        (r@, *final(stats)) == subst_expr(e@, known_view(k@), *old(stats)),
    decreases e,
{
    match e {
        Expression::Variable(name) => match known_find(k, name) {
            Some(l) => {
                bump_propagated(stats);
                Expression::Literal(l)
            },
            None => e.copy(),
        },
        Expression::Binary { left, op, right } => {
            let l = subst_expr_exec(left, k, stats);
            let r = subst_expr_exec(right, k, stats);
            Expression::Binary { left: Box::new(l), op: *op, right: Box::new(r) }
        },
        Expression::Unary { op, expr } => {
            let x = subst_expr_exec(expr, k, stats);
            Expression::Unary { op: *op, expr: Box::new(x) }
        },
        Expression::Call { function, args } => {
            proof {
                assert(decreases_to!(*e => *args));
            }
            Expression::Call { function: function.clone(), args: subst_vec(args, k, stats) }
        },
        Expression::Index { array, indices } => {
            proof {
                assert(decreases_to!(*e => *indices));
            }
            Expression::Index { array: array.clone(), indices: subst_vec(indices, k, stats) }
        },
        _ => e.copy(),
    }
}

fn subst_stmt_exec(st: &Statement, k: &Vec<(String, Literal)>, stats: &mut OptStats) -> (r: Statement)
    requires
        distinct_names(k@),
    ensures
        (r@, *final(stats)) == subst_stmt(st@, known_view(k@), *old(stats)),
{
    match st {
        Statement::Assign { target, value } => Statement::Assign {
            target: target.clone(),
            value: subst_expr_exec(value, k, stats),
        },
        Statement::IndexAssign { array, indices, value } => {
            let i2 = subst_vec(indices, k, stats);
            let v2 = subst_expr_exec(value, k, stats);
            Statement::IndexAssign { array: array.clone(), indices: i2, value: v2 }
        },
        Statement::Write(exprs, nl) => Statement::Write(subst_vec(exprs, k, stats), *nl),
        Statement::If { condition, then_branch, else_branch } => {
            let c2 = subst_expr_exec(condition, k, stats);
            Statement::If {
                condition: c2,
                then_branch: copy_stmts(then_branch),
                else_branch: copy_opt_stmts(else_branch),
            }
        },
        Statement::For { var, start, end, step, body } => {
            let a2 = subst_expr_exec(start, k, stats);
            let b2 = subst_expr_exec(end, k, stats);
            let s2 = match step {
                Some(x) => Some(subst_expr_exec(x, k, stats)),
                None => None,
            };
            Statement::For { var: var.clone(), start: a2, end: b2, step: s2, body: copy_stmts(body) }
        },
        Statement::Wait { duration, milliseconds } => Statement::Wait {
            duration: subst_expr_exec(duration, k, stats),
            milliseconds: *milliseconds,
        },
        _ => st.copy(),
    }
}

fn update_known_exec(st: &Statement, k: &mut Vec<(String, Literal)>)
    requires
        distinct_names(old(k)@),
    ensures
        distinct_names(final(k)@),
        known_view(final(k)@) == update_known(st@, known_view(old(k)@)),
{
    match st {
        Statement::Assign { target, value } => match value {
            Expression::Literal(l) => known_insert(k, target, l.copy()),
            _ => known_remove(k, target),
        },
        Statement::If { .. } | Statement::While { .. } | Statement::Repeat { .. } | Statement::For {
            ..
        } | Statement::Match { .. } | Statement::Call { .. } => {
            k.clear();
            proof {
                lemma_entries_map(k@);
                assert(known_view(k@) =~= Map::<Seq<char>, SpecLit>::empty());
            }
        },
        Statement::Read(targets) => {
            let ghost k0 = known_view(k@);
            proof {
                lemma_exprs_view(targets@);
            }
            let ghost tv = exprs_view(targets@);
            let mut i: usize = 0;
            assert(tv.subrange(0, 0) =~= Seq::<SpecExpr>::empty());
            while i < targets.len()
                invariant
                    i <= targets@.len(),
                    tv == exprs_view(targets@),
                    tv.len() == targets@.len(),
                    forall|j: int| 0 <= j < targets@.len() ==> #[trigger] tv[j] == targets@[j]@,
                    distinct_names(k@),
                    known_view(k@) == forget_read(tv.subrange(0, i as int), k0),
                decreases targets@.len() - i,
            {
                let ghost sub = tv.subrange(0, i + 1);
                proof {
                    assert(sub.drop_last() =~= tv.subrange(0, i as int));
                    assert(sub.last() == targets@[i as int]@);
                }
                match &targets[i] {
                    Expression::Variable(name) => known_remove(k, name),
                    _ => {},
                }
                i += 1;
            }
            assert(tv.subrange(0, targets@.len() as int) =~= tv);
        },
        _ => {},
    }
}

/// Constant propagation through straight-line code: the variables assigned
/// a literal are replaced by it in the statements that follow, until control
/// flow, a call or a read makes their value unknown.
pub fn propagate_constants(stmts: Vec<Statement>, stats: &mut OptStats) -> (r: Vec<Statement>)
    ensures
        (stmts_view(r@), *final(stats)) == propagate(stmts_view(stmts@), *old(stats)),
{
    let ghost s0 = *stats;
    proof {
        lemma_stmts_view(stmts@);
    }
    let ghost sv = stmts_view(stmts@);
    let mut known: Vec<(String, Literal)> = Vec::new();
    let mut out: Vec<Statement> = Vec::new();
    let mut i: usize = 0;
    proof {
        lemma_entries_map(known@);
        assert(known_view(known@) =~= Map::<Seq<char>, SpecLit>::empty());
        assert(sv.subrange(0, 0) =~= Seq::<SpecStmt>::empty());
        assert(stmts_view(out@) =~= Seq::<SpecStmt>::empty());
    }
    while i < stmts.len()
        invariant
            i <= stmts@.len(),
            sv == stmts_view(stmts@),
            sv.len() == stmts@.len(),
            forall|j: int| 0 <= j < stmts@.len() ==> #[trigger] sv[j] == stmts@[j]@,
            s0 == *old(stats),
            distinct_names(known@),
            propagate_from(sv.subrange(0, i as int), s0) == (stmts_view(out@), known_view(known@), *stats),
        decreases stmts@.len() - i,
    {
        let ghost sub = sv.subrange(0, i + 1);
        proof {
            assert(sub.drop_last() =~= sv.subrange(0, i as int));
            assert(sub.last() == stmts@[i as int]@);
        }
        let x = subst_stmt_exec(&stmts[i], &known, stats);
        update_known_exec(&x, &mut known);
        let ghost before = out@;
        out.push(x);
        proof {
            crate::ast::lemma_stmts_view_push(before, x);
        }
        i += 1;
    }
    assert(sv.subrange(0, stmts@.len() as int) =~= sv);
    out
}

// The second folding pass.

proof fn lemma_fold_stmts_err(ss: Seq<SpecStmt>, n: int, t: Seq<SpecEntry>, s: OptStats)
    requires
        0 <= n <= ss.len(),
        fold_stmts(ss.take(n), t, s) is Err,
    ensures
        fold_stmts(ss, t, s) == fold_stmts(ss.take(n), t, s),
    decreases ss.len(),
{
    if ss.len() > n {
        assert(ss.drop_last().take(n) =~= ss.take(n));
        lemma_fold_stmts_err(ss.drop_last(), n, t, s);
    } else {
        assert(ss.take(n) =~= ss);
    }
}

fn fold_stmts_exec(ss: &Vec<Statement>, t: &RealTable, stats: &mut OptStats) -> (r: Result<Vec<Statement>, RealQuery>)
    ensures
        match r {
            Ok(v) => fold_stmts(stmts_view(ss@), t@, *old(stats)) == Ok::<(Seq<SpecStmt>, OptStats), SpecQuery>((stmts_view(v@), *final(stats))),
            Err(q) => fold_stmts(stmts_view(ss@), t@, *old(stats)) == Err::<(Seq<SpecStmt>, OptStats), SpecQuery>(q@),
        },
    decreases ss,
{
    let ghost s0 = *stats;
    proof {
        lemma_stmts_view(ss@);
    }
    let ghost sv = stmts_view(ss@);
    let mut out: Vec<Statement> = Vec::new();
    let mut i: usize = 0;
    assert(sv.subrange(0, 0) =~= Seq::<SpecStmt>::empty());
    assert(stmts_view(out@) =~= Seq::<SpecStmt>::empty());
    while i < ss.len()
        invariant
            i <= ss@.len(),
            sv == stmts_view(ss@),
            sv.len() == ss@.len(),
            forall|j: int| 0 <= j < ss@.len() ==> #[trigger] sv[j] == ss@[j]@,
            s0 == *old(stats),
            fold_stmts(sv.subrange(0, i as int), t@, s0) == Ok::<(Seq<SpecStmt>, OptStats), SpecQuery>((stmts_view(out@), *stats)),
            forall|j: int| 0 <= j < ss@.len() ==> decreases_to!(*ss => #[trigger] ss@[j]),
        decreases ss@.len() - i,
    {
        let ghost s_before = *stats;
        let ghost sub = sv.subrange(0, i + 1);
        proof {
            assert(sub.drop_last() =~= sv.subrange(0, i as int));
            assert(sub.last() == ss@[i as int]@);
        }
        match fold_stmt_exprs(&ss[i], t, stats) {
            Err(q) => {
                proof {
                    assert(fold_stmts(sub, t@, s0) == Err::<(Seq<SpecStmt>, OptStats), SpecQuery>(q@));
                    assert(sv.take(i + 1) =~= sub);
                    lemma_fold_stmts_err(sv, i + 1, t@, s0);
                }
                return Err(q);
            },
            Ok(x) => {
                let ghost before = out@;
                out.push(x);
                proof {
                    crate::ast::lemma_stmts_view_push(before, x);
                }
            },
        }
        i += 1;
    }
    assert(sv.subrange(0, ss@.len() as int) =~= sv);
    Ok(out)
}

/// Folds again the expressions of a statement and of the blocks of its
/// conditionals and loops (run after propagation).
fn fold_stmt_exprs(st: &Statement, t: &RealTable, stats: &mut OptStats) -> (r: Result<Statement, RealQuery>)
    ensures
        match r {
            Ok(x) => fold_stmt(st@, t@, *old(stats)) == Ok::<(SpecStmt, OptStats), SpecQuery>((x@, *final(stats))),
            Err(q) => fold_stmt(st@, t@, *old(stats)) == Err::<(SpecStmt, OptStats), SpecQuery>(q@),
        },
    decreases st,
{
    match st {
        Statement::Assign { target, value } => match fold_reduce_exec(value, t, stats) {
            Ok(v2) => Ok(Statement::Assign { target: target.clone(), value: v2 }),
            Err(q) => Err(q),
        },
        Statement::IndexAssign { array, indices, value } => {
            let i2 = match fold_vec(indices, t, stats) {
                Ok(x) => x,
                Err(q) => return Err(q),
            };
            match fold_expr(value, t, stats) {
                Ok(v2) => Ok(Statement::IndexAssign { array: array.clone(), indices: i2, value: v2 }),
                Err(q) => Err(q),
            }
        },
        Statement::Write(exprs, nl) => match fold_vec(exprs, t, stats) {
            Ok(e2) => Ok(Statement::Write(e2, *nl)),
            Err(q) => Err(q),
        },
        Statement::If { condition, then_branch, else_branch } => {
            let c2 = match fold_expr(condition, t, stats) {
                Ok(x) => x,
                Err(q) => return Err(q),
            };
            proof {
                assert(decreases_to!(*st => *then_branch));
            }
            let tb = match fold_stmts_exec(then_branch, t, stats) {
                Ok(x) => x,
                Err(q) => return Err(q),
            };
            match else_branch {
                Some(b) => {
                    proof {
                        assert(decreases_to!(*st => *b));
                    }
                    match fold_stmts_exec(b, t, stats) {
                        Ok(b2) => Ok(Statement::If { condition: c2, then_branch: tb, else_branch: Some(b2) }),
                        Err(q) => Err(q),
                    }
                },
                None => Ok(Statement::If { condition: c2, then_branch: tb, else_branch: None }),
            }
        },
        Statement::While { condition, body } => {
            let c2 = match fold_expr(condition, t, stats) {
                Ok(x) => x,
                Err(q) => return Err(q),
            };
            proof {
                assert(decreases_to!(*st => *body));
            }
            match fold_stmts_exec(body, t, stats) {
                Ok(b2) => Ok(Statement::While { condition: c2, body: b2 }),
                Err(q) => Err(q),
            }
        },
        Statement::Repeat { body, until } => {
            proof {
                assert(decreases_to!(*st => *body));
            }
            let b2 = match fold_stmts_exec(body, t, stats) {
                Ok(x) => x,
                Err(q) => return Err(q),
            };
            match fold_expr(until, t, stats) {
                Ok(u2) => Ok(Statement::Repeat { body: b2, until: u2 }),
                Err(q) => Err(q),
            }
        },
        Statement::For { var, start, end, step, body } => {
            let a2 = match fold_expr(start, t, stats) {
                Ok(x) => x,
                Err(q) => return Err(q),
            };
            let b2 = match fold_expr(end, t, stats) {
                Ok(x) => x,
                Err(q) => return Err(q),
            };
            let s2 = match fold_opt_exec(step, t, stats) {
                Ok(x) => x,
                Err(q) => return Err(q),
            };
            proof {
                assert(decreases_to!(*st => *body));
            }
            match fold_stmts_exec(body, t, stats) {
                Ok(body2) => Ok(Statement::For { var: var.clone(), start: a2, end: b2, step: s2, body: body2 }),
                Err(q) => Err(q),
            }
        },
        _ => Ok(st.copy()),
    }
}

// The optimisation proper.

proof fn lemma_drop_ifs_len(ss: Seq<SpecStmt>)
    ensures
        drop_empty_false_ifs(ss).len() <= ss.len(),
    decreases ss.len(),
{
    if ss.len() > 0 {
        lemma_drop_ifs_len(ss.drop_last());
    }
}

proof fn lemma_eliminate_len(ss: Seq<SpecStmt>)
    ensures
        eliminate_dead(ss).len() <= ss.len(),
{
    lemma_first_cut(ss, 0);
    let cut = match first_cut(ss, 0) {
        Some(i) => ss.take(i + 1 as int),
        None => ss,
    };
    lemma_drop_ifs_len(cut);
}

proof fn lemma_opt_each_err(ss: Seq<SpecStmt>, n: int, t: Seq<SpecEntry>, s: OptStats)
    requires
        0 <= n <= ss.len(),
        opt_each(ss.take(n), t, s) is Err,
    ensures
        opt_each(ss, t, s) == opt_each(ss.take(n), t, s),
    decreases ss.len(),
{
    if ss.len() > n {
        assert(ss.drop_last().take(n) =~= ss.take(n));
        lemma_opt_each_err(ss.drop_last(), n, t, s);
    } else {
        assert(ss.take(n) =~= ss);
    }
}

proof fn lemma_opt_cases_err(cs: Seq<(SpecExpr, Seq<SpecStmt>)>, n: int, t: Seq<SpecEntry>, s: OptStats)
    requires
        0 <= n <= cs.len(),
        opt_cases(cs.take(n), t, s) is Err,
    ensures
        opt_cases(cs, t, s) == opt_cases(cs.take(n), t, s),
    decreases cs.len(),
{
    if cs.len() > n {
        assert(cs.drop_last().take(n) =~= cs.take(n));
        lemma_opt_cases_err(cs.drop_last(), n, t, s);
    } else {
        assert(cs.take(n) =~= cs);
    }
}

fn optimize_each(ss: &Vec<Statement>, t: &RealTable, stats: &mut OptStats) -> (r: Result<Vec<Statement>, RealQuery>)
    ensures
        match r {
            Ok(v) => opt_each(stmts_view(ss@), t@, *old(stats)) == Ok::<(Seq<SpecStmt>, OptStats), SpecQuery>((stmts_view(v@), *final(stats))),
            Err(q) => opt_each(stmts_view(ss@), t@, *old(stats)) == Err::<(Seq<SpecStmt>, OptStats), SpecQuery>(q@),
        },
    decreases ss, 0nat,
{
    let ghost s0 = *stats;
    proof {
        lemma_stmts_view(ss@);
    }
    let ghost sv = stmts_view(ss@);
    let mut out: Vec<Statement> = Vec::new();
    let mut i: usize = 0;
    assert(sv.subrange(0, 0) =~= Seq::<SpecStmt>::empty());
    assert(stmts_view(out@) =~= Seq::<SpecStmt>::empty());
    while i < ss.len()
        invariant
            i <= ss@.len(),
            sv == stmts_view(ss@),
            sv.len() == ss@.len(),
            forall|j: int| 0 <= j < ss@.len() ==> #[trigger] sv[j] == ss@[j]@,
            s0 == *old(stats),
            opt_each(sv.subrange(0, i as int), t@, s0) == Ok::<(Seq<SpecStmt>, OptStats), SpecQuery>((stmts_view(out@), *stats)),
            forall|j: int| 0 <= j < ss@.len() ==> decreases_to!(*ss => #[trigger] ss@[j]),
        decreases ss@.len() - i,
    {
        let ghost sub = sv.subrange(0, i + 1);
        proof {
            assert(sub.drop_last() =~= sv.subrange(0, i as int));
            assert(sub.last() == ss@[i as int]@);
        }
        match optimize_stmt(&ss[i], t, stats) {
            Err(q) => {
                proof {
                    assert(opt_each(sub, t@, s0) == Err::<(Seq<SpecStmt>, OptStats), SpecQuery>(q@));
                    assert(sv.take(i + 1) =~= sub);
                    lemma_opt_each_err(sv, i + 1, t@, s0);
                }
                return Err(q);
            },
            Ok(x) => {
                let ghost before = out@;
                out.push(x);
                proof {
                    crate::ast::lemma_stmts_view_push(before, x);
                }
            },
        }
        i += 1;
    }
    assert(sv.subrange(0, ss@.len() as int) =~= sv);
    Ok(out)
}

fn optimize_cases(cases: &Vec<(Expression, Vec<Statement>)>, t: &RealTable, stats: &mut OptStats) -> (r: Result<Vec<(Expression, Vec<Statement>)>, RealQuery>)
    ensures
        match r {
            Ok(v) => opt_cases(cases_view(cases@), t@, *old(stats)) == Ok::<(Seq<(SpecExpr, Seq<SpecStmt>)>, OptStats), SpecQuery>((cases_view(v@), *final(stats))),
            Err(q) => opt_cases(cases_view(cases@), t@, *old(stats)) == Err::<(Seq<(SpecExpr, Seq<SpecStmt>)>, OptStats), SpecQuery>(q@),
        },
    decreases cases, 0nat,
{
    let ghost s0 = *stats;
    proof {
        lemma_cases_view(cases@);
    }
    let ghost cv = cases_view(cases@);
    let mut out: Vec<(Expression, Vec<Statement>)> = Vec::new();
    let mut i: usize = 0;
    assert(cv.subrange(0, 0) =~= Seq::<(SpecExpr, Seq<SpecStmt>)>::empty());
    assert(cases_view(out@) =~= Seq::<(SpecExpr, Seq<SpecStmt>)>::empty());
    while i < cases.len()
        invariant
            i <= cases@.len(),
            cv == cases_view(cases@),
            cv.len() == cases@.len(),
            forall|j: int| 0 <= j < cases@.len() ==> #[trigger] cv[j] == (cases@[j].0@, stmts_view(cases@[j].1@)),
            s0 == *old(stats),
            opt_cases(cv.subrange(0, i as int), t@, s0) == Ok::<(Seq<(SpecExpr, Seq<SpecStmt>)>, OptStats), SpecQuery>((cases_view(out@), *stats)),
            forall|j: int| 0 <= j < cases@.len() ==> decreases_to!(*cases => #[trigger] cases@[j].1),
        decreases cases@.len() - i,
    {
        let ghost s_before = *stats;
        let ghost sub = cv.subrange(0, i + 1);
        proof {
            assert(sub.drop_last() =~= cv.subrange(0, i as int));
            assert(sub.last() == cv[i as int]);
        }
        let e2 = match fold_expr(&cases[i].0, t, stats) {
            Ok(x) => x,
            Err(q) => {
                proof {
                    assert(opt_cases(sub, t@, s0) == Err::<(Seq<(SpecExpr, Seq<SpecStmt>)>, OptStats), SpecQuery>(q@));
                    assert(cv.take(i + 1) =~= sub);
                    lemma_opt_cases_err(cv, i + 1, t@, s0);
                }
                return Err(q);
            },
        };
        let b2 = match optimize_block(&cases[i].1, t, stats) {
            Ok(x) => x,
            Err(q) => {
                proof {
                    assert(opt_cases(sub, t@, s0) == Err::<(Seq<(SpecExpr, Seq<SpecStmt>)>, OptStats), SpecQuery>(q@));
                    assert(cv.take(i + 1) =~= sub);
                    lemma_opt_cases_err(cv, i + 1, t@, s0);
                }
                return Err(q);
            },
        };
        let c = (e2, b2);
        let ghost before = out@;
        out.push(c);
        proof {
            crate::ast::lemma_cases_view_push(before, c);
        }
        i += 1;
    }
    assert(cv.subrange(0, cases@.len() as int) =~= cv);
    Ok(out)
}

fn optimize_opt_block(o: &Option<Vec<Statement>>, t: &RealTable, stats: &mut OptStats) -> (r: Result<Option<Vec<Statement>>, RealQuery>)
    ensures
        match r {
            Ok(v) => opt_opt_block(opt_stmts_view(*o), t@, *old(stats)) == Ok::<(Option<Seq<SpecStmt>>, OptStats), SpecQuery>((opt_stmts_view(v), *final(stats))),
            Err(q) => opt_opt_block(opt_stmts_view(*o), t@, *old(stats)) == Err::<(Option<Seq<SpecStmt>>, OptStats), SpecQuery>(q@),
        },
    decreases o, 0nat,
{
    match o {
        Some(b) => {
            proof {
                assert(decreases_to!(*o => *b));
            }
            match optimize_block(b, t, stats) {
                Ok(x) => Ok(Some(x)),
                Err(q) => Err(q),
            }
        },
        None => Ok(None),
    }
}

/// Optimises a block: its statements, then dead code elimination,
/// constant propagation and a second folding pass.
fn optimize_block(stmts: &Vec<Statement>, t: &RealTable, stats: &mut OptStats) -> (r: Result<Vec<Statement>, RealQuery>)
    ensures
        match r {
            Ok(v) => opt_block(stmts_view(stmts@), t@, *old(stats)) == Ok::<(Seq<SpecStmt>, OptStats), SpecQuery>((stmts_view(v@), *final(stats))),
            Err(q) => opt_block(stmts_view(stmts@), t@, *old(stats)) == Err::<(Seq<SpecStmt>, OptStats), SpecQuery>(q@),
        },
    decreases stmts, 1nat,
{
    let v1 = match optimize_each(stmts, t, stats) {
        Ok(x) => x,
        Err(q) => return Err(q),
    };
    let len_before = v1.len();
    let ghost v1_view = v1@;
    let v2 = eliminate_dead_code(v1);
    proof {
        lemma_stmts_view(v2@);
        lemma_stmts_view(v1_view);
        lemma_eliminate_len(stmts_view(v1_view));
    }
    let removed = len_before.saturating_sub(v2.len());
    bump_dead(stats, removed);
    let v3 = propagate_constants(v2, stats);
    fold_stmts_exec(&v3, t, stats)
}

/// Optimises one statement: folds its expressions (and reduces the value of
/// an assignment), simplifies a conditional whose condition folded to a
/// constant, and optimises its nested blocks.
fn optimize_stmt(st: &Statement, t: &RealTable, stats: &mut OptStats) -> (r: Result<Statement, RealQuery>)
    ensures
        match r {
            Ok(x) => opt_stmt(st@, t@, *old(stats)) == Ok::<(SpecStmt, OptStats), SpecQuery>((x@, *final(stats))),
            Err(q) => opt_stmt(st@, t@, *old(stats)) == Err::<(SpecStmt, OptStats), SpecQuery>(q@),
        },
    decreases st, 0nat,
{
    match st {
        Statement::Assign { target, value } => match fold_reduce_exec(value, t, stats) {
            Ok(v2) => Ok(Statement::Assign { target: target.clone(), value: v2 }),
            Err(q) => Err(q),
        },
        Statement::IndexAssign { array, indices, value } => {
            let i2 = match fold_vec(indices, t, stats) {
                Ok(x) => x,
                Err(q) => return Err(q),
            };
            match fold_reduce_exec(value, t, stats) {
                Ok(v2) => Ok(Statement::IndexAssign { array: array.clone(), indices: i2, value: v2 }),
                Err(q) => Err(q),
            }
        },
        Statement::Write(exprs, nl) => match fold_vec(exprs, t, stats) {
            Ok(e2) => Ok(Statement::Write(e2, *nl)),
            Err(q) => Err(q),
        },
        Statement::If { condition, then_branch, else_branch } => {
            let c2 = match fold_expr(condition, t, stats) {
                Ok(x) => x,
                Err(q) => return Err(q),
            };
            proof {
                assert(decreases_to!(*st => *then_branch));
                assert(decreases_to!(*st => *else_branch));
                lemma_stmts_view(then_branch@);
            }
            let cval: Option<bool> = match &c2 {
                Expression::Literal(Literal::Boolean(b)) => Some(*b),
                _ => None,
            };
            match cval {
                Some(true) => {
                    let body = match optimize_block(then_branch, t, stats) {
                        Ok(x) => x,
                        Err(q) => return Err(q),
                    };
                    let removed = match else_branch {
                        Some(eb) => {
                            proof {
                                lemma_stmts_view(eb@);
                            }
                            eb.len()
                        },
                        None => 0,
                    };
                    bump_dead(stats, removed);
                    Ok(Statement::If { condition: c2, then_branch: body, else_branch: None })
                },
                Some(false) => {
                    bump_dead(stats, then_branch.len());
                    let e2 = match optimize_opt_block(else_branch, t, stats) {
                        Ok(x) => x,
                        Err(q) => return Err(q),
                    };
                    let empty: Vec<Statement> = Vec::new();
                    proof {
                        assert(stmts_view(empty@) =~= Seq::<SpecStmt>::empty());
                    }
                    Ok(Statement::If { condition: c2, then_branch: empty, else_branch: e2 })
                },
                None => {
                    let tb = match optimize_block(then_branch, t, stats) {
                        Ok(x) => x,
                        Err(q) => return Err(q),
                    };
                    match optimize_opt_block(else_branch, t, stats) {
                        Ok(e2) => Ok(Statement::If { condition: c2, then_branch: tb, else_branch: e2 }),
                        Err(q) => Err(q),
                    }
                },
            }
        },
        Statement::While { condition, body } => {
            let c2 = match fold_expr(condition, t, stats) {
                Ok(x) => x,
                Err(q) => return Err(q),
            };
            proof {
                assert(decreases_to!(*st => *body));
            }
            match optimize_block(body, t, stats) {
                Ok(b2) => Ok(Statement::While { condition: c2, body: b2 }),
                Err(q) => Err(q),
            }
        },
        Statement::Repeat { body, until } => {
            proof {
                assert(decreases_to!(*st => *body));
            }
            let b2 = match optimize_block(body, t, stats) {
                Ok(x) => x,
                Err(q) => return Err(q),
            };
            match fold_expr(until, t, stats) {
                Ok(u2) => Ok(Statement::Repeat { body: b2, until: u2 }),
                Err(q) => Err(q),
            }
        },
        Statement::For { var, start, end, step, body } => {
            let a2 = match fold_expr(start, t, stats) {
                Ok(x) => x,
                Err(q) => return Err(q),
            };
            let b2 = match fold_expr(end, t, stats) {
                Ok(x) => x,
                Err(q) => return Err(q),
            };
            let s2 = match fold_opt_exec(step, t, stats) {
                Ok(x) => x,
                Err(q) => return Err(q),
            };
            proof {
                assert(decreases_to!(*st => *body));
            }
            match optimize_block(body, t, stats) {
                Ok(body2) => Ok(Statement::For { var: var.clone(), start: a2, end: b2, step: s2, body: body2 }),
                Err(q) => Err(q),
            }
        },
        Statement::Match { expression, cases, default } => {
            let e2 = match fold_expr(expression, t, stats) {
                Ok(x) => x,
                Err(q) => return Err(q),
            };
            proof {
                assert(decreases_to!(*st => *cases));
                assert(decreases_to!(*st => *default));
            }
            let c2 = match optimize_cases(cases, t, stats) {
                Ok(x) => x,
                Err(q) => return Err(q),
            };
            match optimize_opt_block(default, t, stats) {
                Ok(d2) => Ok(Statement::Match { expression: e2, cases: c2, default: d2 }),
                Err(q) => Err(q),
            }
        },
        Statement::Call { function, args } => match fold_vec(args, t, stats) {
            Ok(a2) => Ok(Statement::Call { function: function.clone(), args: a2 }),
            Err(q) => Err(q),
        },
        Statement::Wait { duration, milliseconds } => match fold_expr(duration, t, stats) {
            Ok(d2) => Ok(Statement::Wait { duration: d2, milliseconds: *milliseconds }),
            Err(q) => Err(q),
        },
        Statement::Dimension { name, sizes } => match fold_vec(sizes, t, stats) {
            Ok(z2) => Ok(Statement::Dimension { name: name.clone(), sizes: z2 }),
            Err(q) => Err(q),
        },
        _ => Ok(st.copy()),
    }
}

proof fn lemma_opt_functions_err(fs: Seq<SpecFunction>, n: int, t: Seq<SpecEntry>, s: OptStats)
    requires
        0 <= n <= fs.len(),
        opt_functions(fs.take(n), t, s) is Err,
    ensures
        opt_functions(fs, t, s) == opt_functions(fs.take(n), t, s),
    decreases fs.len(),
{
    if fs.len() > n {
        assert(fs.drop_last().take(n) =~= fs.take(n));
        lemma_opt_functions_err(fs.drop_last(), n, t, s);
    } else {
        assert(fs.take(n) =~= fs);
    }
}

/// Runs the optimisation over the body of each function, then over the
/// main body. When the table lacks the result of an operation on real
/// numbers, returns that operation and leaves the program and the counts
/// as they were.
pub fn optimize(program: &mut Program, stats: &mut OptStats, reals: &RealTable) -> (r: Result<(), RealQuery>)
    ensures
        match r {
            Ok(()) => opt_program(old(program)@, reals@, *old(stats)) == Ok::<(SpecProgram, OptStats), SpecQuery>((final(program)@, *final(stats))),
            Err(q) => {
                &&& opt_program(old(program)@, reals@, *old(stats)) == Err::<(SpecProgram, OptStats), SpecQuery>(q@)
                &&& final(program)@ == old(program)@
                &&& *final(stats) == *old(stats)
            },
        },
{
    let mut s = *stats;
    let ghost s0 = s;
    let ghost fv = functions_view(program.functions@);
    let mut fs: Vec<Function> = Vec::new();
    let mut i: usize = 0;
    assert(fv.subrange(0, 0) =~= Seq::<SpecFunction>::empty());
    assert(functions_view(fs@) =~= Seq::<SpecFunction>::empty());
    while i < program.functions.len()
        invariant
            i <= program.functions@.len(),
            fv == functions_view(program.functions@),
            s0 == *stats,
            opt_functions(fv.subrange(0, i as int), reals@, s0) == Ok::<(Seq<SpecFunction>, OptStats), SpecQuery>((functions_view(fs@), s)),
        decreases program.functions@.len() - i,
    {
        let ghost sub = fv.subrange(0, i + 1);
        proof {
            assert(sub.drop_last() =~= fv.subrange(0, i as int));
            assert(sub.last() == program.functions@[i as int]@);
        }
        let f = &program.functions[i];
        match optimize_block(&f.body, reals, &mut s) {
            Ok(b) => {
                let nf = f.with_body(b);
                let ghost before = fs@;
                fs.push(nf);
                proof {
                    assert(functions_view(fs@) =~= functions_view(before).push(nf@));
                }
            },
            Err(q) => {
                proof {
                    assert(opt_functions(sub, reals@, s0) == Err::<(Seq<SpecFunction>, OptStats), SpecQuery>(q@));
                    assert(fv.take(i + 1) =~= sub);
                    lemma_opt_functions_err(fv, i + 1, reals@, s0);
                }
                return Err(q);
            },
        }
        i += 1;
    }
    assert(fv.subrange(0, program.functions@.len() as int) =~= fv);
    let main = match optimize_block(&program.main_body, reals, &mut s) {
        Ok(m) => m,
        Err(q) => return Err(q),
    };
    program.functions = fs;
    program.main_body = main;
    *stats = s;
    Ok(())
}

} // verus!

//! What the code generator needs to know of a program before it emits
//! machine code: which parameters of each function are arrays and of how
//! many dimensions, the constant sizes of declared arrays, and the
//! signatures of the native functions.
use vstd::prelude::*;
use vstd::string::StrSliceExecFns;
use crate::ast::{
    Expression, Literal, Program, SpecExpr, SpecFunction, SpecLit, SpecProgram, SpecStmt, SpecType,
    Statement, Type, cases_view, exprs_view, functions_view, lemma_cases_view, lemma_exprs_view,
    lemma_stmts_view, params_view, stmts_view,
};
use crate::symbols::{SpecSymbol, builtin_fn, builtin_scope, entries_map};
use crate::text::{lowercase, to_lowercase};

verus! {

broadcast use vstd::std_specs::vec::group_vec_axioms;

// ---------------------------------------------------------------------
// Association lists read as maps: a later entry overrides an earlier one
// ---------------------------------------------------------------------
/// The last entry of `key`, if there is one.
pub(crate) fn find_last<T: View>(entries: &Vec<(String, T)>, key: &String) -> (r: Option<usize>)
    ensures
        match r {
            Some(i) => {
                &&& i < entries@.len()
                &&& entries@[i as int].0@ == key@
                &&& forall|j: int| i < j < entries@.len() ==> entries@[j].0@ != key@
            },
            None => forall|j: int| 0 <= j < entries@.len() ==> entries@[j].0@ != key@,
        },
{
    let mut i = entries.len();
    while i > 0
        invariant
            i <= entries@.len(),
            forall|j: int| i <= j < entries@.len() ==> entries@[j].0@ != key@,
        decreases i,
    {
        if entries[i - 1].0 == *key {
            return Some(i - 1);
        }
        i -= 1;
    }
    None
}

pub(crate) proof fn lemma_entries_last<T: View>(s: Seq<(String, T)>, i: int)
    requires
        0 <= i < s.len(),
        forall|j: int| i < j < s.len() ==> s[j].0@ != s[i].0@,
    ensures
        entries_map(s).contains_key(s[i].0@),
        entries_map(s)[s[i].0@] == s[i].1@,
    decreases s.len(),
{
    if i < s.len() - 1 {
        let t = s.drop_last();
        assert(t[i] == s[i]);
        lemma_entries_last(t, i);
    }
}

pub(crate) proof fn lemma_entries_absent<T: View>(s: Seq<(String, T)>, k: Seq<char>)
    requires
        forall|j: int| 0 <= j < s.len() ==> s[j].0@ != k,
    ensures
        !entries_map(s).contains_key(k),
    decreases s.len(),
{
    if s.len() > 0 {
        let t = s.drop_last();
        assert forall|j: int| 0 <= j < t.len() implies t[j].0@ != k by {
            assert(t[j] == s[j]);
        }
        lemma_entries_absent(t, k);
    }
}

// ---------------------------------------------------------------------
// Array parameters
// ---------------------------------------------------------------------
/// Records an access with `n` indices to the array named `key` (lower
/// case), when it is one of `names`: the largest count seen is kept.
pub open spec fn record_access(
    m: Map<Seq<char>, usize>,
    names: Set<Seq<char>>,
    key: Seq<char>,
    n: usize,
) -> Map<Seq<char>, usize> {
    if names.contains(key) {
        m.insert(
            key,
            if m.contains_key(key) && m[key] >= n {
                m[key]
            } else {
                n
            },
        )
    } else {
        m
    }
}

/// The indexed accesses of an expression, recorded from left to right. The
/// indices themselves are not searched.
pub open spec fn scan_expr(e: SpecExpr, names: Set<Seq<char>>, m: Map<Seq<char>, usize>) -> Map<
    Seq<char>,
    usize,
>
    decreases e, 0int,
{
    match e {
        SpecExpr::Index(a, idx) => record_access(m, names, lowercase(a), idx.len() as usize),
        SpecExpr::Binary(l, _, r) => scan_expr(*r, names, scan_expr(*l, names, m)),
        SpecExpr::Unary(_, x) => scan_expr(*x, names, m),
        SpecExpr::Call(_, args) => scan_exprs(args, 0, names, m),
        _ => m,
    }
}

pub open spec fn scan_exprs(
    es: Seq<SpecExpr>,
    i: int,
    names: Set<Seq<char>>,
    m: Map<Seq<char>, usize>,
) -> Map<Seq<char>, usize>
    decreases es, es.len() - i,
{
    if i < 0 || i >= es.len() {
        m
    } else {
        scan_exprs(es, i + 1, names, scan_expr(es[i], names, m))
    }
}

/// The indexed accesses of a statement: indexed assignments, assigned
/// values, conditions and bodies of `Si`, `Mientras` and `Repetir`, bodies
/// of `Para`, the expression, case values, case bodies and default of
/// `Segun`, and what `Escribir` and `Leer` name.
pub open spec fn scan_stmt(s: SpecStmt, names: Set<Seq<char>>, m: Map<Seq<char>, usize>) -> Map<
    Seq<char>,
    usize,
>
    decreases s, 0int,
{
    match s {
        SpecStmt::IndexAssign(a, idx, _) => record_access(m, names, lowercase(a), idx.len() as usize),
        SpecStmt::Assign(_, v) => scan_expr(v, names, m),
        SpecStmt::If(c, t, e) => {
            let m1 = scan_stmts(t, 0, names, scan_expr(c, names, m));
            match e {
                Some(b) => scan_stmts(b, 0, names, m1),
                None => m1,
            }
        },
        SpecStmt::While(c, b) => scan_stmts(b, 0, names, scan_expr(c, names, m)),
        SpecStmt::Repeat(b, u) => scan_expr(u, names, scan_stmts(b, 0, names, m)),
        SpecStmt::For(_, _, _, _, b) => scan_stmts(b, 0, names, m),
        SpecStmt::Match(x, cases, d) => {
            let m1 = scan_cases(cases, 0, names, scan_expr(x, names, m));
            match d {
                Some(b) => scan_stmts(b, 0, names, m1),
                None => m1,
            }
        },
        SpecStmt::Write(es, _) => scan_exprs(es, 0, names, m),
        SpecStmt::Read(es) => scan_exprs(es, 0, names, m),
        _ => m,
    }
}

pub open spec fn scan_stmts(
    ss: Seq<SpecStmt>,
    i: int,
    names: Set<Seq<char>>,
    m: Map<Seq<char>, usize>,
) -> Map<Seq<char>, usize>
    decreases ss, ss.len() - i,
{
    if i < 0 || i >= ss.len() {
        m
    } else {
        scan_stmts(ss, i + 1, names, scan_stmt(ss[i], names, m))
    }
}

/// The indexed accesses of the cases of a `Segun` from case `i` on: each
/// case value, then its body.
pub open spec fn scan_cases(
    cs: Seq<(SpecExpr, Seq<SpecStmt>)>,
    i: int,
    names: Set<Seq<char>>,
    m: Map<Seq<char>, usize>,
) -> Map<Seq<char>, usize>
    decreases cs, cs.len() - i,
{
    if i < 0 || i >= cs.len() {
        m
    } else {
        scan_cases(cs, i + 1, names, scan_stmts(cs[i].1, 0, names, scan_expr(cs[i].0, names, m)))
    }
}

/// The lower-case names of the parameters.
pub open spec fn param_names(params: Seq<(Seq<char>, SpecType, bool)>) -> Set<Seq<char>> {
    Set::new(|k: Seq<char>| exists|i: int| 0 <= i < params.len() && k == lowercase(params[i].0))
}

/// From parameter `i` on, the (position, dimensions) of each parameter that
/// is accessed as an array.
pub open spec fn array_params_from(
    params: Seq<(Seq<char>, SpecType, bool)>,
    dims: Map<Seq<char>, usize>,
    i: int,
) -> Seq<(usize, usize)>
    decreases params.len() - i,
{
    if i < 0 || i >= params.len() {
        Seq::empty()
    } else {
        let rest = array_params_from(params, dims, i + 1);
        let k = lowercase(params[i].0);
        if dims.contains_key(k) {
            seq![(i as usize, dims[k])] + rest
        } else {
            rest
        }
    }
}

/// The array parameters of a function, in parameter order.
pub open spec fn function_array_params(f: SpecFunction) -> Seq<(usize, usize)> {
    let dims = scan_stmts(f.body, 0, param_names(f.params), Map::empty());
    array_params_from(f.params, dims, 0)
}

/// For each function (by lower-case name; a later function of the same name
/// wins) with at least one array parameter, its array parameters.
pub open spec fn array_params_map(fs: Seq<SpecFunction>) -> Map<Seq<char>, Seq<(usize, usize)>>
    decreases fs.len(),
{
    if fs.len() == 0 {
        Map::empty()
    } else {
        let m = array_params_map(fs.drop_last());
        let l = function_array_params(fs.last());
        if l.len() > 0 {
            m.insert(lowercase(fs.last().name), l)
        } else {
            m
        }
    }
}

fn names_contain(names: &Vec<String>, key: &String) -> (r: bool)
    ensures
        r == exists|i: int| 0 <= i < names@.len() && names@[i]@ == key@,
{
    let mut i: usize = 0;
    while i < names.len()
        invariant
            i <= names@.len(),
            forall|j: int| 0 <= j < i ==> names@[j]@ != key@,
        decreases names@.len() - i,
    {
        if names[i] == *key {
            return true;
        }
        i += 1;
    }
    false
}

fn record_access_exec(
    dims: &mut Vec<(String, usize)>,
    names: &Vec<String>,
    ghost_names: Ghost<Set<Seq<char>>>,
    array: &String,
    n: usize,
)
    requires
        forall|k: Seq<char>|
            ghost_names@.contains(k) <==> exists|i: int| 0 <= i < names@.len() && names@[i]@ == k,
    ensures
        entries_map(final(dims)@) == record_access(
            entries_map(old(dims)@),
            ghost_names@,
            lowercase(array@),
            n,
        ),
{
    let key = to_lowercase(array);
    if names_contain(names, &key) {
        let ghost m = entries_map(dims@);
        let v = match find_last(dims, &key) {
            Some(i) => {
                proof {
                    lemma_entries_last(dims@, i as int);
                }
                if dims[i].1 >= n {
                    dims[i].1
                } else {
                    n
                }
            },
            None => {
                proof {
                    lemma_entries_absent(dims@, key@);
                }
                n
            },
        };
        dims.push((key, v));
        proof {
            assert(dims@.drop_last() =~= old(dims)@);
        }
    }
}

fn scan_expr_exec(
    e: &Expression,
    names: &Vec<String>,
    ghost_names: Ghost<Set<Seq<char>>>,
    dims: &mut Vec<(String, usize)>,
)
    requires
        forall|k: Seq<char>|
            ghost_names@.contains(k) <==> exists|i: int| 0 <= i < names@.len() && names@[i]@ == k,
    ensures
        entries_map(final(dims)@) == scan_expr(e@, ghost_names@, entries_map(old(dims)@)),
    decreases e,
{
    match e {
        Expression::Index { array, indices } => {
            proof {
                lemma_exprs_view(indices@);
            }
            record_access_exec(dims, names, ghost_names, array, indices.len());
        },
        Expression::Binary { left, right, .. } => {
            scan_expr_exec(left, names, ghost_names, dims);
            scan_expr_exec(right, names, ghost_names, dims);
        },
        Expression::Unary { expr, .. } => {
            scan_expr_exec(expr, names, ghost_names, dims);
        },
        Expression::Call { args, .. } => {
            proof {
                assert(decreases_to!(*e => *args));
            }
            scan_exprs_exec(args, names, ghost_names, dims);
        },
        _ => {},
    }
}

fn scan_exprs_exec(
    es: &Vec<Expression>,
    names: &Vec<String>,
    ghost_names: Ghost<Set<Seq<char>>>,
    dims: &mut Vec<(String, usize)>,
)
    requires
        forall|k: Seq<char>|
            ghost_names@.contains(k) <==> exists|i: int| 0 <= i < names@.len() && names@[i]@ == k,
    ensures
        entries_map(final(dims)@) == scan_exprs(
            exprs_view(es@),
            0,
            ghost_names@,
            entries_map(old(dims)@),
        ),
    decreases es,
{
    let ghost sv = exprs_view(es@);
    proof {
        lemma_exprs_view(es@);
    }
    let mut i: usize = 0;
    while i < es.len()
        invariant
            i <= es@.len(),
            sv == exprs_view(es@),
            sv.len() == es@.len(),
            forall|k: int| 0 <= k < es@.len() ==> #[trigger] sv[k] == es@[k]@,
            forall|k: Seq<char>|
                ghost_names@.contains(k) <==> exists|j: int| 0 <= j < names@.len() && names@[j]@ == k,
            scan_exprs(sv, 0, ghost_names@, entries_map(old(dims)@)) == scan_exprs(
                sv,
                i as int,
                ghost_names@,
                entries_map(dims@),
            ),
            forall|k: int| 0 <= k < es@.len() ==> decreases_to!(*es => #[trigger] es@[k]),
        decreases es@.len() - i,
    {
        assert(sv[i as int] == es@[i as int]@);
        scan_expr_exec(&es[i], names, ghost_names, dims);
        i += 1;
    }
}

fn scan_stmt_exec(
    s: &Statement,
    names: &Vec<String>,
    ghost_names: Ghost<Set<Seq<char>>>,
    dims: &mut Vec<(String, usize)>,
)
    requires
        forall|k: Seq<char>|
            ghost_names@.contains(k) <==> exists|i: int| 0 <= i < names@.len() && names@[i]@ == k,
    ensures
        entries_map(final(dims)@) == scan_stmt(s@, ghost_names@, entries_map(old(dims)@)),
    decreases s,
{
    match s {
        Statement::IndexAssign { array, indices, .. } => {
            proof {
                lemma_exprs_view(indices@);
            }
            record_access_exec(dims, names, ghost_names, array, indices.len());
        },
        Statement::Assign { value, .. } => {
            scan_expr_exec(value, names, ghost_names, dims);
        },
        Statement::If { condition, then_branch, else_branch } => {
            proof {
                assert(decreases_to!(*s => *then_branch));
                assert(decreases_to!(*s => *else_branch));
            }
            scan_expr_exec(condition, names, ghost_names, dims);
            scan_stmts_exec(then_branch, names, ghost_names, dims);
            match else_branch {
                Some(b) => {
                    proof {
                        assert(decreases_to!(*else_branch => *b));
                    }
                    scan_stmts_exec(b, names, ghost_names, dims);
                },
                None => {},
            }
        },
        Statement::While { condition, body } => {
            proof {
                assert(decreases_to!(*s => *body));
            }
            scan_expr_exec(condition, names, ghost_names, dims);
            scan_stmts_exec(body, names, ghost_names, dims);
        },
        Statement::Repeat { body, until } => {
            proof {
                assert(decreases_to!(*s => *body));
            }
            scan_stmts_exec(body, names, ghost_names, dims);
            scan_expr_exec(until, names, ghost_names, dims);
        },
        Statement::For { body, .. } => {
            proof {
                assert(decreases_to!(*s => *body));
            }
            scan_stmts_exec(body, names, ghost_names, dims);
        },
        Statement::Match { expression, cases, default } => {
            proof {
                lemma_cases_view(cases@);
                assert(decreases_to!(*s => *default));
            }
            scan_expr_exec(expression, names, ghost_names, dims);
            let ghost cv = cases_view(cases@);
            let ghost m1 = entries_map(dims@);
            let mut i: usize = 0;
            while i < cases.len()
                invariant
                    i <= cases@.len(),
                    cv == cases_view(cases@),
                    cv.len() == cases@.len(),
                    forall|j: int|
                        0 <= j < cases@.len() ==> #[trigger] cv[j] == (
                            cases@[j].0@,
                            stmts_view(cases@[j].1@),
                        ),
                    forall|k: Seq<char>|
                        ghost_names@.contains(k) <==> exists|j: int|
                            0 <= j < names@.len() && names@[j]@ == k,
                    scan_cases(cv, 0, ghost_names@, m1) == scan_cases(
                        cv,
                        i as int,
                        ghost_names@,
                        entries_map(dims@),
                    ),
                    forall|k: int| 0 <= k < cases@.len() ==> decreases_to!(*s => #[trigger] cases@[k].1),
                    forall|k: int| 0 <= k < cases@.len() ==> decreases_to!(*s => #[trigger] cases@[k].0),
                decreases cases@.len() - i,
            {
                assert(cv[i as int] == (cases@[i as int].0@, stmts_view(cases@[i as int].1@)));
                scan_expr_exec(&cases[i].0, names, ghost_names, dims);
                scan_stmts_exec(&cases[i].1, names, ghost_names, dims);
                i += 1;
            }
            match default {
                Some(b) => {
                    proof {
                        assert(decreases_to!(*default => *b));
                    }
                    scan_stmts_exec(b, names, ghost_names, dims);
                },
                None => {},
            }
        },
        Statement::Write(exprs, _) => {
            scan_exprs_exec(exprs, names, ghost_names, dims);
        },
        Statement::Read(exprs) => {
            scan_exprs_exec(exprs, names, ghost_names, dims);
        },
        _ => {},
    }
}

fn scan_stmts_exec(
    ss: &Vec<Statement>,
    names: &Vec<String>,
    ghost_names: Ghost<Set<Seq<char>>>,
    dims: &mut Vec<(String, usize)>,
)
    requires
        forall|k: Seq<char>|
            ghost_names@.contains(k) <==> exists|i: int| 0 <= i < names@.len() && names@[i]@ == k,
    ensures
        entries_map(final(dims)@) == scan_stmts(
            stmts_view(ss@),
            0,
            ghost_names@,
            entries_map(old(dims)@),
        ),
    decreases ss,
{
    let ghost sv = stmts_view(ss@);
    proof {
        lemma_stmts_view(ss@);
    }
    let mut i: usize = 0;
    while i < ss.len()
        invariant
            i <= ss@.len(),
            sv == stmts_view(ss@),
            sv.len() == ss@.len(),
            forall|k: int| 0 <= k < ss@.len() ==> #[trigger] sv[k] == ss@[k]@,
            forall|k: Seq<char>|
                ghost_names@.contains(k) <==> exists|j: int| 0 <= j < names@.len() && names@[j]@ == k,
            scan_stmts(sv, 0, ghost_names@, entries_map(old(dims)@)) == scan_stmts(
                sv,
                i as int,
                ghost_names@,
                entries_map(dims@),
            ),
            forall|k: int| 0 <= k < ss@.len() ==> decreases_to!(*ss => #[trigger] ss@[k]),
        decreases ss@.len() - i,
    {
        assert(sv[i as int] == ss@[i as int]@);
        scan_stmt_exec(&ss[i], names, ghost_names, dims);
        i += 1;
    }
}

fn lower_param_names(params: &Vec<(String, Type, bool)>) -> (r: Vec<String>)
    ensures
        r@.len() == params@.len(),
        forall|i: int| 0 <= i < r@.len() ==> #[trigger] r@[i]@ == lowercase(params@[i].0@),
{
    let mut r: Vec<String> = Vec::new();
    let mut i: usize = 0;
    while i < params.len()
        invariant
            i <= params@.len(),
            r@.len() == i,
            forall|j: int| 0 <= j < i ==> #[trigger] r@[j]@ == lowercase(params@[j].0@),
        decreases params@.len() - i,
    {
        r.push(to_lowercase(&params[i].0));
        i += 1;
    }
    r
}

fn function_array_params_exec(params: &Vec<(String, Type, bool)>, body: &Vec<Statement>) -> (r: Vec<
    (usize, usize),
>)
    ensures
        r@ == array_params_from(
            params_view(params@),
            scan_stmts(stmts_view(body@), 0, param_names(params_view(params@)), Map::empty()),
            0,
        ),
{
    let ghost pv = params_view(params@);
    let ghost set = param_names(pv);
    let names = lower_param_names(params);
    proof {
        assert forall|k: Seq<char>|
            set.contains(k) <==> exists|i: int| 0 <= i < names@.len() && names@[i]@ == k by {
            if set.contains(k) {
                let i = choose|i: int| 0 <= i < pv.len() && k == lowercase(pv[i].0);
                assert(names@[i]@ == k);
            }
            if exists|i: int| 0 <= i < names@.len() && names@[i]@ == k {
                let i = choose|i: int| 0 <= i < names@.len() && names@[i]@ == k;
                assert(k == lowercase(pv[i].0));
            }
        }
    }
    let mut dims: Vec<(String, usize)> = Vec::new();
    proof {
        assert(entries_map(dims@) =~= Map::<Seq<char>, usize>::empty());
    }
    scan_stmts_exec(body, &names, Ghost(set), &mut dims);
    let ghost d = entries_map(dims@);
    let mut out: Vec<(usize, usize)> = Vec::new();
    let mut i: usize = 0;
    proof {
        assert(out@ + array_params_from(pv, d, 0) =~= array_params_from(pv, d, 0));
    }
    while i < params.len()
        invariant
            i <= params@.len(),
            pv == params_view(params@),
            d == entries_map(dims@),
            forall|j: int| 0 <= j < names@.len() ==> #[trigger] names@[j]@ == lowercase(params@[j].0@),
            names@.len() == params@.len(),
            out@ + array_params_from(pv, d, i as int) == array_params_from(pv, d, 0),
        decreases params@.len() - i,
    {
        let ghost before = out@;
        let ghost rest = array_params_from(pv, d, i + 1);
        assert(pv[i as int].0 == params@[i as int].0@);
        match find_last(&dims, &names[i]) {
            Some(j) => {
                proof {
                    lemma_entries_last(dims@, j as int);
                }
                out.push((i, dims[j].1));
                assert(before.push((i, dims@[j as int].1)) + rest =~= before + (seq![
                    (i, dims@[j as int].1),
                ] + rest));
            },
            None => {
                proof {
                    lemma_entries_absent(dims@, names@[i as int]@);
                }
            },
        }
        i += 1;
    }
    proof {
        assert(out@ + array_params_from(pv, d, i as int) =~= out@);
    }
    out
}

/// Finds which parameters of each function are used as arrays, and with
/// how many indices (the most seen). The result, read as a map from the
/// lower-case function name (a later entry overriding an earlier one),
/// lists for each function that has any its array parameters as
/// (position, dimensions), in parameter order.
pub fn detect_array_parameters(program: &Program) -> (r: Vec<(String, Vec<(usize, usize)>)>)
    ensures
        entries_map(r@) == array_params_map(functions_view(program.functions@)),
{
    let ghost fv = functions_view(program.functions@);
    let mut out: Vec<(String, Vec<(usize, usize)>)> = Vec::new();
    let mut k: usize = 0;
    proof {
        assert(fv.subrange(0, 0) =~= Seq::<SpecFunction>::empty());
        assert(entries_map(out@) =~= Map::<Seq<char>, Seq<(usize, usize)>>::empty());
    }
    while k < program.functions.len()
        invariant
            k <= program.functions@.len(),
            fv == functions_view(program.functions@),
            entries_map(out@) == array_params_map(fv.subrange(0, k as int)),
        decreases program.functions@.len() - k,
    {
        let f = &program.functions[k];
        let list = function_array_params_exec(&f.params, &f.body);
        let ghost sub = fv.subrange(0, k + 1);
        proof {
            assert(sub.drop_last() =~= fv.subrange(0, k as int));
            assert(sub.last() == f@);
        }
        if list.len() > 0 {
            let ghost before = out@;
            out.push((to_lowercase(&f.name), list));
            proof {
                assert(out@.drop_last() =~= before);
            }
        }
        k += 1;
    }
    proof {
        assert(fv.subrange(0, k as int) =~= fv);
    }
    out
}

// ---------------------------------------------------------------------
// Constant array sizes
// ---------------------------------------------------------------------
/// The sizes, when every one of them is an integer literal.
pub open spec fn int_sizes(es: Seq<SpecExpr>) -> Option<Seq<i64>>
    decreases es.len(),
{
    if es.len() == 0 {
        Some(Seq::empty())
    } else {
        match (int_sizes(es.drop_last()), es.last()) {
            (Some(s), SpecExpr::Lit(SpecLit::Int(n))) => Some(s.push(n)),
            _ => None,
        }
    }
}

/// Records the `Dimension` statements with constant sizes (by lower-case
/// array name; a later one overrides an earlier one), searching the bodies
/// of `Si`, `Mientras`, `Repetir` and `Para`, and the case bodies and
/// default of `Segun`.
pub open spec fn dims_stmt(s: SpecStmt, m: Map<Seq<char>, Seq<i64>>) -> Map<Seq<char>, Seq<i64>>
    decreases s, 0int,
{
    match s {
        SpecStmt::Dimension(name, sizes) => match int_sizes(sizes) {
            Some(v) => m.insert(lowercase(name), v),
            None => m,
        },
        SpecStmt::If(_, t, e) => {
            let m1 = dims_stmts(t, 0, m);
            match e {
                Some(b) => dims_stmts(b, 0, m1),
                None => m1,
            }
        },
        SpecStmt::While(_, b) => dims_stmts(b, 0, m),
        SpecStmt::Repeat(b, _) => dims_stmts(b, 0, m),
        SpecStmt::For(_, _, _, _, b) => dims_stmts(b, 0, m),
        SpecStmt::Match(_, cases, d) => {
            let m1 = dims_cases(cases, 0, m);
            match d {
                Some(b) => dims_stmts(b, 0, m1),
                None => m1,
            }
        },
        _ => m,
    }
}

/// The `Dimension` statements of the case bodies of a `Segun`, from case
/// `i` on.
pub open spec fn dims_cases(cs: Seq<(SpecExpr, Seq<SpecStmt>)>, i: int, m: Map<Seq<char>, Seq<i64>>) -> Map<
    Seq<char>,
    Seq<i64>,
>
    decreases cs, cs.len() - i,
{
    if i < 0 || i >= cs.len() {
        m
    } else {
        dims_cases(cs, i + 1, dims_stmts(cs[i].1, 0, m))
    }
}

pub open spec fn dims_stmts(ss: Seq<SpecStmt>, i: int, m: Map<Seq<char>, Seq<i64>>) -> Map<
    Seq<char>,
    Seq<i64>,
>
    decreases ss, ss.len() - i,
{
    if i < 0 || i >= ss.len() {
        m
    } else {
        dims_stmts(ss, i + 1, dims_stmt(ss[i], m))
    }
}

pub open spec fn dims_functions(fs: Seq<SpecFunction>, i: int, m: Map<Seq<char>, Seq<i64>>) -> Map<
    Seq<char>,
    Seq<i64>,
>
    decreases fs.len() - i,
{
    if i < 0 || i >= fs.len() {
        m
    } else {
        dims_functions(fs, i + 1, dims_stmts(fs[i].body, 0, m))
    }
}

/// The constant sizes of the arrays of a program: the main body first,
/// then each function in order.
pub open spec fn constant_array_dims(p: SpecProgram) -> Map<Seq<char>, Seq<i64>> {
    dims_functions(p.functions, 0, dims_stmts(p.main_body, 0, Map::empty()))
}

proof fn lemma_int_sizes_prefix(s: Seq<SpecExpr>, k: int)
    requires
        0 <= k <= s.len(),
        int_sizes(s.subrange(0, k)) is None,
    ensures
        int_sizes(s) is None,
    decreases s.len() - k,
{
    if k < s.len() {
        let sub = s.subrange(0, k + 1);
        assert(sub.drop_last() =~= s.subrange(0, k));
        lemma_int_sizes_prefix(s, k + 1);
    } else {
        assert(s.subrange(0, k) =~= s);
    }
}

fn int_sizes_exec(es: &Vec<Expression>) -> (r: Option<Vec<i64>>)
    ensures
        match r {
            Some(v) => int_sizes(exprs_view(es@)) == Some(v@),
            None => int_sizes(exprs_view(es@)) is None,
        },
{
    let ghost sv = exprs_view(es@);
    proof {
        lemma_exprs_view(es@);
        assert(sv.subrange(0, 0) =~= Seq::<SpecExpr>::empty());
    }
    let mut out: Vec<i64> = Vec::new();
    let mut i: usize = 0;
    while i < es.len()
        invariant
            i <= es@.len(),
            sv == exprs_view(es@),
            sv.len() == es@.len(),
            forall|k: int| 0 <= k < es@.len() ==> #[trigger] sv[k] == es@[k]@,
            int_sizes(sv.subrange(0, i as int)) == Some(out@),
        decreases es@.len() - i,
    {
        let ghost sub = sv.subrange(0, i + 1);
        assert(sub.drop_last() =~= sv.subrange(0, i as int));
        assert(sub.last() == es@[i as int]@);
        match &es[i] {
            Expression::Literal(Literal::Integer(n)) => {
                out.push(*n);
            },
            _ => {
                proof {
                    lemma_int_sizes_prefix(sv, i + 1);
                }
                return None;
            },
        }
        i += 1;
    }
    assert(sv.subrange(0, i as int) =~= sv);
    Some(out)
}

fn dims_stmt_exec(s: &Statement, dims: &mut Vec<(String, Vec<i64>)>)
    ensures
        entries_map(final(dims)@) == dims_stmt(s@, entries_map(old(dims)@)),
    decreases s,
{
    match s {
        Statement::Dimension { name, sizes } => {
            match int_sizes_exec(sizes) {
                Some(v) => {
                    let ghost before = dims@;
                    dims.push((to_lowercase(name), v));
                    proof {
                        assert(dims@.drop_last() =~= before);
                    }
                },
                None => {},
            }
        },
        Statement::If { then_branch, else_branch, .. } => {
            proof {
                assert(decreases_to!(*s => *then_branch));
                assert(decreases_to!(*s => *else_branch));
            }
            dims_stmts_exec(then_branch, dims);
            match else_branch {
                Some(b) => {
                    proof {
                        assert(decreases_to!(*else_branch => *b));
                    }
                    dims_stmts_exec(b, dims);
                },
                None => {},
            }
        },
        Statement::While { body, .. } => {
            proof {
                assert(decreases_to!(*s => *body));
            }
            dims_stmts_exec(body, dims);
        },
        Statement::Repeat { body, .. } => {
            proof {
                assert(decreases_to!(*s => *body));
            }
            dims_stmts_exec(body, dims);
        },
        Statement::For { body, .. } => {
            proof {
                assert(decreases_to!(*s => *body));
            }
            dims_stmts_exec(body, dims);
        },
        Statement::Match { cases, default, .. } => {
            proof {
                lemma_cases_view(cases@);
                assert(decreases_to!(*s => *default));
            }
            let ghost cv = cases_view(cases@);
            let ghost m1 = entries_map(dims@);
            let mut i: usize = 0;
            while i < cases.len()
                invariant
                    i <= cases@.len(),
                    cv == cases_view(cases@),
                    cv.len() == cases@.len(),
                    forall|j: int|
                        0 <= j < cases@.len() ==> #[trigger] cv[j] == (
                            cases@[j].0@,
                            stmts_view(cases@[j].1@),
                        ),
                    dims_cases(cv, 0, m1) == dims_cases(cv, i as int, entries_map(dims@)),
                    forall|k: int| 0 <= k < cases@.len() ==> decreases_to!(*s => #[trigger] cases@[k].1),
                decreases cases@.len() - i,
            {
                assert(cv[i as int] == (cases@[i as int].0@, stmts_view(cases@[i as int].1@)));
                dims_stmts_exec(&cases[i].1, dims);
                i += 1;
            }
            match default {
                Some(b) => {
                    proof {
                        assert(decreases_to!(*default => *b));
                    }
                    dims_stmts_exec(b, dims);
                },
                None => {},
            }
        },
        _ => {},
    }
}

fn dims_stmts_exec(ss: &Vec<Statement>, dims: &mut Vec<(String, Vec<i64>)>)
    ensures
        entries_map(final(dims)@) == dims_stmts(stmts_view(ss@), 0, entries_map(old(dims)@)),
    decreases ss,
{
    let ghost sv = stmts_view(ss@);
    proof {
        lemma_stmts_view(ss@);
    }
    let mut i: usize = 0;
    while i < ss.len()
        invariant
            i <= ss@.len(),
            sv == stmts_view(ss@),
            sv.len() == ss@.len(),
            forall|k: int| 0 <= k < ss@.len() ==> #[trigger] sv[k] == ss@[k]@,
            dims_stmts(sv, 0, entries_map(old(dims)@)) == dims_stmts(
                sv,
                i as int,
                entries_map(dims@),
            ),
            forall|k: int| 0 <= k < ss@.len() ==> decreases_to!(*ss => #[trigger] ss@[k]),
        decreases ss@.len() - i,
    {
        assert(sv[i as int] == ss@[i as int]@);
        dims_stmt_exec(&ss[i], dims);
        i += 1;
    }
}

/// The constant sizes of the arrays that `Dimension` statements declare,
/// read as a map from the lower-case array name (a later entry overriding
/// an earlier one).
pub fn extract_constant_array_dims(program: &Program) -> (r: Vec<(String, Vec<i64>)>)
    ensures
        entries_map(r@) == constant_array_dims(program@),
{
    let mut dims: Vec<(String, Vec<i64>)> = Vec::new();
    proof {
        assert(entries_map(dims@) =~= Map::<Seq<char>, Seq<i64>>::empty());
    }
    dims_stmts_exec(&program.main_body, &mut dims);
    let ghost fv = functions_view(program.functions@);
    let ghost m0 = entries_map(dims@);
    let mut k: usize = 0;
    while k < program.functions.len()
        invariant
            k <= program.functions@.len(),
            fv == functions_view(program.functions@),
            dims_functions(fv, 0, m0) == dims_functions(fv, k as int, entries_map(dims@)),
        decreases program.functions@.len() - k,
    {
        dims_stmts_exec(&program.functions[k].body, &mut dims);
        k += 1;
    }
    dims
}

// ---------------------------------------------------------------------
// Native functions
// ---------------------------------------------------------------------
/// How a value is passed to and from the runtime: a 64-bit integer (also
/// used for text pointers and booleans) or a 64-bit float.
#[derive(Debug, Clone, Copy, PartialEq, Eq, Structural)]
pub enum ValueKind {
    I64,
    F64,
}

/// The signature of a native function: the runtime symbol that implements
/// it, how its arguments and result are passed, and its PSeInt result type.
pub struct BuiltinSig {
    pub runtime_name: &'static str,
    pub params: Vec<ValueKind>,
    pub ret: ValueKind,
    pub ret_ast: Type,
}

/// The native functions, by lower-case name.
pub open spec fn builtin_table(name: Seq<char>) -> Option<(Seq<char>, Seq<ValueKind>, ValueKind, SpecType)> {
    let f = ValueKind::F64;
    let i = ValueKind::I64;
    if name == "rc"@ || name == "raiz"@ {
        Some(("builtin_rc"@, seq![f], f, SpecType::Real))
    } else if name == "abs"@ {
        Some(("builtin_abs"@, seq![f], f, SpecType::Real))
    } else if name == "ln"@ {
        Some(("builtin_ln"@, seq![f], f, SpecType::Real))
    } else if name == "exp"@ {
        Some(("builtin_exp"@, seq![f], f, SpecType::Real))
    } else if name == "sen"@ {
        Some(("builtin_sen"@, seq![f], f, SpecType::Real))
    } else if name == "cos"@ {
        Some(("builtin_cos"@, seq![f], f, SpecType::Real))
    } else if name == "tan"@ {
        Some(("builtin_tan"@, seq![f], f, SpecType::Real))
    } else if name == "asen"@ {
        Some(("builtin_asen"@, seq![f], f, SpecType::Real))
    } else if name == "acos"@ {
        Some(("builtin_acos"@, seq![f], f, SpecType::Real))
    } else if name == "atan"@ {
        Some(("builtin_atan"@, seq![f], f, SpecType::Real))
    } else if name == "trunc"@ {
        Some(("builtin_trunc"@, seq![f], i, SpecType::Integer))
    } else if name == "redon"@ {
        Some(("builtin_redon"@, seq![f], i, SpecType::Integer))
    } else if name == "azar"@ {
        Some(("builtin_azar"@, seq![i], i, SpecType::Integer))
    } else if name == "aleatorio"@ {
        Some(("builtin_aleatorio"@, seq![i, i], i, SpecType::Integer))
    } else if name == "longitud"@ {
        Some(("builtin_longitud"@, seq![i], i, SpecType::Integer))
    } else if name == "mayusculas"@ {
        Some(("builtin_mayusculas"@, seq![i], i, SpecType::Str))
    } else if name == "minusculas"@ {
        Some(("builtin_minusculas"@, seq![i], i, SpecType::Str))
    } else if name == "subcadena"@ {
        Some(("builtin_subcadena"@, seq![i, i, i], i, SpecType::Str))
    } else if name == "concatenar"@ {
        Some(("builtin_concatenar"@, seq![i, i], i, SpecType::Str))
    } else if name == "convertiranumero"@ {
        Some(("builtin_convertiranumero"@, seq![i], f, SpecType::Real))
    } else if name == "convertiratexto"@ {
        Some(("builtin_convertiratexto"@, seq![f], i, SpecType::Str))
    } else if name == "horaactual"@ {
        Some(("builtin_horaactual"@, Seq::empty(), i, SpecType::Integer))
    } else if name == "fechaactual"@ {
        Some(("builtin_fechaactual"@, Seq::empty(), i, SpecType::Integer))
    } else {
        None
    }
}

/// Equality of two texts.
fn str_eq(a: &str, b: &str) -> (r: bool)
    ensures
        r == (a@ == b@),
{
    let n = a.unicode_len();
    if n != b.unicode_len() {
        return false;
    }
    let mut i: usize = 0;
    while i < n
        invariant
            i <= n,
            n == a@.len(),
            n == b@.len(),
            forall|j: int| 0 <= j < i ==> a@[j] == b@[j],
        decreases n - i,
    {
        if a.get_char(i) != b.get_char(i) {
            return false;
        }
        i += 1;
    }
    assert(a@ =~= b@);
    true
}

fn sig(runtime_name: &'static str, params: Vec<ValueKind>, ret: ValueKind, ret_ast: Type) -> (r: Option<BuiltinSig>)
    ensures
        r == Some(BuiltinSig { runtime_name, params, ret, ret_ast }),
{
    Some(BuiltinSig { runtime_name, params, ret, ret_ast })
}

/// The signature of the native function `name` (lower case), if it is one.
pub fn lookup_builtin(name: &str) -> (r: Option<BuiltinSig>)
    ensures
        match r {
            Some(s) => builtin_table(name@) == Some((s.runtime_name@, s.params@, s.ret, s.ret_ast@)),
            None => builtin_table(name@) is None,
        },
{
    let f = ValueKind::F64;
    let i = ValueKind::I64;
    if str_eq(name, "rc") || str_eq(name, "raiz") {
        sig("builtin_rc", vec![f], f, Type::Real)
    } else if str_eq(name, "abs") {
        sig("builtin_abs", vec![f], f, Type::Real)
    } else if str_eq(name, "ln") {
        sig("builtin_ln", vec![f], f, Type::Real)
    } else if str_eq(name, "exp") {
        sig("builtin_exp", vec![f], f, Type::Real)
    } else if str_eq(name, "sen") {
        sig("builtin_sen", vec![f], f, Type::Real)
    } else if str_eq(name, "cos") {
        sig("builtin_cos", vec![f], f, Type::Real)
    } else if str_eq(name, "tan") {
        sig("builtin_tan", vec![f], f, Type::Real)
    } else if str_eq(name, "asen") {
        sig("builtin_asen", vec![f], f, Type::Real)
    } else if str_eq(name, "acos") {
        sig("builtin_acos", vec![f], f, Type::Real)
    } else if str_eq(name, "atan") {
        sig("builtin_atan", vec![f], f, Type::Real)
    } else if str_eq(name, "trunc") {
        sig("builtin_trunc", vec![f], i, Type::Integer)
    } else if str_eq(name, "redon") {
        sig("builtin_redon", vec![f], i, Type::Integer)
    } else if str_eq(name, "azar") {
        sig("builtin_azar", vec![i], i, Type::Integer)
    } else if str_eq(name, "aleatorio") {
        sig("builtin_aleatorio", vec![i, i], i, Type::Integer)
    } else if str_eq(name, "longitud") {
        sig("builtin_longitud", vec![i], i, Type::Integer)
    } else if str_eq(name, "mayusculas") {
        sig("builtin_mayusculas", vec![i], i, Type::String)
    } else if str_eq(name, "minusculas") {
        sig("builtin_minusculas", vec![i], i, Type::String)
    } else if str_eq(name, "subcadena") {
        sig("builtin_subcadena", vec![i, i, i], i, Type::String)
    } else if str_eq(name, "concatenar") {
        sig("builtin_concatenar", vec![i, i], i, Type::String)
    } else if str_eq(name, "convertiranumero") {
        sig("builtin_convertiranumero", vec![i], f, Type::Real)
    } else if str_eq(name, "convertiratexto") {
        sig("builtin_convertiratexto", vec![f], i, Type::String)
    } else if str_eq(name, "horaactual") {
        sig("builtin_horaactual", Vec::new(), i, Type::Integer)
    } else if str_eq(name, "fechaactual") {
        sig("builtin_fechaactual", Vec::new(), i, Type::Integer)
    } else {
        None
    }
}

/// How a value of a type is passed to and from the runtime.
pub open spec fn passed_as(t: SpecType) -> ValueKind {
    if t == SpecType::Real {
        ValueKind::F64
    } else {
        ValueKind::I64
    }
}

/// The code generator's table of native functions agrees with the native
/// scope of the symbol table: the same names, and for each the same number
/// of parameters, each passed as a float exactly when its type is real,
/// and the same result type.
#[verifier::rlimit(100)]
#[verifier::spinoff_prover]
pub proof fn law_native_tables_agree(n: Seq<char>)
    ensures
        builtin_scope().contains_key(n) <==> builtin_table(n) is Some,
        builtin_table(n) matches Some(b) ==> builtin_scope()[n] matches SpecSymbol::Function(ps, ret) && ret == Some(b.3)
            && b.1 == ps.map_values(|p: (SpecType, bool)| passed_as(p.0)),
{
    reveal_strlit("rc");
    reveal_strlit("raiz");
    reveal_strlit("abs");
    reveal_strlit("ln");
    reveal_strlit("exp");
    reveal_strlit("sen");
    reveal_strlit("cos");
    reveal_strlit("tan");
    reveal_strlit("asen");
    reveal_strlit("acos");
    reveal_strlit("atan");
    reveal_strlit("trunc");
    reveal_strlit("redon");
    reveal_strlit("azar");
    reveal_strlit("aleatorio");
    reveal_strlit("longitud");
    reveal_strlit("mayusculas");
    reveal_strlit("minusculas");
    reveal_strlit("subcadena");
    reveal_strlit("concatenar");
    reveal_strlit("convertiranumero");
    reveal_strlit("convertiratexto");
    reveal_strlit("horaactual");
    reveal_strlit("fechaactual");
    assert("rc"@.len() == 2);
    assert("raiz"@.len() == 4);
    assert("abs"@.len() == 3);
    assert("ln"@.len() == 2);
    assert("exp"@.len() == 3);
    assert("sen"@.len() == 3);
    assert("cos"@.len() == 3);
    assert("tan"@.len() == 3);
    assert("asen"@.len() == 4);
    assert("acos"@.len() == 4);
    assert("atan"@.len() == 4);
    assert("trunc"@.len() == 5);
    assert("redon"@.len() == 5);
    assert("azar"@.len() == 4);
    assert("aleatorio"@.len() == 9);
    assert("longitud"@.len() == 8);
    assert("mayusculas"@.len() == 10);
    assert("minusculas"@.len() == 10);
    assert("subcadena"@.len() == 9);
    assert("concatenar"@.len() == 10);
    assert("convertiranumero"@.len() == 16);
    assert("convertiratexto"@.len() == 15);
    assert("horaactual"@.len() == 10);
    assert("fechaactual"@.len() == 11);
    assert("rc"@[0] != "ln"@[0]);
    assert("raiz"@[0] != "asen"@[0]);
    assert("raiz"@[0] != "acos"@[0]);
    assert("raiz"@[0] != "atan"@[0]);
    assert("raiz"@[0] != "azar"@[0]);
    assert("abs"@[0] != "exp"@[0]);
    assert("abs"@[0] != "sen"@[0]);
    assert("abs"@[0] != "cos"@[0]);
    assert("abs"@[0] != "tan"@[0]);
    assert("exp"@[0] != "sen"@[0]);
    assert("exp"@[0] != "cos"@[0]);
    assert("exp"@[0] != "tan"@[0]);
    assert("sen"@[0] != "cos"@[0]);
    assert("sen"@[0] != "tan"@[0]);
    assert("cos"@[0] != "tan"@[0]);
    assert("asen"@[1] != "acos"@[1]);
    assert("asen"@[1] != "atan"@[1]);
    assert("asen"@[1] != "azar"@[1]);
    assert("acos"@[1] != "atan"@[1]);
    assert("acos"@[1] != "azar"@[1]);
    assert("atan"@[1] != "azar"@[1]);
    assert("trunc"@[0] != "redon"@[0]);
    assert("aleatorio"@[0] != "subcadena"@[0]);
    assert("mayusculas"@[1] != "minusculas"@[1]);
    assert("mayusculas"@[0] != "concatenar"@[0]);
    assert("mayusculas"@[0] != "horaactual"@[0]);
    assert("minusculas"@[0] != "concatenar"@[0]);
    assert("minusculas"@[0] != "horaactual"@[0]);
    assert("concatenar"@[0] != "horaactual"@[0]);
    if n == "rc"@ {
        assert(builtin_scope()[n] == builtin_fn(seq![(SpecType::Real, false)], SpecType::Real));
        let b = builtin_table(n)->0;
        assert(b.1 =~= seq![ValueKind::F64]);
        assert(seq![ValueKind::F64] =~= seq![(SpecType::Real, false)].map_values(|p: (SpecType, bool)| passed_as(p.0)));
    }
    if n == "raiz"@ {
        assert(builtin_scope()[n] == builtin_fn(seq![(SpecType::Real, false)], SpecType::Real));
        let b = builtin_table(n)->0;
        assert(b.1 =~= seq![ValueKind::F64]);
        assert(seq![ValueKind::F64] =~= seq![(SpecType::Real, false)].map_values(|p: (SpecType, bool)| passed_as(p.0)));
    }
    if n == "abs"@ {
        assert(builtin_scope()[n] == builtin_fn(seq![(SpecType::Real, false)], SpecType::Real));
        let b = builtin_table(n)->0;
        assert(b.1 =~= seq![ValueKind::F64]);
        assert(seq![ValueKind::F64] =~= seq![(SpecType::Real, false)].map_values(|p: (SpecType, bool)| passed_as(p.0)));
    }
    if n == "ln"@ {
        assert(builtin_scope()[n] == builtin_fn(seq![(SpecType::Real, false)], SpecType::Real));
        let b = builtin_table(n)->0;
        assert(b.1 =~= seq![ValueKind::F64]);
        assert(seq![ValueKind::F64] =~= seq![(SpecType::Real, false)].map_values(|p: (SpecType, bool)| passed_as(p.0)));
    }
    if n == "exp"@ {
        assert(builtin_scope()[n] == builtin_fn(seq![(SpecType::Real, false)], SpecType::Real));
        let b = builtin_table(n)->0;
        assert(b.1 =~= seq![ValueKind::F64]);
        assert(seq![ValueKind::F64] =~= seq![(SpecType::Real, false)].map_values(|p: (SpecType, bool)| passed_as(p.0)));
    }
    if n == "sen"@ {
        assert(builtin_scope()[n] == builtin_fn(seq![(SpecType::Real, false)], SpecType::Real));
        let b = builtin_table(n)->0;
        assert(b.1 =~= seq![ValueKind::F64]);
        assert(seq![ValueKind::F64] =~= seq![(SpecType::Real, false)].map_values(|p: (SpecType, bool)| passed_as(p.0)));
    }
    if n == "cos"@ {
        assert(builtin_scope()[n] == builtin_fn(seq![(SpecType::Real, false)], SpecType::Real));
        let b = builtin_table(n)->0;
        assert(b.1 =~= seq![ValueKind::F64]);
        assert(seq![ValueKind::F64] =~= seq![(SpecType::Real, false)].map_values(|p: (SpecType, bool)| passed_as(p.0)));
    }
    if n == "tan"@ {
        assert(builtin_scope()[n] == builtin_fn(seq![(SpecType::Real, false)], SpecType::Real));
        let b = builtin_table(n)->0;
        assert(b.1 =~= seq![ValueKind::F64]);
        assert(seq![ValueKind::F64] =~= seq![(SpecType::Real, false)].map_values(|p: (SpecType, bool)| passed_as(p.0)));
    }
    if n == "asen"@ {
        assert(builtin_scope()[n] == builtin_fn(seq![(SpecType::Real, false)], SpecType::Real));
        let b = builtin_table(n)->0;
        assert(b.1 =~= seq![ValueKind::F64]);
        assert(seq![ValueKind::F64] =~= seq![(SpecType::Real, false)].map_values(|p: (SpecType, bool)| passed_as(p.0)));
    }
    if n == "acos"@ {
        assert(builtin_scope()[n] == builtin_fn(seq![(SpecType::Real, false)], SpecType::Real));
        let b = builtin_table(n)->0;
        assert(b.1 =~= seq![ValueKind::F64]);
        assert(seq![ValueKind::F64] =~= seq![(SpecType::Real, false)].map_values(|p: (SpecType, bool)| passed_as(p.0)));
    }
    if n == "atan"@ {
        assert(builtin_scope()[n] == builtin_fn(seq![(SpecType::Real, false)], SpecType::Real));
        let b = builtin_table(n)->0;
        assert(b.1 =~= seq![ValueKind::F64]);
        assert(seq![ValueKind::F64] =~= seq![(SpecType::Real, false)].map_values(|p: (SpecType, bool)| passed_as(p.0)));
    }
    if n == "trunc"@ {
        assert(builtin_scope()[n] == builtin_fn(seq![(SpecType::Real, false)], SpecType::Integer));
        let b = builtin_table(n)->0;
        assert(b.1 =~= seq![ValueKind::F64]);
        assert(seq![ValueKind::F64] =~= seq![(SpecType::Real, false)].map_values(|p: (SpecType, bool)| passed_as(p.0)));
    }
    if n == "redon"@ {
        assert(builtin_scope()[n] == builtin_fn(seq![(SpecType::Real, false)], SpecType::Integer));
        let b = builtin_table(n)->0;
        assert(b.1 =~= seq![ValueKind::F64]);
        assert(seq![ValueKind::F64] =~= seq![(SpecType::Real, false)].map_values(|p: (SpecType, bool)| passed_as(p.0)));
    }
    if n == "azar"@ {
        assert(builtin_scope()[n] == builtin_fn(seq![(SpecType::Integer, false)], SpecType::Integer));
        let b = builtin_table(n)->0;
        assert(b.1 =~= seq![ValueKind::I64]);
        assert(seq![ValueKind::I64] =~= seq![(SpecType::Integer, false)].map_values(|p: (SpecType, bool)| passed_as(p.0)));
    }
    if n == "aleatorio"@ {
        assert(builtin_scope()[n] == builtin_fn(seq![(SpecType::Integer, false), (SpecType::Integer, false)], SpecType::Integer));
        let b = builtin_table(n)->0;
        assert(b.1 =~= seq![ValueKind::I64, ValueKind::I64]);
        assert(seq![ValueKind::I64, ValueKind::I64] =~= seq![(SpecType::Integer, false), (SpecType::Integer, false)].map_values(|p: (SpecType, bool)| passed_as(p.0)));
    }
    if n == "longitud"@ {
        assert(builtin_scope()[n] == builtin_fn(seq![(SpecType::Str, false)], SpecType::Integer));
        let b = builtin_table(n)->0;
        assert(b.1 =~= seq![ValueKind::I64]);
        assert(seq![ValueKind::I64] =~= seq![(SpecType::Str, false)].map_values(|p: (SpecType, bool)| passed_as(p.0)));
    }
    if n == "mayusculas"@ {
        assert(builtin_scope()[n] == builtin_fn(seq![(SpecType::Str, false)], SpecType::Str));
        let b = builtin_table(n)->0;
        assert(b.1 =~= seq![ValueKind::I64]);
        assert(seq![ValueKind::I64] =~= seq![(SpecType::Str, false)].map_values(|p: (SpecType, bool)| passed_as(p.0)));
    }
    if n == "minusculas"@ {
        assert(builtin_scope()[n] == builtin_fn(seq![(SpecType::Str, false)], SpecType::Str));
        let b = builtin_table(n)->0;
        assert(b.1 =~= seq![ValueKind::I64]);
        assert(seq![ValueKind::I64] =~= seq![(SpecType::Str, false)].map_values(|p: (SpecType, bool)| passed_as(p.0)));
    }
    if n == "subcadena"@ {
        assert(builtin_scope()[n] == builtin_fn(seq![(SpecType::Str, false), (SpecType::Integer, false), (SpecType::Integer, false)], SpecType::Str));
        let b = builtin_table(n)->0;
        assert(b.1 =~= seq![ValueKind::I64, ValueKind::I64, ValueKind::I64]);
        assert(seq![ValueKind::I64, ValueKind::I64, ValueKind::I64] =~= seq![(SpecType::Str, false), (SpecType::Integer, false), (SpecType::Integer, false)].map_values(|p: (SpecType, bool)| passed_as(p.0)));
    }
    if n == "concatenar"@ {
        assert(builtin_scope()[n] == builtin_fn(seq![(SpecType::Str, false), (SpecType::Str, false)], SpecType::Str));
        let b = builtin_table(n)->0;
        assert(b.1 =~= seq![ValueKind::I64, ValueKind::I64]);
        assert(seq![ValueKind::I64, ValueKind::I64] =~= seq![(SpecType::Str, false), (SpecType::Str, false)].map_values(|p: (SpecType, bool)| passed_as(p.0)));
    }
    if n == "convertiranumero"@ {
        assert(builtin_scope()[n] == builtin_fn(seq![(SpecType::Str, false)], SpecType::Real));
        let b = builtin_table(n)->0;
        assert(b.1 =~= seq![ValueKind::I64]);
        assert(seq![ValueKind::I64] =~= seq![(SpecType::Str, false)].map_values(|p: (SpecType, bool)| passed_as(p.0)));
    }
    if n == "convertiratexto"@ {
        assert(builtin_scope()[n] == builtin_fn(seq![(SpecType::Real, false)], SpecType::Str));
        let b = builtin_table(n)->0;
        assert(b.1 =~= seq![ValueKind::F64]);
        assert(seq![ValueKind::F64] =~= seq![(SpecType::Real, false)].map_values(|p: (SpecType, bool)| passed_as(p.0)));
    }
    if n == "horaactual"@ {
        assert(builtin_scope()[n] == builtin_fn(Seq::<(SpecType, bool)>::empty(), SpecType::Integer));
        let b = builtin_table(n)->0;
        assert(b.1 =~= Seq::<ValueKind>::empty());
        assert(Seq::<ValueKind>::empty() =~= Seq::<(SpecType, bool)>::empty().map_values(|p: (SpecType, bool)| passed_as(p.0)));
    }
    if n == "fechaactual"@ {
        assert(builtin_scope()[n] == builtin_fn(Seq::<(SpecType, bool)>::empty(), SpecType::Integer));
        let b = builtin_table(n)->0;
        assert(b.1 =~= Seq::<ValueKind>::empty());
        assert(Seq::<ValueKind>::empty() =~= Seq::<(SpecType, bool)>::empty().map_values(|p: (SpecType, bool)| passed_as(p.0)));
    }
}

} // verus!

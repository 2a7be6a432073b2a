//! The grammar of PSeInt programs, as a parser over tokens.
//!
//! The grammar is a parsing expression grammar: alternatives are tried in
//! order and the first that succeeds is taken; repetitions take as many
//! items as succeed; an optional part that fails is skipped. A failure
//! reports the token position where it happened (the furthest among the
//! alternatives that were tried).
use vstd::prelude::*;
use crate::ast::{
    BinaryOp, Expression, Function, Literal, Program, SpecExpr, SpecFunction, SpecLit, SpecProgram,
    SpecStmt, SpecType, Statement, Type, UnaryOp, cases_view, copy_string, exprs_view, opt_expr_view,
    functions_view, lemma_cases_view_push, lemma_exprs_view, lemma_exprs_view_push,
    lemma_stmts_view, lemma_stmts_view_push, opt_string_view, opt_type_view, params_view,
    stmts_view, strings_view,
};
use crate::text::string_eq_ignore_ascii_case;
use crate::lexer::{SpecToken, Token, toks};
use crate::text::eq_ignore_ascii_case;

verus! {

broadcast use vstd::std_specs::vec::group_vec_axioms;

// ---------------------------------------------------------------------
// Helpers over the token sequence
// ---------------------------------------------------------------------
pub open spec fn is_tok(ts: Seq<SpecToken>, i: int, t: SpecToken) -> bool {
    0 <= i < ts.len() && ts[i] == t
}

pub open spec fn ident_at(ts: Seq<SpecToken>, i: int) -> Option<Seq<char>> {
    if 0 <= i < ts.len() {
        match ts[i] {
            SpecToken::Ident(n) => Some(n),
            _ => None,
        }
    } else {
        None
    }
}

pub open spec fn max_pos(a: int, b: int) -> int {
    if a >= b {
        a
    } else {
        b
    }
}

/// An optional `;` at `j`.
pub open spec fn skip_semi(ts: Seq<SpecToken>, j: int) -> int {
    if is_tok(ts, j, SpecToken::Semi) {
        j + 1
    } else {
        j
    }
}

pub open spec fn type_at(ts: Seq<SpecToken>, i: int) -> Option<SpecType> {
    if 0 <= i < ts.len() {
        match ts[i] {
            SpecToken::Entero => Some(SpecType::Integer),
            SpecToken::Real => Some(SpecType::Real),
            SpecToken::Logico => Some(SpecType::Boolean),
            SpecToken::Caracter => Some(SpecType::Str),
            SpecToken::Texto => Some(SpecType::Str),
            _ => None,
        }
    } else {
        None
    }
}

pub open spec fn binop(l: SpecExpr, op: BinaryOp, r: SpecExpr) -> SpecExpr {
    SpecExpr::Binary(Box::new(l), op, Box::new(r))
}

pub open spec fn logic_op(ts: Seq<SpecToken>, j: int) -> Option<BinaryOp> {
    if is_tok(ts, j, SpecToken::And) {
        Some(BinaryOp::And)
    } else if is_tok(ts, j, SpecToken::Or) {
        Some(BinaryOp::Or)
    } else {
        None
    }
}

pub open spec fn comparison_op(ts: Seq<SpecToken>, j: int) -> Option<BinaryOp> {
    if is_tok(ts, j, SpecToken::Eq) {
        Some(BinaryOp::Eq)
    } else if is_tok(ts, j, SpecToken::Ne) {
        Some(BinaryOp::Ne)
    } else if is_tok(ts, j, SpecToken::Lt) {
        Some(BinaryOp::Lt)
    } else if is_tok(ts, j, SpecToken::Le) {
        Some(BinaryOp::Le)
    } else if is_tok(ts, j, SpecToken::Gt) {
        Some(BinaryOp::Gt)
    } else if is_tok(ts, j, SpecToken::Ge) {
        Some(BinaryOp::Ge)
    } else {
        None
    }
}

pub open spec fn sum_op(ts: Seq<SpecToken>, j: int) -> Option<BinaryOp> {
    if is_tok(ts, j, SpecToken::Plus) {
        Some(BinaryOp::Add)
    } else if is_tok(ts, j, SpecToken::Minus) {
        Some(BinaryOp::Sub)
    } else {
        None
    }
}

pub open spec fn product_op(ts: Seq<SpecToken>, j: int) -> Option<BinaryOp> {
    if is_tok(ts, j, SpecToken::Star) {
        Some(BinaryOp::Mul)
    } else if is_tok(ts, j, SpecToken::Slash) {
        Some(BinaryOp::Div)
    } else if is_tok(ts, j, SpecToken::Mod) {
        Some(BinaryOp::Mod)
    } else if is_tok(ts, j, SpecToken::Caret) {
        Some(BinaryOp::Power)
    } else {
        None
    }
}

// ---------------------------------------------------------------------
// Expressions. Levels, loosest first: `Y`/`O`; comparisons; `+`/`-`;
// `*`, `/`, `MOD`, `^`; prefix `-` and `NO`; atoms. Binary operators of a
// level associate to the left.
// ---------------------------------------------------------------------
/// An expression at `i`: the expression and the position after it.
pub open spec fn p_expr(ts: Seq<SpecToken>, i: int) -> Result<(SpecExpr, int), int>
    decreases ts.len() - i, 9int,
{
    if i < 0 || i > ts.len() {
        Err(i)
    } else {
        match p_comparison(ts, i) {
            Ok((e, j)) => if i < j <= ts.len() {
                logic_rest(ts, j, e)
            } else {
                Err(j)
            },
            Err(f) => Err(f),
        }
    }
}

pub open spec fn logic_rest(ts: Seq<SpecToken>, j: int, acc: SpecExpr) -> Result<(SpecExpr, int), int>
    decreases ts.len() - j, 8int,
{
    if j < 0 || j > ts.len() {
        Err(j)
    } else {
        match logic_op(ts, j) {
            Some(op) => match p_comparison(ts, j + 1) {
                Ok((r, k)) => if j + 1 < k <= ts.len() {
                    logic_rest(ts, k, binop(acc, op, r))
                } else {
                    Err(k)
                },
                Err(_) => Ok((acc, j)),
            },
            None => Ok((acc, j)),
        }
    }
}

pub open spec fn p_comparison(ts: Seq<SpecToken>, i: int) -> Result<(SpecExpr, int), int>
    decreases ts.len() - i, 7int,
{
    if i < 0 || i > ts.len() {
        Err(i)
    } else {
        match p_sum(ts, i) {
            Ok((e, j)) => if i < j <= ts.len() {
                comparison_rest(ts, j, e)
            } else {
                Err(j)
            },
            Err(f) => Err(f),
        }
    }
}

pub open spec fn comparison_rest(ts: Seq<SpecToken>, j: int, acc: SpecExpr) -> Result<(SpecExpr, int), int>
    decreases ts.len() - j, 7int,
{
    if j < 0 || j > ts.len() {
        Err(j)
    } else {
        match comparison_op(ts, j) {
            Some(op) => match p_sum(ts, j + 1) {
                Ok((r, k)) => if j + 1 < k <= ts.len() {
                    comparison_rest(ts, k, binop(acc, op, r))
                } else {
                    Err(k)
                },
                Err(_) => Ok((acc, j)),
            },
            None => Ok((acc, j)),
        }
    }
}

pub open spec fn p_sum(ts: Seq<SpecToken>, i: int) -> Result<(SpecExpr, int), int>
    decreases ts.len() - i, 6int,
{
    if i < 0 || i > ts.len() {
        Err(i)
    } else {
        match p_product(ts, i) {
            Ok((e, j)) => if i < j <= ts.len() {
                sum_rest(ts, j, e)
            } else {
                Err(j)
            },
            Err(f) => Err(f),
        }
    }
}

pub open spec fn sum_rest(ts: Seq<SpecToken>, j: int, acc: SpecExpr) -> Result<(SpecExpr, int), int>
    decreases ts.len() - j, 6int,
{
    if j < 0 || j > ts.len() {
        Err(j)
    } else {
        match sum_op(ts, j) {
            Some(op) => match p_product(ts, j + 1) {
                Ok((r, k)) => if j + 1 < k <= ts.len() {
                    sum_rest(ts, k, binop(acc, op, r))
                } else {
                    Err(k)
                },
                Err(_) => Ok((acc, j)),
            },
            None => Ok((acc, j)),
        }
    }
}

pub open spec fn p_product(ts: Seq<SpecToken>, i: int) -> Result<(SpecExpr, int), int>
    decreases ts.len() - i, 5int,
{
    if i < 0 || i > ts.len() {
        Err(i)
    } else {
        match p_unary(ts, i) {
            Ok((e, j)) => if i < j <= ts.len() {
                product_rest(ts, j, e)
            } else {
                Err(j)
            },
            Err(f) => Err(f),
        }
    }
}

pub open spec fn product_rest(ts: Seq<SpecToken>, j: int, acc: SpecExpr) -> Result<(SpecExpr, int), int>
    decreases ts.len() - j, 5int,
{
    if j < 0 || j > ts.len() {
        Err(j)
    } else {
        match product_op(ts, j) {
            Some(op) => match p_unary(ts, j + 1) {
                Ok((r, k)) => if j + 1 < k <= ts.len() {
                    product_rest(ts, k, binop(acc, op, r))
                } else {
                    Err(k)
                },
                Err(_) => Ok((acc, j)),
            },
            None => Ok((acc, j)),
        }
    }
}

pub open spec fn p_unary(ts: Seq<SpecToken>, i: int) -> Result<(SpecExpr, int), int>
    decreases ts.len() - i, 4int,
{
    if i < 0 || i > ts.len() {
        Err(i)
    } else if is_tok(ts, i, SpecToken::Minus) || is_tok(ts, i, SpecToken::Not) {
        let op = if is_tok(ts, i, SpecToken::Minus) {
            UnaryOp::Neg
        } else {
            UnaryOp::Not
        };
        match p_unary(ts, i + 1) {
            Ok((e, j)) => Ok((SpecExpr::Unary(op, Box::new(e)), j)),
            Err(f) => Err(f),
        }
    } else {
        p_atom(ts, i)
    }
}

pub open spec fn p_atom(ts: Seq<SpecToken>, i: int) -> Result<(SpecExpr, int), int>
    decreases ts.len() - i, 3int,
{
    if i < 0 || i >= ts.len() {
        Err(i)
    } else {
        match ts[i] {
            SpecToken::Int(n) => Ok((SpecExpr::Lit(SpecLit::Int(n)), i + 1)),
            SpecToken::Float(t) => Ok((SpecExpr::Lit(SpecLit::Real(t)), i + 1)),
            SpecToken::String(t) => Ok((SpecExpr::Lit(SpecLit::Str(t)), i + 1)),
            SpecToken::Verdadero => Ok((SpecExpr::Lit(SpecLit::Bool(true)), i + 1)),
            SpecToken::Falso => Ok((SpecExpr::Lit(SpecLit::Bool(false)), i + 1)),
            SpecToken::Ident(name) => match p_delim(ts, i + 1, SpecToken::LParen, SpecToken::RParen) {
                Ok((args, k)) => Ok((SpecExpr::Call(name, args), k)),
                Err(_) => match p_delim(ts, i + 1, SpecToken::LBracket, SpecToken::RBracket) {
                    Ok((idx, k)) => Ok((SpecExpr::Index(name, idx), k)),
                    Err(_) => Ok((SpecExpr::Var(name), i + 1)),
                },
            },
            SpecToken::LParen => match p_expr(ts, i + 1) {
                Ok((e, j)) => if i + 1 < j <= ts.len() && is_tok(ts, j, SpecToken::RParen) {
                    Ok((e, j + 1))
                } else {
                    Err(j)
                },
                Err(f) => Err(f),
            },
            _ => Err(i),
        }
    }
}

/// `open` expression-list `close`.
pub open spec fn p_delim(ts: Seq<SpecToken>, j: int, open: SpecToken, close: SpecToken) -> Result<
    (Seq<SpecExpr>, int),
    int,
>
    decreases ts.len() - j, 11int,
{
    if j < 0 || j > ts.len() {
        Err(j)
    } else if !is_tok(ts, j, open) {
        Err(j)
    } else {
        match p_list(ts, j + 1) {
            Ok((es, k)) => if j < k <= ts.len() && is_tok(ts, k, close) {
                Ok((es, k + 1))
            } else {
                Err(k)
            },
            Err(f) => Err(f),
        }
    }
}

/// Expressions separated by commas, possibly none.
pub open spec fn p_list(ts: Seq<SpecToken>, i: int) -> Result<(Seq<SpecExpr>, int), int>
    decreases ts.len() - i, 10int,
{
    if i < 0 || i > ts.len() {
        Err(i)
    } else {
        match p_expr(ts, i) {
            Ok((e, j)) => if i < j <= ts.len() {
                list_rest(ts, j, seq![e])
            } else {
                Err(j)
            },
            Err(_) => Ok((Seq::empty(), i)),
        }
    }
}

pub open spec fn list_rest(ts: Seq<SpecToken>, j: int, acc: Seq<SpecExpr>) -> Result<
    (Seq<SpecExpr>, int),
    int,
>
    decreases ts.len() - j, 10int,
{
    if j < 0 || j > ts.len() {
        Err(j)
    } else if is_tok(ts, j, SpecToken::Comma) {
        match p_expr(ts, j + 1) {
            Ok((e, k)) => if j + 1 < k <= ts.len() {
                list_rest(ts, k, acc.push(e))
            } else {
                Err(k)
            },
            Err(_) => Ok((acc, j)),
        }
    } else {
        Ok((acc, j))
    }
}

// ---------------------------------------------------------------------
// Statements
// ---------------------------------------------------------------------
pub open spec fn idents_rest(ts: Seq<SpecToken>, j: int, acc: Seq<Seq<char>>) -> (Seq<Seq<char>>, int)
    decreases ts.len() - j,
{
    if is_tok(ts, j, SpecToken::Comma) {
        match ident_at(ts, j + 1) {
            Some(n) => idents_rest(ts, j + 2, acc.push(n)),
            None => (acc, j),
        }
    } else {
        (acc, j)
    }
}

/// Identifiers separated by commas, possibly none.
pub open spec fn ident_list(ts: Seq<SpecToken>, i: int) -> (Seq<Seq<char>>, int) {
    match ident_at(ts, i) {
        Some(n) => idents_rest(ts, i + 1, seq![n]),
        None => (Seq::empty(), i),
    }
}

/// Indices or sizes: a list between brackets, else between parentheses.
pub open spec fn p_dims(ts: Seq<SpecToken>, j: int) -> Result<(Seq<SpecExpr>, int), int> {
    match p_delim(ts, j, SpecToken::LBracket, SpecToken::RBracket) {
        Ok(x) => Ok(x),
        Err(f1) => match p_delim(ts, j, SpecToken::LParen, SpecToken::RParen) {
            Ok(x) => Ok(x),
            Err(f2) => Err(max_pos(f1, f2)),
        },
    }
}

pub open spec fn assign_at(ts: Seq<SpecToken>, j: int) -> bool {
    is_tok(ts, j, SpecToken::Assign) || is_tok(ts, j, SpecToken::Eq)
}

/// A target of `Leer`: a variable, or an element `name[indices]`.
pub open spec fn read_target(ts: Seq<SpecToken>, i: int) -> Result<(SpecExpr, int), int> {
    match ident_at(ts, i) {
        Some(n) => match p_delim(ts, i + 1, SpecToken::LBracket, SpecToken::RBracket) {
            Ok((idx, k)) => Ok((SpecExpr::Index(n, idx), k)),
            Err(_) => Ok((SpecExpr::Var(n), i + 1)),
        },
        None => Err(i),
    }
}

pub open spec fn targets_rest(ts: Seq<SpecToken>, j: int, acc: Seq<SpecExpr>) -> (Seq<SpecExpr>, int)
    decreases ts.len() - j,
{
    if is_tok(ts, j, SpecToken::Comma) {
        match read_target(ts, j + 1) {
            Ok((e, k)) => if j + 1 < k <= ts.len() {
                targets_rest(ts, k, acc.push(e))
            } else {
                (acc, j)
            },
            Err(_) => (acc, j),
        }
    } else {
        (acc, j)
    }
}

pub open spec fn p_targets(ts: Seq<SpecToken>, i: int) -> (Seq<SpecExpr>, int) {
    match read_target(ts, i) {
        Ok((e, k)) => targets_rest(ts, k, seq![e]),
        Err(_) => (Seq::empty(), i),
    }
}

pub open spec fn or_else(a: Result<(SpecStmt, int), int>, b: Result<(SpecStmt, int), int>) -> Result<
    (SpecStmt, int),
    int,
> {
    match a {
        Ok(x) => Ok(x),
        Err(f1) => match b {
            Ok(y) => Ok(y),
            Err(f2) => Err(max_pos(f1, f2)),
        },
    }
}

/// `Definir a, b Como tipo`
pub open spec fn s_define(ts: Seq<SpecToken>, i: int) -> Result<(SpecStmt, int), int> {
    if !is_tok(ts, i, SpecToken::Definir) {
        Err(i)
    } else {
        let (vars, j) = ident_list(ts, i + 1);
        if !is_tok(ts, j, SpecToken::Como) {
            Err(j)
        } else {
            match type_at(ts, j + 1) {
                Some(ty) => Ok((SpecStmt::Define(vars, ty), skip_semi(ts, j + 2))),
                None => Err(j + 1),
            }
        }
    }
}

/// `Dimension a[n, m]` or `Dimension a(n, m)`
pub open spec fn s_dimension(ts: Seq<SpecToken>, i: int) -> Result<(SpecStmt, int), int> {
    if !is_tok(ts, i, SpecToken::Dimension) {
        Err(i)
    } else {
        match ident_at(ts, i + 1) {
            Some(n) => match p_dims(ts, i + 2) {
                Ok((sizes, k)) => Ok((SpecStmt::Dimension(n, sizes), skip_semi(ts, k))),
                Err(f) => Err(f),
            },
            None => Err(i + 1),
        }
    }
}

/// `Borrar Pantalla`
pub open spec fn s_clear(ts: Seq<SpecToken>, i: int) -> Result<(SpecStmt, int), int> {
    if is_tok(ts, i, SpecToken::BorrarPantalla) {
        Ok((SpecStmt::ClearScreen, skip_semi(ts, i + 1)))
    } else {
        Err(i)
    }
}

/// `Esperar Tecla`
pub open spec fn s_wait_key(ts: Seq<SpecToken>, i: int) -> Result<(SpecStmt, int), int> {
    if !is_tok(ts, i, SpecToken::Esperar) {
        Err(i)
    } else if is_tok(ts, i + 1, SpecToken::Tecla) {
        Ok((SpecStmt::WaitKey, skip_semi(ts, i + 2)))
    } else {
        Err(i + 1)
    }
}

/// `Esperar d Segundos` or `Esperar d Milisegundos`
pub open spec fn s_wait(ts: Seq<SpecToken>, i: int) -> Result<(SpecStmt, int), int> {
    if !is_tok(ts, i, SpecToken::Esperar) {
        Err(i)
    } else {
        match p_expr(ts, i + 1) {
            Ok((d, j)) => if is_tok(ts, j, SpecToken::Milisegundo) {
                Ok((SpecStmt::Wait(d, true), skip_semi(ts, j + 1)))
            } else if is_tok(ts, j, SpecToken::Segundo) {
                Ok((SpecStmt::Wait(d, false), skip_semi(ts, j + 1)))
            } else {
                Err(j)
            },
            Err(f) => Err(f),
        }
    }
}

/// `a[i, j] <- e`
pub open spec fn s_index_assign(ts: Seq<SpecToken>, i: int) -> Result<(SpecStmt, int), int> {
    match ident_at(ts, i) {
        Some(n) => match p_dims(ts, i + 1) {
            Ok((idx, j)) => if assign_at(ts, j) {
                match p_expr(ts, j + 1) {
                    Ok((v, k)) => Ok((SpecStmt::IndexAssign(n, idx, v), skip_semi(ts, k))),
                    Err(f) => Err(f),
                }
            } else {
                Err(j)
            },
            Err(f) => Err(f),
        },
        None => Err(i),
    }
}

/// `a <- e`
pub open spec fn s_assign(ts: Seq<SpecToken>, i: int) -> Result<(SpecStmt, int), int> {
    match ident_at(ts, i) {
        Some(n) => if assign_at(ts, i + 1) {
            match p_expr(ts, i + 2) {
                Ok((v, k)) => Ok((SpecStmt::Assign(n, v), skip_semi(ts, k))),
                Err(f) => Err(f),
            }
        } else {
            Err(i + 1)
        },
        None => Err(i),
    }
}

/// `Leer a, b[i]`
pub open spec fn s_read(ts: Seq<SpecToken>, i: int) -> Result<(SpecStmt, int), int> {
    if !is_tok(ts, i, SpecToken::Leer) {
        Err(i)
    } else {
        let (targets, k) = p_targets(ts, i + 1);
        Ok((SpecStmt::Read(targets), skip_semi(ts, k)))
    }
}

/// `Escribir e1, e2`, with `Sin Saltar` before or after the list to
/// leave out the line break.
pub open spec fn s_write(ts: Seq<SpecToken>, i: int) -> Result<(SpecStmt, int), int> {
    if !is_tok(ts, i, SpecToken::Escribir) {
        Err(i)
    } else {
        let before = is_tok(ts, i + 1, SpecToken::SinSaltar);
        let j = if before {
            i + 2
        } else {
            i + 1
        };
        match p_list(ts, j) {
            Ok((es, k)) => {
                let after = is_tok(ts, k, SpecToken::SinSaltar);
                let k2 = if after {
                    k + 1
                } else {
                    k
                };
                Ok((SpecStmt::Write(es, !before && !after), skip_semi(ts, k2)))
            },
            Err(f) => Err(f),
        }
    }
}

/// `f(args)` or `f`
pub open spec fn s_call(ts: Seq<SpecToken>, i: int) -> Result<(SpecStmt, int), int> {
    match ident_at(ts, i) {
        Some(n) => match p_delim(ts, i + 1, SpecToken::LParen, SpecToken::RParen) {
            Ok((args, k)) => Ok((SpecStmt::Call(n, args), skip_semi(ts, k))),
            Err(_) => Ok((SpecStmt::Call(n, Seq::empty()), skip_semi(ts, i + 1))),
        },
        None => Err(i),
    }
}

/// `Si c Entonces ... [Sino ...] FinSi`
pub open spec fn s_if(ts: Seq<SpecToken>, i: int) -> Result<(SpecStmt, int), int>
    decreases ts.len() - i, 1int,
{
    if !is_tok(ts, i, SpecToken::Si) {
        Err(i)
    } else {
        match p_expr(ts, i + 1) {
            Ok((c, j)) => if i + 1 < j <= ts.len() && is_tok(ts, j, SpecToken::Entonces) {
                let (thn, k) = p_block(ts, j + 1);
                if !(j < k <= ts.len()) {
                    Err(k)
                } else if is_tok(ts, k, SpecToken::Sino) {
                    let (els, m) = p_block(ts, k + 1);
                    if k < m <= ts.len() && is_tok(ts, m, SpecToken::FinSi) {
                        Ok((SpecStmt::If(c, thn, Some(els)), m + 1))
                    } else {
                        Err(m)
                    }
                } else if is_tok(ts, k, SpecToken::FinSi) {
                    Ok((SpecStmt::If(c, thn, None), k + 1))
                } else {
                    Err(k)
                }
            } else {
                Err(j)
            },
            Err(f) => Err(f),
        }
    }
}

/// `Mientras c Hacer ... FinMientras`
pub open spec fn s_while(ts: Seq<SpecToken>, i: int) -> Result<(SpecStmt, int), int>
    decreases ts.len() - i, 1int,
{
    if !is_tok(ts, i, SpecToken::Mientras) {
        Err(i)
    } else {
        match p_expr(ts, i + 1) {
            Ok((c, j)) => if i + 1 < j <= ts.len() && is_tok(ts, j, SpecToken::Hacer) {
                let (body, k) = p_block(ts, j + 1);
                if j < k <= ts.len() && is_tok(ts, k, SpecToken::FinMientras) {
                    Ok((SpecStmt::While(c, body), k + 1))
                } else {
                    Err(k)
                }
            } else {
                Err(j)
            },
            Err(f) => Err(f),
        }
    }
}

/// `Repetir ... Hasta Que c`
pub open spec fn s_repeat(ts: Seq<SpecToken>, i: int) -> Result<(SpecStmt, int), int>
    decreases ts.len() - i, 1int,
{
    if !is_tok(ts, i, SpecToken::Repetir) {
        Err(i)
    } else {
        let (body, k) = p_block(ts, i + 1);
        if !(i < k <= ts.len()) {
            Err(k)
        } else if !is_tok(ts, k, SpecToken::Hasta) {
            Err(k)
        } else if !is_tok(ts, k + 1, SpecToken::Que) {
            Err(k + 1)
        } else {
            match p_expr(ts, k + 2) {
                Ok((c, m)) => Ok((SpecStmt::Repeat(body, c), skip_semi(ts, m))),
                Err(f) => Err(f),
            }
        }
    }
}

/// The optional `Paso e` of a `Para`: the step and the position after it.
pub open spec fn p_step(ts: Seq<SpecToken>, j: int) -> (Option<SpecExpr>, int) {
    if is_tok(ts, j, SpecToken::Paso) {
        match p_expr(ts, j + 1) {
            Ok((e, k)) => (Some(e), k),
            Err(_) => (None, j),
        }
    } else {
        (None, j)
    }
}

/// `Para v <- a Hasta b [Con Paso s] Hacer ... FinPara`
pub open spec fn s_for(ts: Seq<SpecToken>, i: int) -> Result<(SpecStmt, int), int>
    decreases ts.len() - i, 1int,
{
    if !is_tok(ts, i, SpecToken::Para) {
        Err(i)
    } else {
        match ident_at(ts, i + 1) {
            None => Err(i + 1),
            Some(v) => if !assign_at(ts, i + 2) {
                Err(i + 2)
            } else {
                match p_expr(ts, i + 3) {
                    Err(f) => Err(f),
                    Ok((a, j)) => if !is_tok(ts, j, SpecToken::Hasta) {
                        Err(j)
                    } else {
                        match p_expr(ts, j + 1) {
                            Err(f) => Err(f),
                            Ok((b, k)) => {
                                let (step, m) = p_step(ts, k);
                                if !(i < m && is_tok(ts, m, SpecToken::Hacer)) {
                                    Err(m)
                                } else {
                                    let (body, n) = p_block(ts, m + 1);
                                    if m < n <= ts.len() && is_tok(ts, n, SpecToken::FinPara) {
                                        Ok((SpecStmt::For(v, a, b, step, body), n + 1))
                                    } else {
                                        Err(n)
                                    }
                                }
                            },
                        }
                    },
                }
            },
        }
    }
}

/// The cases of a `Segun`: `value: statements`, any number of them.
pub open spec fn p_cases(ts: Seq<SpecToken>, i: int) -> (Seq<(SpecExpr, Seq<SpecStmt>)>, int)
    decreases ts.len() - i, 3int,
{
    if i < 0 || i > ts.len() {
        (Seq::empty(), i)
    } else {
        match p_expr(ts, i) {
            Ok((e, j)) => if i < j <= ts.len() && is_tok(ts, j, SpecToken::Colon) {
                let (b, k) = p_block(ts, j + 1);
                if j < k <= ts.len() {
                    let (rest, m) = p_cases(ts, k);
                    (seq![(e, b)] + rest, m)
                } else {
                    (Seq::empty(), i)
                }
            } else {
                (Seq::empty(), i)
            },
            Err(_) => (Seq::empty(), i),
        }
    }
}

/// `Segun e Hacer v1: ... v2: ... [Sino [:] ...] FinSegun`
pub open spec fn s_match(ts: Seq<SpecToken>, i: int) -> Result<(SpecStmt, int), int>
    decreases ts.len() - i, 1int,
{
    if !is_tok(ts, i, SpecToken::Segun) {
        Err(i)
    } else {
        match p_expr(ts, i + 1) {
            Err(f) => Err(f),
            Ok((e, j)) => if !(i + 1 < j <= ts.len() && is_tok(ts, j, SpecToken::Hacer)) {
                Err(j)
            } else {
                let (cases, k) = p_cases(ts, j + 1);
                if !(j < k <= ts.len()) {
                    Err(k)
                } else if is_tok(ts, k, SpecToken::Sino) {
                    let d = if is_tok(ts, k + 1, SpecToken::Colon) {
                        k + 2
                    } else {
                        k + 1
                    };
                    let (dflt, m) = p_block(ts, d);
                    if k < m <= ts.len() && is_tok(ts, m, SpecToken::FinSegun) {
                        Ok((SpecStmt::Match(e, cases, Some(dflt)), m + 1))
                    } else {
                        Err(m)
                    }
                } else if is_tok(ts, k, SpecToken::FinSegun) {
                    Ok((SpecStmt::Match(e, cases, None), k + 1))
                } else {
                    Err(k)
                }
            },
        }
    }
}

/// A statement at `i`: the first of the statement forms that parses.
pub open spec fn p_stmt(ts: Seq<SpecToken>, i: int) -> Result<(SpecStmt, int), int>
    decreases ts.len() - i, 2int,
{
    or_else(
        s_define(ts, i),
        or_else(
            s_dimension(ts, i),
            or_else(
                s_clear(ts, i),
                or_else(
                    s_wait_key(ts, i),
                    or_else(
                        s_wait(ts, i),
                        or_else(
                            s_index_assign(ts, i),
                            or_else(
                                s_assign(ts, i),
                                or_else(
                                    s_read(ts, i),
                                    or_else(
                                        s_write(ts, i),
                                        or_else(
                                            s_if(ts, i),
                                            or_else(
                                                s_while(ts, i),
                                                or_else(
                                                    s_repeat(ts, i),
                                                    or_else(
                                                        s_for(ts, i),
                                                        or_else(s_match(ts, i), s_call(ts, i)),
                                                    ),
                                                ),
                                            ),
                                        ),
                                    ),
                                ),
                            ),
                        ),
                    ),
                ),
            ),
        ),
    )
}

/// As many statements as parse, from `i` on.
pub open spec fn p_block(ts: Seq<SpecToken>, i: int) -> (Seq<SpecStmt>, int)
    decreases ts.len() - i, 3int,
{
    if i < 0 || i > ts.len() {
        (Seq::empty(), i)
    } else {
        match p_stmt(ts, i) {
            Ok((s, j)) => if i < j <= ts.len() {
                let (rest, k) = p_block(ts, j);
                (seq![s] + rest, k)
            } else {
                (Seq::empty(), i)
            },
            Err(_) => (Seq::empty(), i),
        }
    }
}

// ---------------------------------------------------------------------
// Functions and the program
// ---------------------------------------------------------------------
/// A parameter: `name [Por Referencia | Por Valor] [Como tipo]`. Without
/// `Como`, its type is `Void` until the body is read.
pub open spec fn p_param(ts: Seq<SpecToken>, i: int) -> Result<((Seq<char>, SpecType, bool), int), int> {
    match ident_at(ts, i) {
        None => Err(i),
        Some(n) => {
            let by_ref = is_tok(ts, i + 1, SpecToken::PorReferencia);
            let j = if by_ref || is_tok(ts, i + 1, SpecToken::PorValor) {
                i + 2
            } else {
                i + 1
            };
            if is_tok(ts, j, SpecToken::Como) && type_at(ts, j + 1) is Some {
                Ok(((n, type_at(ts, j + 1)->0, by_ref), j + 2))
            } else {
                Ok(((n, SpecType::Void, by_ref), j))
            }
        },
    }
}

pub open spec fn params_rest(
    ts: Seq<SpecToken>,
    j: int,
    acc: Seq<(Seq<char>, SpecType, bool)>,
) -> (Seq<(Seq<char>, SpecType, bool)>, int)
    decreases ts.len() - j,
{
    if is_tok(ts, j, SpecToken::Comma) {
        match p_param(ts, j + 1) {
            Ok((p, k)) => if j + 1 < k <= ts.len() {
                params_rest(ts, k, acc.push(p))
            } else {
                (acc, j)
            },
            Err(_) => (acc, j),
        }
    } else {
        (acc, j)
    }
}

/// Parameters separated by commas, possibly none.
pub open spec fn p_params(ts: Seq<SpecToken>, i: int) -> (Seq<(Seq<char>, SpecType, bool)>, int) {
    match p_param(ts, i) {
        Ok((p, k)) => params_rest(ts, k, seq![p]),
        Err(_) => (Seq::empty(), i),
    }
}

/// The type given to `name` by the first `Definir` of the body (its top
/// level) that declares it, names compared without regard to ASCII case.
pub open spec fn declared_type(body: Seq<SpecStmt>, name: Seq<char>) -> Option<SpecType>
    decreases body.len(),
{
    if body.len() == 0 {
        None
    } else {
        match body[0] {
            SpecStmt::Define(vars, ty) => if exists|k: int|
                0 <= k < vars.len() && #[trigger] eq_ignore_ascii_case(vars[k], name) {
                Some(ty)
            } else {
                declared_type(body.drop_first(), name)
            },
            _ => declared_type(body.drop_first(), name),
        }
    }
}

/// The declared type, `Entero` when there is none.
pub open spec fn inferred_type(body: Seq<SpecStmt>, name: Seq<char>) -> SpecType {
    match declared_type(body, name) {
        Some(t) => t,
        None => SpecType::Integer,
    }
}

pub open spec fn complete_param(body: Seq<SpecStmt>, p: (Seq<char>, SpecType, bool)) -> (
    Seq<char>,
    SpecType,
    bool,
) {
    if p.1 == SpecType::Void {
        (p.0, inferred_type(body, p.0), p.2)
    } else {
        p
    }
}

/// The function that a header and a body describe. In
/// `Funcion r <- f(...)`, `first` is `r` and `second` is `Some(f)`.
pub open spec fn make_function(
    first: Seq<char>,
    second: Option<Seq<char>>,
    params: Seq<(Seq<char>, SpecType, bool)>,
    body: Seq<SpecStmt>,
) -> SpecFunction {
    let name = match second {
        Some(f) => f,
        None => first,
    };
    let return_var = match second {
        Some(_) => Some(first),
        None => None,
    };
    SpecFunction {
        name,
        params: params.map_values(|p: (Seq<char>, SpecType, bool)| complete_param(body, p)),
        return_type: match return_var {
            Some(rv) => Some(inferred_type(body, rv)),
            None => Some(SpecType::Void),
        },
        return_var,
        body,
    }
}

/// `Funcion [r <-] f [(params)] ... FinFuncion`
pub open spec fn p_function(ts: Seq<SpecToken>, i: int) -> Result<(SpecFunction, int), int> {
    if !is_tok(ts, i, SpecToken::Funcion) {
        Err(i)
    } else {
        match ident_at(ts, i + 1) {
            None => Err(i + 1),
            Some(n1) => {
                let second = if is_tok(ts, i + 2, SpecToken::Assign) {
                    ident_at(ts, i + 3)
                } else {
                    None
                };
                let j = if second is Some {
                    i + 4
                } else {
                    i + 2
                };
                let ps = p_params(ts, j + 1);
                let has_params = is_tok(ts, j, SpecToken::LParen) && is_tok(ts, ps.1, SpecToken::RParen);
                let params = if has_params {
                    ps.0
                } else {
                    Seq::empty()
                };
                let k = if has_params {
                    ps.1 + 1
                } else {
                    j
                };
                let (body, b) = p_block(ts, k);
                if is_tok(ts, b, SpecToken::FinFuncion) {
                    Ok((make_function(n1, second, params, body), b + 1))
                } else {
                    Err(b)
                }
            },
        }
    }
}

/// As many functions as parse, from `i` on.
pub open spec fn p_functions(ts: Seq<SpecToken>, i: int) -> (Seq<SpecFunction>, int)
    decreases ts.len() - i,
{
    if i < 0 || i > ts.len() {
        (Seq::empty(), i)
    } else {
        match p_function(ts, i) {
            Ok((f, j)) => if i < j <= ts.len() {
                let (rest, k) = p_functions(ts, j);
                (seq![f] + rest, k)
            } else {
                (Seq::empty(), i)
            },
            Err(_) => (Seq::empty(), i),
        }
    }
}

/// A whole program: functions, `Proceso name ... FinProceso`, functions,
/// and nothing after. `Err` holds the position where parsing failed.
pub open spec fn parse_program(ts: Seq<SpecToken>) -> Result<SpecProgram, int> {
    let (pre, i) = p_functions(ts, 0);
    if !is_tok(ts, i, SpecToken::Proceso) {
        Err(i)
    } else {
        match ident_at(ts, i + 1) {
            None => Err(i + 1),
            Some(name) => {
                let (body, j) = p_block(ts, i + 2);
                if !is_tok(ts, j, SpecToken::FinProceso) {
                    Err(j)
                } else {
                    let (post, k) = p_functions(ts, j + 1);
                    if k == ts.len() {
                        Ok(SpecProgram { name, functions: pre + post, main_body: body })
                    } else {
                        Err(k)
                    }
                }
            },
        }
    }
}

// ---------------------------------------------------------------------
// Executable expression parser
// ---------------------------------------------------------------------
pub open spec fn expr_result(r: Result<(Expression, usize), usize>) -> Result<(SpecExpr, int), int> {
    match r {
        Ok((e, j)) => Ok((e@, j as int)),
        Err(f) => Err(f as int),
    }
}

pub open spec fn list_result(r: Result<(Vec<Expression>, usize), usize>) -> Result<
    (Seq<SpecExpr>, int),
    int,
> {
    match r {
        Ok((es, j)) => Ok((exprs_view(es@), j as int)),
        Err(f) => Err(f as int),
    }
}

/// Positions of a result: after the start on success, inside the input on
/// failure.
pub open spec fn advances<T>(r: Result<(T, usize), usize>, i: int, n: int) -> bool {
    match r {
        Ok((_, j)) => i < j <= n,
        Err(f) => f <= n,
    }
}

fn tok_is_semi(ts: &Vec<Token>, j: usize) -> (r: bool)
    ensures
        r == is_tok(toks(ts@), j as int, SpecToken::Semi),
{
    j < ts.len() && matches!(ts[j], Token::Semi)
}

fn skip_semi_exec(ts: &Vec<Token>, j: usize) -> (r: usize)
    requires
        j <= ts.len(),
    ensures
        r as int == skip_semi(toks(ts@), j as int),
        j <= r <= ts.len(),
{
    if tok_is_semi(ts, j) {
        j + 1
    } else {
        j
    }
}

fn logic_op_exec(ts: &Vec<Token>, j: usize) -> (r: Option<BinaryOp>)
    ensures
        r == logic_op(toks(ts@), j as int),
{
    if j < ts.len() {
        match ts[j] {
            Token::And => Some(BinaryOp::And),
            Token::Or => Some(BinaryOp::Or),
            _ => None,
        }
    } else {
        None
    }
}

fn comparison_op_exec(ts: &Vec<Token>, j: usize) -> (r: Option<BinaryOp>)
    ensures
        r == comparison_op(toks(ts@), j as int),
{
    if j < ts.len() {
        match ts[j] {
            Token::Eq => Some(BinaryOp::Eq),
            Token::Ne => Some(BinaryOp::Ne),
            Token::Lt => Some(BinaryOp::Lt),
            Token::Le => Some(BinaryOp::Le),
            Token::Gt => Some(BinaryOp::Gt),
            Token::Ge => Some(BinaryOp::Ge),
            _ => None,
        }
    } else {
        None
    }
}

fn sum_op_exec(ts: &Vec<Token>, j: usize) -> (r: Option<BinaryOp>)
    ensures
        r == sum_op(toks(ts@), j as int),
{
    if j < ts.len() {
        match ts[j] {
            Token::Plus => Some(BinaryOp::Add),
            Token::Minus => Some(BinaryOp::Sub),
            _ => None,
        }
    } else {
        None
    }
}

fn product_op_exec(ts: &Vec<Token>, j: usize) -> (r: Option<BinaryOp>)
    ensures
        r == product_op(toks(ts@), j as int),
{
    if j < ts.len() {
        match ts[j] {
            Token::Star => Some(BinaryOp::Mul),
            Token::Slash => Some(BinaryOp::Div),
            Token::Mod => Some(BinaryOp::Mod),
            Token::Caret => Some(BinaryOp::Power),
            _ => None,
        }
    } else {
        None
    }
}

/// Parses an expression at `i`.
fn parse_expr(ts: &Vec<Token>, i: usize) -> (r: Result<(Expression, usize), usize>)
    requires
        i <= ts.len(),
    ensures
        expr_result(r) == p_expr(toks(ts@), i as int),
        advances(r, i as int, ts.len() as int),
    decreases ts.len() - i, 9int,
{
    let ghost t = toks(ts@);
    let (mut acc, mut j) = match parse_comparison(ts, i) {
        Ok(x) => x,
        Err(f) => {
            return Err(f);
        },
    };
    assert(p_expr(t, i as int) == logic_rest(t, j as int, acc@));
    loop
        invariant
            i < j <= ts.len(),
            t == toks(ts@),
            p_expr(t, i as int) == logic_rest(t, j as int, acc@),
        decreases ts.len() - j,
    {
        match logic_op_exec(ts, j) {
            Some(op) => match parse_comparison(ts, j + 1) {
                Ok((r, k)) => {
                    acc = Expression::Binary { left: Box::new(acc), op, right: Box::new(r) };
                    j = k;
                },
                Err(_) => {
                    return Ok((acc, j));
                },
            },
            None => {
                return Ok((acc, j));
            },
        }
    }
}

fn parse_comparison(ts: &Vec<Token>, i: usize) -> (r: Result<(Expression, usize), usize>)
    requires
        i <= ts.len(),
    ensures
        expr_result(r) == p_comparison(toks(ts@), i as int),
        advances(r, i as int, ts.len() as int),
    decreases ts.len() - i, 7int,
{
    let ghost t = toks(ts@);
    let (mut acc, mut j) = match parse_sum(ts, i) {
        Ok(x) => x,
        Err(f) => {
            return Err(f);
        },
    };
    assert(p_comparison(t, i as int) == comparison_rest(t, j as int, acc@));
    loop
        invariant
            i < j <= ts.len(),
            t == toks(ts@),
            p_comparison(t, i as int) == comparison_rest(t, j as int, acc@),
        decreases ts.len() - j,
    {
        match comparison_op_exec(ts, j) {
            Some(op) => match parse_sum(ts, j + 1) {
                Ok((r, k)) => {
                    acc = Expression::Binary { left: Box::new(acc), op, right: Box::new(r) };
                    j = k;
                },
                Err(_) => {
                    return Ok((acc, j));
                },
            },
            None => {
                return Ok((acc, j));
            },
        }
    }
}

fn parse_sum(ts: &Vec<Token>, i: usize) -> (r: Result<(Expression, usize), usize>)
    requires
        i <= ts.len(),
    ensures
        expr_result(r) == p_sum(toks(ts@), i as int),
        advances(r, i as int, ts.len() as int),
    decreases ts.len() - i, 6int,
{
    let ghost t = toks(ts@);
    let (mut acc, mut j) = match parse_product(ts, i) {
        Ok(x) => x,
        Err(f) => {
            return Err(f);
        },
    };
    assert(p_sum(t, i as int) == sum_rest(t, j as int, acc@));
    loop
        invariant
            i < j <= ts.len(),
            t == toks(ts@),
            p_sum(t, i as int) == sum_rest(t, j as int, acc@),
        decreases ts.len() - j,
    {
        match sum_op_exec(ts, j) {
            Some(op) => match parse_product(ts, j + 1) {
                Ok((r, k)) => {
                    acc = Expression::Binary { left: Box::new(acc), op, right: Box::new(r) };
                    j = k;
                },
                Err(_) => {
                    return Ok((acc, j));
                },
            },
            None => {
                return Ok((acc, j));
            },
        }
    }
}

fn parse_product(ts: &Vec<Token>, i: usize) -> (r: Result<(Expression, usize), usize>)
    requires
        i <= ts.len(),
    ensures
        expr_result(r) == p_product(toks(ts@), i as int),
        advances(r, i as int, ts.len() as int),
    decreases ts.len() - i, 5int,
{
    let ghost t = toks(ts@);
    let (mut acc, mut j) = match parse_unary(ts, i) {
        Ok(x) => x,
        Err(f) => {
            return Err(f);
        },
    };
    assert(p_product(t, i as int) == product_rest(t, j as int, acc@));
    loop
        invariant
            i < j <= ts.len(),
            t == toks(ts@),
            p_product(t, i as int) == product_rest(t, j as int, acc@),
        decreases ts.len() - j,
    {
        match product_op_exec(ts, j) {
            Some(op) => match parse_unary(ts, j + 1) {
                Ok((r, k)) => {
                    acc = Expression::Binary { left: Box::new(acc), op, right: Box::new(r) };
                    j = k;
                },
                Err(_) => {
                    return Ok((acc, j));
                },
            },
            None => {
                return Ok((acc, j));
            },
        }
    }
}

fn parse_unary(ts: &Vec<Token>, i: usize) -> (r: Result<(Expression, usize), usize>)
    requires
        i <= ts.len(),
    ensures
        expr_result(r) == p_unary(toks(ts@), i as int),
        advances(r, i as int, ts.len() as int),
    decreases ts.len() - i, 4int,
{
    let op = if i < ts.len() {
        match ts[i] {
            Token::Minus => Some(UnaryOp::Neg),
            Token::Not => Some(UnaryOp::Not),
            _ => None,
        }
    } else {
        None
    };
    match op {
        Some(op) => match parse_unary(ts, i + 1) {
            Ok((e, j)) => Ok((Expression::Unary { op, expr: Box::new(e) }, j)),
            Err(f) => Err(f),
        },
        None => parse_atom(ts, i),
    }
}

#[verifier::spinoff_prover]
fn parse_atom(ts: &Vec<Token>, i: usize) -> (r: Result<(Expression, usize), usize>)
    requires
        i <= ts.len(),
    ensures
        expr_result(r) == p_atom(toks(ts@), i as int),
        advances(r, i as int, ts.len() as int),
    decreases ts.len() - i, 3int,
{
    if i >= ts.len() {
        return Err(i);
    }
    match &ts[i] {
        Token::Int(n) => Ok((Expression::Literal(Literal::Integer(*n)), i + 1)),
        Token::Float(s) => Ok((Expression::Literal(Literal::Real(copy_string(s))), i + 1)),
        Token::String(s) => Ok((Expression::Literal(Literal::String(copy_string(s))), i + 1)),
        Token::Verdadero => Ok((Expression::Literal(Literal::Boolean(true)), i + 1)),
        Token::Falso => Ok((Expression::Literal(Literal::Boolean(false)), i + 1)),
        Token::Ident(name) => {
            if i + 1 < ts.len() && matches!(ts[i + 1], Token::LParen) {
                match parse_delim(ts, i + 1, true) {
                    Ok((args, k)) => {
                        return Ok((Expression::Call { function: copy_string(name), args }, k));
                    },
                    Err(_) => {},
                }
            }
            if i + 1 < ts.len() && matches!(ts[i + 1], Token::LBracket) {
                match parse_delim(ts, i + 1, false) {
                    Ok((indices, k)) => {
                        return Ok((Expression::Index { array: copy_string(name), indices }, k));
                    },
                    Err(_) => {},
                }
            }
            Ok((Expression::Variable(copy_string(name)), i + 1))
        },
        Token::LParen => match parse_expr(ts, i + 1) {
            Ok((e, j)) => {
                if j < ts.len() && matches!(ts[j], Token::RParen) {
                    Ok((e, j + 1))
                } else {
                    Err(j)
                }
            },
            Err(f) => Err(f),
        },
        _ => Err(i),
    }
}

/// An expression list between parentheses (`parens`) or brackets.
fn parse_delim(ts: &Vec<Token>, j: usize, parens: bool) -> (r: Result<(Vec<Expression>, usize), usize>)
    requires
        j <= ts.len(),
    ensures
        list_result(r) == (if parens {
            p_delim(toks(ts@), j as int, SpecToken::LParen, SpecToken::RParen)
        } else {
            p_delim(toks(ts@), j as int, SpecToken::LBracket, SpecToken::RBracket)
        }),
        advances(r, j as int, ts.len() as int),
    decreases ts.len() - j, 11int,
{
    let open_ok = j < ts.len() && (if parens {
        matches!(ts[j], Token::LParen)
    } else {
        matches!(ts[j], Token::LBracket)
    });
    if !open_ok {
        return Err(j);
    }
    match parse_list(ts, j + 1) {
        Ok((es, k)) => {
            let close_ok = k < ts.len() && (if parens {
                matches!(ts[k], Token::RParen)
            } else {
                matches!(ts[k], Token::RBracket)
            });
            if close_ok {
                Ok((es, k + 1))
            } else {
                Err(k)
            }
        },
        Err(f) => Err(f),
    }
}

/// Expressions separated by commas at `i`, possibly none.
#[verifier::spinoff_prover]
fn parse_list(ts: &Vec<Token>, i: usize) -> (r: Result<(Vec<Expression>, usize), usize>)
    requires
        i <= ts.len(),
    ensures
        list_result(r) == p_list(toks(ts@), i as int),
        r is Ok,
        match r {
            Ok((_, j)) => i <= j <= ts.len(),
            Err(_) => true,
        },
    decreases ts.len() - i, 10int,
{
    let ghost t = toks(ts@);
    let (first, mut j) = match parse_expr(ts, i) {
        Ok(x) => x,
        Err(_) => {
            return Ok((Vec::new(), i));
        },
    };
    let mut acc: Vec<Expression> = Vec::new();
    acc.push(first);
    proof {
        lemma_exprs_view(acc@);
        assert(exprs_view(acc@) =~= seq![first@]);
    }
    loop
        invariant
            i < j <= ts.len(),
            t == toks(ts@),
            p_list(t, i as int) == list_rest(t, j as int, exprs_view(acc@)),
        decreases ts.len() - j,
    {
        if j < ts.len() && matches!(ts[j], Token::Comma) {
            match parse_expr(ts, j + 1) {
                Ok((e, k)) => {
                    proof {
                        lemma_exprs_view_push(acc@, e);
                    }
                    acc.push(e);
                    j = k;
                },
                Err(_) => {
                    return Ok((acc, j));
                },
            }
        } else {
            return Ok((acc, j));
        }
    }
}

// ---------------------------------------------------------------------
// Executable statement parser
// ---------------------------------------------------------------------
pub open spec fn stmt_result(r: Result<(Statement, usize), usize>) -> Result<(SpecStmt, int), int> {
    match r {
        Ok((s, j)) => Ok((s@, j as int)),
        Err(f) => Err(f as int),
    }
}

fn ident_name(ts: &Vec<Token>, i: usize) -> (r: Option<String>)
    ensures
        match r {
            Some(n) => ident_at(toks(ts@), i as int) == Some(n@),
            None => ident_at(toks(ts@), i as int) is None,
        },
        r is Some ==> i < ts.len(),
{
    if i < ts.len() {
        match &ts[i] {
            Token::Ident(n) => Some(copy_string(n)),
            _ => None,
        }
    } else {
        None
    }
}

fn type_at_exec(ts: &Vec<Token>, i: usize) -> (r: Option<Type>)
    ensures
        match r {
            Some(ty) => type_at(toks(ts@), i as int) == Some(ty@),
            None => type_at(toks(ts@), i as int) is None,
        },
        r is Some ==> i < ts.len(),
{
    if i < ts.len() {
        match ts[i] {
            Token::Entero => Some(Type::Integer),
            Token::Real => Some(Type::Real),
            Token::Logico => Some(Type::Boolean),
            Token::Caracter => Some(Type::String),
            Token::Texto => Some(Type::String),
            _ => None,
        }
    } else {
        None
    }
}

fn assign_at_exec(ts: &Vec<Token>, j: usize) -> (r: bool)
    ensures
        r == assign_at(toks(ts@), j as int),
        r ==> j < ts.len(),
{
    j < ts.len() && (matches!(ts[j], Token::Assign) || matches!(ts[j], Token::Eq))
}

fn parse_ident_list(ts: &Vec<Token>, i: usize) -> (r: (Vec<String>, usize))
    requires
        i <= ts.len(),
    ensures
        (strings_view(r.0@), r.1 as int) == ident_list(toks(ts@), i as int),
        i <= r.1 <= ts.len(),
{
    let ghost t = toks(ts@);
    let mut names: Vec<String> = Vec::new();
    let first = match ident_name(ts, i) {
        Some(n) => n,
        None => {
            return (names, i);
        },
    };
    names.push(first);
    let mut j = i + 1;
    assert(strings_view(names@) =~= seq![first@]);
    loop
        invariant
            i < j <= ts.len(),
            t == toks(ts@),
            ident_list(t, i as int) == idents_rest(t, j as int, strings_view(names@)),
        decreases ts.len() - j,
    {
        if j < ts.len() && matches!(ts[j], Token::Comma) {
            match ident_name(ts, j + 1) {
                Some(n) => {
                    let ghost before = strings_view(names@);
                    names.push(n);
                    assert(strings_view(names@) =~= before.push(n@));
                    j = j + 2;
                },
                None => {
                    return (names, j);
                },
            }
        } else {
            return (names, j);
        }
    }
}

fn parse_dims(ts: &Vec<Token>, j: usize) -> (r: Result<(Vec<Expression>, usize), usize>)
    requires
        j <= ts.len(),
    ensures
        list_result(r) == p_dims(toks(ts@), j as int),
        advances(r, j as int, ts.len() as int),
{
    match parse_delim(ts, j, false) {
        Ok(x) => Ok(x),
        Err(f1) => match parse_delim(ts, j, true) {
            Ok(x) => Ok(x),
            Err(f2) => Err(if f1 >= f2 {
                f1
            } else {
                f2
            }),
        },
    }
}

fn parse_read_target(ts: &Vec<Token>, i: usize) -> (r: Result<(Expression, usize), usize>)
    requires
        i <= ts.len(),
    ensures
        expr_result(r) == read_target(toks(ts@), i as int),
        advances(r, i as int, ts.len() as int),
{
    match ident_name(ts, i) {
        Some(n) => match parse_delim(ts, i + 1, false) {
            Ok((idx, k)) => Ok((Expression::Index { array: n, indices: idx }, k)),
            Err(_) => Ok((Expression::Variable(n), i + 1)),
        },
        None => Err(i),
    }
}

#[verifier::spinoff_prover]
fn parse_targets(ts: &Vec<Token>, i: usize) -> (r: (Vec<Expression>, usize))
    requires
        i <= ts.len(),
    ensures
        (exprs_view(r.0@), r.1 as int) == p_targets(toks(ts@), i as int),
        i <= r.1 <= ts.len(),
{
    let ghost t = toks(ts@);
    let mut acc: Vec<Expression> = Vec::new();
    let (first, mut j) = match parse_read_target(ts, i) {
        Ok(x) => x,
        Err(_) => {
            return (acc, i);
        },
    };
    acc.push(first);
    proof {
        lemma_exprs_view(acc@);
        assert(exprs_view(acc@) =~= seq![first@]);
    }
    loop
        invariant
            i < j <= ts.len(),
            t == toks(ts@),
            p_targets(t, i as int) == targets_rest(t, j as int, exprs_view(acc@)),
        decreases ts.len() - j,
    {
        if j < ts.len() && matches!(ts[j], Token::Comma) {
            match parse_read_target(ts, j + 1) {
                Ok((e, k)) => {
                    proof {
                        lemma_exprs_view_push(acc@, e);
                    }
                    acc.push(e);
                    j = k;
                },
                Err(_) => {
                    return (acc, j);
                },
            }
        } else {
            return (acc, j);
        }
    }
}

#[verifier::spinoff_prover]
fn parse_define(ts: &Vec<Token>, i: usize) -> (r: Result<(Statement, usize), usize>)
    requires
        i <= ts.len(),
    ensures
        stmt_result(r) == s_define(toks(ts@), i as int),
        advances(r, i as int, ts.len() as int),
{
    if !(i < ts.len() && matches!(ts[i], Token::Definir)) {
        return Err(i);
    }
    let (vars, j) = parse_ident_list(ts, i + 1);
    if !(j < ts.len() && matches!(ts[j], Token::Como)) {
        return Err(j);
    }
    match type_at_exec(ts, j + 1) {
        Some(ty) => Ok((Statement::Define { vars, ty }, skip_semi_exec(ts, j + 2))),
        None => Err(j + 1),
    }
}

#[verifier::spinoff_prover]
fn parse_dimension(ts: &Vec<Token>, i: usize) -> (r: Result<(Statement, usize), usize>)
    requires
        i <= ts.len(),
    ensures
        stmt_result(r) == s_dimension(toks(ts@), i as int),
        advances(r, i as int, ts.len() as int),
{
    if !(i < ts.len() && matches!(ts[i], Token::Dimension)) {
        return Err(i);
    }
    match ident_name(ts, i + 1) {
        Some(name) => match parse_dims(ts, i + 2) {
            Ok((sizes, k)) => Ok((Statement::Dimension { name, sizes }, skip_semi_exec(ts, k))),
            Err(f) => Err(f),
        },
        None => Err(i + 1),
    }
}

fn parse_clear(ts: &Vec<Token>, i: usize) -> (r: Result<(Statement, usize), usize>)
    requires
        i <= ts.len(),
    ensures
        stmt_result(r) == s_clear(toks(ts@), i as int),
        advances(r, i as int, ts.len() as int),
{
    if i < ts.len() && matches!(ts[i], Token::BorrarPantalla) {
        Ok((Statement::ClearScreen, skip_semi_exec(ts, i + 1)))
    } else {
        Err(i)
    }
}

fn parse_wait_key(ts: &Vec<Token>, i: usize) -> (r: Result<(Statement, usize), usize>)
    requires
        i <= ts.len(),
    ensures
        stmt_result(r) == s_wait_key(toks(ts@), i as int),
        advances(r, i as int, ts.len() as int),
{
    if !(i < ts.len() && matches!(ts[i], Token::Esperar)) {
        Err(i)
    } else if i + 1 < ts.len() && matches!(ts[i + 1], Token::Tecla) {
        Ok((Statement::WaitKey, skip_semi_exec(ts, i + 2)))
    } else {
        Err(i + 1)
    }
}

#[verifier::spinoff_prover]
fn parse_wait(ts: &Vec<Token>, i: usize) -> (r: Result<(Statement, usize), usize>)
    requires
        i <= ts.len(),
    ensures
        stmt_result(r) == s_wait(toks(ts@), i as int),
        advances(r, i as int, ts.len() as int),
{
    if !(i < ts.len() && matches!(ts[i], Token::Esperar)) {
        return Err(i);
    }
    match parse_expr(ts, i + 1) {
        Ok((duration, j)) => {
            if j < ts.len() && matches!(ts[j], Token::Milisegundo) {
                Ok((Statement::Wait { duration, milliseconds: true }, skip_semi_exec(ts, j + 1)))
            } else if j < ts.len() && matches!(ts[j], Token::Segundo) {
                Ok((Statement::Wait { duration, milliseconds: false }, skip_semi_exec(ts, j + 1)))
            } else {
                Err(j)
            }
        },
        Err(f) => Err(f),
    }
}

#[verifier::spinoff_prover]
fn parse_index_assign(ts: &Vec<Token>, i: usize) -> (r: Result<(Statement, usize), usize>)
    requires
        i <= ts.len(),
    ensures
        stmt_result(r) == s_index_assign(toks(ts@), i as int),
        advances(r, i as int, ts.len() as int),
{
    match ident_name(ts, i) {
        Some(array) => match parse_dims(ts, i + 1) {
            Ok((indices, j)) => {
                if assign_at_exec(ts, j) {
                    match parse_expr(ts, j + 1) {
                        Ok((value, k)) => Ok(
                            (Statement::IndexAssign { array, indices, value }, skip_semi_exec(ts, k)),
                        ),
                        Err(f) => Err(f),
                    }
                } else {
                    Err(j)
                }
            },
            Err(f) => Err(f),
        },
        None => Err(i),
    }
}

#[verifier::spinoff_prover]
fn parse_assign(ts: &Vec<Token>, i: usize) -> (r: Result<(Statement, usize), usize>)
    requires
        i <= ts.len(),
    ensures
        stmt_result(r) == s_assign(toks(ts@), i as int),
        advances(r, i as int, ts.len() as int),
{
    match ident_name(ts, i) {
        Some(target) => {
            if assign_at_exec(ts, i + 1) {
                match parse_expr(ts, i + 2) {
                    Ok((value, k)) => Ok((Statement::Assign { target, value }, skip_semi_exec(ts, k))),
                    Err(f) => Err(f),
                }
            } else {
                Err(i + 1)
            }
        },
        None => Err(i),
    }
}

#[verifier::spinoff_prover]
fn parse_read(ts: &Vec<Token>, i: usize) -> (r: Result<(Statement, usize), usize>)
    requires
        i <= ts.len(),
    ensures
        stmt_result(r) == s_read(toks(ts@), i as int),
        advances(r, i as int, ts.len() as int),
{
    if !(i < ts.len() && matches!(ts[i], Token::Leer)) {
        return Err(i);
    }
    let (targets, k) = parse_targets(ts, i + 1);
    Ok((Statement::Read(targets), skip_semi_exec(ts, k)))
}

#[verifier::rlimit(60)]
#[verifier::spinoff_prover]
fn parse_write(ts: &Vec<Token>, i: usize) -> (r: Result<(Statement, usize), usize>)
    requires
        i <= ts.len(),
    ensures
        stmt_result(r) == s_write(toks(ts@), i as int),
        advances(r, i as int, ts.len() as int),
{
    if !(i < ts.len() && matches!(ts[i], Token::Escribir)) {
        return Err(i);
    }
    let before = i + 1 < ts.len() && matches!(ts[i + 1], Token::SinSaltar);
    let j = if before {
        i + 2
    } else {
        i + 1
    };
    match parse_list(ts, j) {
        Ok((exprs, k)) => {
            let after = k < ts.len() && matches!(ts[k], Token::SinSaltar);
            let k2 = if after {
                k + 1
            } else {
                k
            };
            Ok((Statement::Write(exprs, !before && !after), skip_semi_exec(ts, k2)))
        },
        Err(f) => Err(f),
    }
}

#[verifier::spinoff_prover]
fn parse_call(ts: &Vec<Token>, i: usize) -> (r: Result<(Statement, usize), usize>)
    requires
        i <= ts.len(),
    ensures
        stmt_result(r) == s_call(toks(ts@), i as int),
        advances(r, i as int, ts.len() as int),
{
    match ident_name(ts, i) {
        Some(function) => match parse_delim(ts, i + 1, true) {
            Ok((args, k)) => Ok((Statement::Call { function, args }, skip_semi_exec(ts, k))),
            Err(_) => {
                let args: Vec<Expression> = Vec::new();
                proof {
                    assert(exprs_view(args@) =~= Seq::<SpecExpr>::empty());
                }
                Ok((Statement::Call { function, args }, skip_semi_exec(ts, i + 1)))
            },
        },
        None => Err(i),
    }
}

#[verifier::rlimit(60)]
#[verifier::spinoff_prover]
fn parse_if(ts: &Vec<Token>, i: usize) -> (r: Result<(Statement, usize), usize>)
    requires
        i <= ts.len(),
    ensures
        stmt_result(r) == s_if(toks(ts@), i as int),
        advances(r, i as int, ts.len() as int),
    decreases ts.len() - i, 1int,
{
    if !(i < ts.len() && matches!(ts[i], Token::Si)) {
        return Err(i);
    }
    match parse_expr(ts, i + 1) {
        Ok((condition, j)) => {
            if !(j < ts.len() && matches!(ts[j], Token::Entonces)) {
                return Err(j);
            }
            let (then_branch, k) = parse_block(ts, j + 1);
            if k < ts.len() && matches!(ts[k], Token::Sino) {
                let (els, m) = parse_block(ts, k + 1);
                if m < ts.len() && matches!(ts[m], Token::FinSi) {
                    Ok((Statement::If { condition, then_branch, else_branch: Some(els) }, m + 1))
                } else {
                    Err(m)
                }
            } else if k < ts.len() && matches!(ts[k], Token::FinSi) {
                Ok((Statement::If { condition, then_branch, else_branch: None }, k + 1))
            } else {
                Err(k)
            }
        },
        Err(f) => Err(f),
    }
}

#[verifier::spinoff_prover]
fn parse_while(ts: &Vec<Token>, i: usize) -> (r: Result<(Statement, usize), usize>)
    requires
        i <= ts.len(),
    ensures
        stmt_result(r) == s_while(toks(ts@), i as int),
        advances(r, i as int, ts.len() as int),
    decreases ts.len() - i, 1int,
{
    if !(i < ts.len() && matches!(ts[i], Token::Mientras)) {
        return Err(i);
    }
    match parse_expr(ts, i + 1) {
        Ok((condition, j)) => {
            if !(j < ts.len() && matches!(ts[j], Token::Hacer)) {
                return Err(j);
            }
            let (body, k) = parse_block(ts, j + 1);
            if k < ts.len() && matches!(ts[k], Token::FinMientras) {
                Ok((Statement::While { condition, body }, k + 1))
            } else {
                Err(k)
            }
        },
        Err(f) => Err(f),
    }
}

#[verifier::spinoff_prover]
fn parse_repeat(ts: &Vec<Token>, i: usize) -> (r: Result<(Statement, usize), usize>)
    requires
        i <= ts.len(),
    ensures
        stmt_result(r) == s_repeat(toks(ts@), i as int),
        advances(r, i as int, ts.len() as int),
    decreases ts.len() - i, 1int,
{
    if !(i < ts.len() && matches!(ts[i], Token::Repetir)) {
        return Err(i);
    }
    let (body, k) = parse_block(ts, i + 1);
    if !(k < ts.len() && matches!(ts[k], Token::Hasta)) {
        return Err(k);
    }
    if !(k + 1 < ts.len() && matches!(ts[k + 1], Token::Que)) {
        return Err(k + 1);
    }
    match parse_expr(ts, k + 2) {
        Ok((until, m)) => Ok((Statement::Repeat { body, until }, skip_semi_exec(ts, m))),
        Err(f) => Err(f),
    }
}

fn parse_step(ts: &Vec<Token>, j: usize) -> (r: (Option<Expression>, usize))
    requires
        j <= ts.len(),
    ensures
        (opt_expr_view(r.0), r.1 as int) == p_step(toks(ts@), j as int),
        j <= r.1 <= ts.len(),
{
    if j < ts.len() && matches!(ts[j], Token::Paso) {
        match parse_expr(ts, j + 1) {
            Ok((e, k)) => (Some(e), k),
            Err(_) => (None, j),
        }
    } else {
        (None, j)
    }
}

#[verifier::spinoff_prover]
#[verifier::rlimit(30)]
fn parse_for(ts: &Vec<Token>, i: usize) -> (r: Result<(Statement, usize), usize>)
    requires
        i <= ts.len(),
    ensures
        stmt_result(r) == s_for(toks(ts@), i as int),
        advances(r, i as int, ts.len() as int),
    decreases ts.len() - i, 1int,
{
    if !(i < ts.len() && matches!(ts[i], Token::Para)) {
        return Err(i);
    }
    let var = match ident_name(ts, i + 1) {
        Some(v) => v,
        None => {
            return Err(i + 1);
        },
    };
    if !assign_at_exec(ts, i + 2) {
        return Err(i + 2);
    }
    let (start, j) = match parse_expr(ts, i + 3) {
        Ok(x) => x,
        Err(f) => {
            return Err(f);
        },
    };
    if !(j < ts.len() && matches!(ts[j], Token::Hasta)) {
        return Err(j);
    }
    let (end, k) = match parse_expr(ts, j + 1) {
        Ok(x) => x,
        Err(f) => {
            return Err(f);
        },
    };
    let (step, m) = parse_step(ts, k);
    if !(m < ts.len() && matches!(ts[m], Token::Hacer)) {
        return Err(m);
    }
    let (body, n) = parse_block(ts, m + 1);
    if n < ts.len() && matches!(ts[n], Token::FinPara) {
        Ok((Statement::For { var, start, end, step, body }, n + 1))
    } else {
        Err(n)
    }
}

#[verifier::spinoff_prover]
fn parse_cases(ts: &Vec<Token>, i: usize) -> (r: (Vec<(Expression, Vec<Statement>)>, usize))
    requires
        i <= ts.len(),
    ensures
        (cases_view(r.0@), r.1 as int) == p_cases(toks(ts@), i as int),
        i <= r.1 <= ts.len(),
    decreases ts.len() - i, 3int,
{
    let ghost t = toks(ts@);
    let mut acc: Vec<(Expression, Vec<Statement>)> = Vec::new();
    let mut j = i;
    proof {
        assert(cases_view(acc@) + p_cases(t, i as int).0 =~= p_cases(t, i as int).0);
    }
    loop
        invariant
            i <= j <= ts.len(),
            t == toks(ts@),
            cases_view(acc@) + p_cases(t, j as int).0 == p_cases(t, i as int).0,
            p_cases(t, j as int).1 == p_cases(t, i as int).1,
        decreases ts.len() - j,
    {
        let ghost before = cases_view(acc@);
        match parse_expr(ts, j) {
            Ok((e, k)) => {
                if k < ts.len() && matches!(ts[k], Token::Colon) {
                    let (b, m) = parse_block(ts, k + 1);
                    proof {
                        lemma_cases_view_push(acc@, (e, b));
                    }
                    acc.push((e, b));
                    proof {
                        assert(before.push((e@, stmts_view(b@))) + p_cases(t, m as int).0 =~= before
                            + (seq![(e@, stmts_view(b@))] + p_cases(t, m as int).0));
                    }
                    j = m;
                } else {
                    proof {
                        assert(cases_view(acc@) + p_cases(t, j as int).0 =~= cases_view(acc@));
                    }
                    return (acc, j);
                }
            },
            Err(_) => {
                proof {
                    assert(cases_view(acc@) + p_cases(t, j as int).0 =~= cases_view(acc@));
                }
                return (acc, j);
            },
        }
    }
}

#[verifier::rlimit(60)]
#[verifier::spinoff_prover]
fn parse_match(ts: &Vec<Token>, i: usize) -> (r: Result<(Statement, usize), usize>)
    requires
        i <= ts.len(),
    ensures
        stmt_result(r) == s_match(toks(ts@), i as int),
        advances(r, i as int, ts.len() as int),
    decreases ts.len() - i, 1int,
{
    if !(i < ts.len() && matches!(ts[i], Token::Segun)) {
        return Err(i);
    }
    let (expression, j) = match parse_expr(ts, i + 1) {
        Ok(x) => x,
        Err(f) => {
            return Err(f);
        },
    };
    if !(j < ts.len() && matches!(ts[j], Token::Hacer)) {
        return Err(j);
    }
    let (cases, k) = parse_cases(ts, j + 1);
    if k < ts.len() && matches!(ts[k], Token::Sino) {
        let d = if k + 1 < ts.len() && matches!(ts[k + 1], Token::Colon) {
            k + 2
        } else {
            k + 1
        };
        let (dflt, m) = parse_block(ts, d);
        if m < ts.len() && matches!(ts[m], Token::FinSegun) {
            Ok((Statement::Match { expression, cases, default: Some(dflt) }, m + 1))
        } else {
            Err(m)
        }
    } else if k < ts.len() && matches!(ts[k], Token::FinSegun) {
        Ok((Statement::Match { expression, cases, default: None }, k + 1))
    } else {
        Err(k)
    }
}

/// Parses one statement at `i`.
#[verifier::spinoff_prover]
fn parse_stmt(ts: &Vec<Token>, i: usize) -> (r: Result<(Statement, usize), usize>)
    requires
        i <= ts.len(),
    ensures
        stmt_result(r) == p_stmt(toks(ts@), i as int),
        advances(r, i as int, ts.len() as int),
    decreases ts.len() - i, 2int,
{
    let f1 = match parse_define(ts, i) {
        Ok(x) => {
            return Ok(x);
        },
        Err(f) => f,
    };
    let f2 = match parse_dimension(ts, i) {
        Ok(x) => {
            return Ok(x);
        },
        Err(f) => f,
    };
    let f3 = match parse_clear(ts, i) {
        Ok(x) => {
            return Ok(x);
        },
        Err(f) => f,
    };
    let f4 = match parse_wait_key(ts, i) {
        Ok(x) => {
            return Ok(x);
        },
        Err(f) => f,
    };
    let f5 = match parse_wait(ts, i) {
        Ok(x) => {
            return Ok(x);
        },
        Err(f) => f,
    };
    let f6 = match parse_index_assign(ts, i) {
        Ok(x) => {
            return Ok(x);
        },
        Err(f) => f,
    };
    let f7 = match parse_assign(ts, i) {
        Ok(x) => {
            return Ok(x);
        },
        Err(f) => f,
    };
    let f8 = match parse_read(ts, i) {
        Ok(x) => {
            return Ok(x);
        },
        Err(f) => f,
    };
    let f9 = match parse_write(ts, i) {
        Ok(x) => {
            return Ok(x);
        },
        Err(f) => f,
    };
    let f10 = match parse_if(ts, i) {
        Ok(x) => {
            return Ok(x);
        },
        Err(f) => f,
    };
    let f11 = match parse_while(ts, i) {
        Ok(x) => {
            return Ok(x);
        },
        Err(f) => f,
    };
    let f12 = match parse_repeat(ts, i) {
        Ok(x) => {
            return Ok(x);
        },
        Err(f) => f,
    };
    let f13 = match parse_for(ts, i) {
        Ok(x) => {
            return Ok(x);
        },
        Err(f) => f,
    };
    let f14 = match parse_match(ts, i) {
        Ok(x) => {
            return Ok(x);
        },
        Err(f) => f,
    };
    let f15 = match parse_call(ts, i) {
        Ok(x) => {
            return Ok(x);
        },
        Err(f) => f,
    };
    let mut f = f15;
    if f14 > f {
        f = f14;
    }
    if f13 > f {
        f = f13;
    }
    if f12 > f {
        f = f12;
    }
    if f11 > f {
        f = f11;
    }
    if f10 > f {
        f = f10;
    }
    if f9 > f {
        f = f9;
    }
    if f8 > f {
        f = f8;
    }
    if f7 > f {
        f = f7;
    }
    if f6 > f {
        f = f6;
    }
    if f5 > f {
        f = f5;
    }
    if f4 > f {
        f = f4;
    }
    if f3 > f {
        f = f3;
    }
    if f2 > f {
        f = f2;
    }
    if f1 > f {
        f = f1;
    }
    Err(f)
}

/// Parses as many statements as follow one another from `i`.
#[verifier::spinoff_prover]
fn parse_block(ts: &Vec<Token>, i: usize) -> (r: (Vec<Statement>, usize))
    requires
        i <= ts.len(),
    ensures
        (stmts_view(r.0@), r.1 as int) == p_block(toks(ts@), i as int),
        i <= r.1 <= ts.len(),
    decreases ts.len() - i, 3int,
{
    let ghost t = toks(ts@);
    let mut acc: Vec<Statement> = Vec::new();
    let mut j = i;
    proof {
        assert(stmts_view(acc@) + p_block(t, i as int).0 =~= p_block(t, i as int).0);
    }
    loop
        invariant
            i <= j <= ts.len(),
            t == toks(ts@),
            stmts_view(acc@) + p_block(t, j as int).0 == p_block(t, i as int).0,
            p_block(t, j as int).1 == p_block(t, i as int).1,
        decreases ts.len() - j,
    {
        let ghost before = stmts_view(acc@);
        match parse_stmt(ts, j) {
            Ok((s, k)) => {
                proof {
                    lemma_stmts_view_push(acc@, s);
                }
                acc.push(s);
                proof {
                    assert(before.push(s@) + p_block(t, k as int).0 =~= before + (seq![s@] + p_block(
                        t,
                        k as int,
                    ).0));
                }
                j = k;
            },
            Err(_) => {
                proof {
                    assert(stmts_view(acc@) + p_block(t, j as int).0 =~= stmts_view(acc@));
                }
                return (acc, j);
            },
        }
    }
}

// ---------------------------------------------------------------------
// Executable function and program parser
// ---------------------------------------------------------------------
pub open spec fn param_view(p: (String, Type, bool)) -> (Seq<char>, SpecType, bool) {
    (p.0@, p.1@, p.2)
}

#[verifier::spinoff_prover]
fn parse_param(ts: &Vec<Token>, i: usize) -> (r: Result<((String, Type, bool), usize), usize>)
    requires
        i <= ts.len(),
    ensures
        match r {
            Ok((p, k)) => p_param(toks(ts@), i as int) == Ok::<_, int>((param_view(p), k as int)),
            Err(f) => p_param(toks(ts@), i as int) == Err::<((Seq<char>, SpecType, bool), int), int>(f as int),
        },
        advances(r, i as int, ts.len() as int),
{
    let name = match ident_name(ts, i) {
        Some(n) => n,
        None => {
            return Err(i);
        },
    };
    let by_ref = i + 1 < ts.len() && matches!(ts[i + 1], Token::PorReferencia);
    let by_val = i + 1 < ts.len() && matches!(ts[i + 1], Token::PorValor);
    let j = if by_ref || by_val {
        i + 2
    } else {
        i + 1
    };
    if j < ts.len() && matches!(ts[j], Token::Como) {
        match type_at_exec(ts, j + 1) {
            Some(ty) => {
                return Ok(((name, ty, by_ref), j + 2));
            },
            None => {},
        }
    }
    Ok(((name, Type::Void, by_ref), j))
}

#[verifier::spinoff_prover]
fn parse_params(ts: &Vec<Token>, i: usize) -> (r: (Vec<(String, Type, bool)>, usize))
    requires
        i <= ts.len(),
    ensures
        (params_view(r.0@), r.1 as int) == p_params(toks(ts@), i as int),
        i <= r.1 <= ts.len(),
{
    let ghost t = toks(ts@);
    let mut acc: Vec<(String, Type, bool)> = Vec::new();
    let (first, mut j) = match parse_param(ts, i) {
        Ok(x) => x,
        Err(_) => {
            assert(params_view(acc@) =~= Seq::<(Seq<char>, SpecType, bool)>::empty());
            return (acc, i);
        },
    };
    acc.push(first);
    assert(params_view(acc@) =~= seq![param_view(first)]);
    loop
        invariant
            i < j <= ts.len(),
            t == toks(ts@),
            p_params(t, i as int) == params_rest(t, j as int, params_view(acc@)),
        decreases ts.len() - j,
    {
        if j < ts.len() && matches!(ts[j], Token::Comma) {
            match parse_param(ts, j + 1) {
                Ok((p, k)) => {
                    let ghost before = params_view(acc@);
                    acc.push(p);
                    assert(params_view(acc@) =~= before.push(param_view(p)));
                    j = k;
                },
                Err(_) => {
                    return (acc, j);
                },
            }
        } else {
            return (acc, j);
        }
    }
}

fn declares(vars: &Vec<String>, name: &String) -> (r: bool)
    ensures
        r == exists|k: int|
            0 <= k < strings_view(vars@).len() && #[trigger] eq_ignore_ascii_case(
                strings_view(vars@)[k],
                name@,
            ),
{
    let ghost sv = strings_view(vars@);
    let mut k: usize = 0;
    while k < vars.len()
        invariant
            k <= vars.len(),
            sv == strings_view(vars@),
            forall|m: int| 0 <= m < k ==> !#[trigger] eq_ignore_ascii_case(sv[m], name@),
        decreases vars.len() - k,
    {
        if string_eq_ignore_ascii_case(&vars[k], name) {
            assert(eq_ignore_ascii_case(sv[k as int], name@));
            return true;
        }
        k += 1;
    }
    false
}

fn declared_type_exec(body: &Vec<Statement>, name: &String) -> (r: Option<Type>)
    ensures
        opt_type_view(r) == declared_type(stmts_view(body@), name@),
{
    let ghost sv = stmts_view(body@);
    proof {
        lemma_stmts_view(body@);
        assert(sv.subrange(0, sv.len() as int) =~= sv);
    }
    let mut k: usize = 0;
    while k < body.len()
        invariant
            k <= body.len(),
            sv == stmts_view(body@),
            sv.len() == body.len(),
            forall|i: int| 0 <= i < body.len() ==> #[trigger] sv[i] == body@[i]@,
            declared_type(sv, name@) == declared_type(sv.subrange(k as int, sv.len() as int), name@),
        decreases body.len() - k,
    {
        let ghost rest = sv.subrange(k as int, sv.len() as int);
        assert(rest[0] == body@[k as int]@);
        assert(rest.drop_first() =~= sv.subrange(k + 1, sv.len() as int));
        match &body[k] {
            Statement::Define { vars, ty } => {
                if declares(vars, name) {
                    return Some(ty.copy());
                }
            },
            _ => {},
        }
        k += 1;
    }
    None
}

fn inferred_type_exec(body: &Vec<Statement>, name: &String) -> (r: Type)
    ensures
        r@ == inferred_type(stmts_view(body@), name@),
{
    match declared_type_exec(body, name) {
        Some(t) => t,
        None => Type::Integer,
    }
}

fn complete_params(params: Vec<(String, Type, bool)>, body: &Vec<Statement>) -> (r: Vec<
    (String, Type, bool),
>)
    ensures
        params_view(r@) == params_view(params@).map_values(
            |p: (Seq<char>, SpecType, bool)| complete_param(stmts_view(body@), p),
        ),
{
    let ghost bv = stmts_view(body@);
    let mut out: Vec<(String, Type, bool)> = Vec::new();
    let mut k: usize = 0;
    while k < params.len()
        invariant
            k <= params.len(),
            bv == stmts_view(body@),
            out@.len() == k,
            forall|m: int|
                0 <= m < k ==> #[trigger] params_view(out@)[m] == complete_param(
                    bv,
                    params_view(params@)[m],
                ),
        decreases params.len() - k,
    {
        let ghost old_out = out@;
        let (name, ty, by_ref) = (&params[k].0, &params[k].1, params[k].2);
        if ty.is_void() {
            let t = inferred_type_exec(body, name);
            out.push((copy_string(name), t, by_ref));
        } else {
            out.push((copy_string(name), ty.copy(), by_ref));
        }
        assert forall|m: int| 0 <= m < k + 1 implies #[trigger] params_view(out@)[m] == complete_param(
            bv,
            params_view(params@)[m],
        ) by {
            if m < k {
                assert(params_view(old_out)[m] == complete_param(bv, params_view(params@)[m]));
                assert(out@[m] == old_out[m]);
            }
        }
        k += 1;
    }
    assert(params_view(out@) =~= params_view(params@).map_values(
        |p: (Seq<char>, SpecType, bool)| complete_param(bv, p),
    ));
    out
}

pub open spec fn function_result(r: Result<(Function, usize), usize>) -> Result<(SpecFunction, int), int> {
    match r {
        Ok((f, j)) => Ok((f@, j as int)),
        Err(e) => Err(e as int),
    }
}

/// Parses a function or sub-process at `i`.
#[verifier::spinoff_prover]
fn parse_function(ts: &Vec<Token>, i: usize) -> (r: Result<(Function, usize), usize>)
    requires
        i <= ts.len(),
    ensures
        function_result(r) == p_function(toks(ts@), i as int),
        advances(r, i as int, ts.len() as int),
{
    let ghost t = toks(ts@);
    if !(i < ts.len() && matches!(ts[i], Token::Funcion)) {
        return Err(i);
    }
    let first = match ident_name(ts, i + 1) {
        Some(n) => n,
        None => {
            return Err(i + 1);
        },
    };
    let second = if i + 2 < ts.len() && matches!(ts[i + 2], Token::Assign) {
        ident_name(ts, i + 3)
    } else {
        None
    };
    let j = if second.is_some() {
        i + 4
    } else {
        i + 2
    };
    let mut params: Vec<(String, Type, bool)> = Vec::new();
    let mut k = j;
    if j < ts.len() && matches!(ts[j], Token::LParen) {
        let (ps, m) = parse_params(ts, j + 1);
        if m < ts.len() && matches!(ts[m], Token::RParen) {
            params = ps;
            k = m + 1;
        }
    }
    proof {
        if k == j {
            assert(params_view(params@) =~= Seq::<(Seq<char>, SpecType, bool)>::empty());
        }
    }
    let (body, b) = parse_block(ts, k);
    if !(b < ts.len() && matches!(ts[b], Token::FinFuncion)) {
        return Err(b);
    }
    let params = complete_params(params, &body);
    let (name, return_var) = match second {
        Some(f) => (f, Some(first)),
        None => (first, None),
    };
    let return_type = match &return_var {
        Some(rv) => Some(inferred_type_exec(&body, rv)),
        None => Some(Type::Void),
    };
    let f = Function { name, params, return_type, return_var, body };
    proof {
        let pf = p_function(t, i as int);
        assert(pf is Ok);
        let spec_fn = match pf {
            Ok((g, _)) => g,
            Err(_) => f@,
        };
        assert(f@.name == spec_fn.name);
        assert(f@.params =~= spec_fn.params);
        assert(f@ == spec_fn);
    }
    Ok((f, b + 1))
}

#[verifier::spinoff_prover]
fn parse_functions(ts: &Vec<Token>, i: usize) -> (r: (Vec<Function>, usize))
    requires
        i <= ts.len(),
    ensures
        (functions_view(r.0@), r.1 as int) == p_functions(toks(ts@), i as int),
        i <= r.1 <= ts.len(),
{
    let ghost t = toks(ts@);
    let mut acc: Vec<Function> = Vec::new();
    let mut j = i;
    proof {
        assert(functions_view(acc@) + p_functions(t, i as int).0 =~= p_functions(t, i as int).0);
    }
    loop
        invariant
            i <= j <= ts.len(),
            t == toks(ts@),
            functions_view(acc@) + p_functions(t, j as int).0 == p_functions(t, i as int).0,
            p_functions(t, j as int).1 == p_functions(t, i as int).1,
        decreases ts.len() - j,
    {
        let ghost before = functions_view(acc@);
        match parse_function(ts, j) {
            Ok((f, k)) => {
                acc.push(f);
                proof {
                    assert(functions_view(acc@) =~= before.push(f@));
                    assert(before.push(f@) + p_functions(t, k as int).0 =~= before + (seq![f@]
                        + p_functions(t, k as int).0));
                }
                j = k;
            },
            Err(_) => {
                proof {
                    assert(functions_view(acc@) + p_functions(t, j as int).0 =~= functions_view(acc@));
                }
                return (acc, j);
            },
        }
    }
}

/// Where parsing failed: a token position (the number of tokens when the
/// input ended too early).
pub struct ParseError {
    pub position: usize,
}

/// Parses a whole program from its tokens.
pub fn parser(ts: &Vec<Token>) -> (r: Result<Program, ParseError>)
    ensures
        match r {
            Ok(p) => parse_program(toks(ts@)) == Ok::<SpecProgram, int>(p@),
            Err(e) => parse_program(toks(ts@)) == Err::<SpecProgram, int>(e.position as int),
        },
        match r {
            Ok(_) => true,
            Err(e) => e.position <= ts.len(),
        },
{
    let ghost t = toks(ts@);
    let (mut functions, i) = parse_functions(ts, 0);
    if !(i < ts.len() && matches!(ts[i], Token::Proceso)) {
        return Err(ParseError { position: i });
    }
    let name = match ident_name(ts, i + 1) {
        Some(n) => n,
        None => {
            return Err(ParseError { position: i + 1 });
        },
    };
    let (main_body, j) = parse_block(ts, i + 2);
    if !(j < ts.len() && matches!(ts[j], Token::FinProceso)) {
        return Err(ParseError { position: j });
    }
    let (mut post, k) = parse_functions(ts, j + 1);
    if k != ts.len() {
        return Err(ParseError { position: k });
    }
    let ghost pre_v = functions_view(functions@);
    let ghost post_v = functions_view(post@);
    functions.append(&mut post);
    proof {
        assert(functions_view(functions@) =~= pre_v + post_v);
    }
    Ok(Program { name, functions, main_body })
}

// ---------------------------------------------------------------------
// Laws of the expression grammar.
// ---------------------------------------------------------------------
/// The tokens that compare two values.
pub open spec fn is_comparison_token(t: SpecToken) -> bool {
    ||| t == SpecToken::Eq
    ||| t == SpecToken::Ne
    ||| t == SpecToken::Lt
    ||| t == SpecToken::Le
    ||| t == SpecToken::Gt
    ||| t == SpecToken::Ge
}

/// Each operator token is read as the operator it spells: `=` as Eq,
/// `<>` as Ne, `<` as Lt, `<=` as Le, `>` as Gt, `>=` as Ge, `Y` as And,
/// `O` as Or, `+` as Add, `-` as Sub, `*` as Mul, `/` as Div, `MOD` as Mod
/// and `^` as Power; a token that compares nothing is no comparison.
pub proof fn law_operator_tokens(ts: Seq<SpecToken>, j: int)
    ensures
        is_tok(ts, j, SpecToken::Eq) ==> comparison_op(ts, j) == Some(BinaryOp::Eq),
        is_tok(ts, j, SpecToken::Ne) ==> comparison_op(ts, j) == Some(BinaryOp::Ne),
        is_tok(ts, j, SpecToken::Lt) ==> comparison_op(ts, j) == Some(BinaryOp::Lt),
        is_tok(ts, j, SpecToken::Le) ==> comparison_op(ts, j) == Some(BinaryOp::Le),
        is_tok(ts, j, SpecToken::Gt) ==> comparison_op(ts, j) == Some(BinaryOp::Gt),
        is_tok(ts, j, SpecToken::Ge) ==> comparison_op(ts, j) == Some(BinaryOp::Ge),
        !(0 <= j < ts.len() && is_comparison_token(ts[j])) ==> comparison_op(ts, j) is None,
        is_tok(ts, j, SpecToken::And) ==> logic_op(ts, j) == Some(BinaryOp::And),
        is_tok(ts, j, SpecToken::Or) ==> logic_op(ts, j) == Some(BinaryOp::Or),
        is_tok(ts, j, SpecToken::Plus) ==> sum_op(ts, j) == Some(BinaryOp::Add),
        is_tok(ts, j, SpecToken::Minus) ==> sum_op(ts, j) == Some(BinaryOp::Sub),
        is_tok(ts, j, SpecToken::Star) ==> product_op(ts, j) == Some(BinaryOp::Mul),
        is_tok(ts, j, SpecToken::Slash) ==> product_op(ts, j) == Some(BinaryOp::Div),
        is_tok(ts, j, SpecToken::Mod) ==> product_op(ts, j) == Some(BinaryOp::Mod),
        is_tok(ts, j, SpecToken::Caret) ==> product_op(ts, j) == Some(BinaryOp::Power),
{
}

/// Each type keyword names its own type: `Entero` the integers, `Real` the
/// reals, `Logico` the logical values, and `Caracter` and `Texto` text;
/// any other token names no type.
pub proof fn law_type_keywords(ts: Seq<SpecToken>, i: int)
    ensures
        is_tok(ts, i, SpecToken::Entero) ==> type_at(ts, i) == Some(SpecType::Integer),
        is_tok(ts, i, SpecToken::Real) ==> type_at(ts, i) == Some(SpecType::Real),
        is_tok(ts, i, SpecToken::Logico) ==> type_at(ts, i) == Some(SpecType::Boolean),
        is_tok(ts, i, SpecToken::Caracter) ==> type_at(ts, i) == Some(SpecType::Str),
        is_tok(ts, i, SpecToken::Texto) ==> type_at(ts, i) == Some(SpecType::Str),
        !(is_tok(ts, i, SpecToken::Entero) || is_tok(ts, i, SpecToken::Real) || is_tok(ts, i, SpecToken::Logico)
            || is_tok(ts, i, SpecToken::Caracter) || is_tok(ts, i, SpecToken::Texto)) ==> type_at(ts, i) is None,
{
}

/// A comparison of two sums is read as a binary expression whose operator
/// is the one its token spells: `a <= b` parses to `Binary(a, Le, b)`,
/// and likewise for `=`, `<>`, `<`, `>` and `>=`, when no further
/// comparison follows the right operand.
pub proof fn law_comparison_parses_to_its_operator(
    ts: Seq<SpecToken>,
    i: int,
    tok: SpecToken,
    op: BinaryOp,
)
    requires
        (tok == SpecToken::Eq && op == BinaryOp::Eq) || (tok == SpecToken::Ne && op == BinaryOp::Ne)
            || (tok == SpecToken::Lt && op == BinaryOp::Lt) || (tok == SpecToken::Le && op
            == BinaryOp::Le) || (tok == SpecToken::Gt && op == BinaryOp::Gt) || (tok
            == SpecToken::Ge && op == BinaryOp::Ge),
        p_sum(ts, i) is Ok,
        i < p_sum(ts, i)->Ok_0.1 < ts.len(),
        ts[p_sum(ts, i)->Ok_0.1] == tok,
        p_sum(ts, p_sum(ts, i)->Ok_0.1 + 1) is Ok,
        p_sum(ts, i)->Ok_0.1 + 1 < p_sum(ts, p_sum(ts, i)->Ok_0.1 + 1)->Ok_0.1 <= ts.len(),
        !is_comparison_token(ts[p_sum(ts, p_sum(ts, i)->Ok_0.1 + 1)->Ok_0.1])
            || p_sum(ts, p_sum(ts, i)->Ok_0.1 + 1)->Ok_0.1 == ts.len(),
    ensures
        p_comparison(ts, i) == Ok::<(SpecExpr, int), int>(
            (
                SpecExpr::Binary(
                    Box::new(p_sum(ts, i)->Ok_0.0),
                    op,
                    Box::new(p_sum(ts, p_sum(ts, i)->Ok_0.1 + 1)->Ok_0.0),
                ),
                p_sum(ts, p_sum(ts, i)->Ok_0.1 + 1)->Ok_0.1,
            ),
        ),
{
    let (l, j) = p_sum(ts, i)->Ok_0;
    let (r, k) = p_sum(ts, j + 1)->Ok_0;
    law_operator_tokens(ts, j);
    law_operator_tokens(ts, k);
    assert(comparison_op(ts, j) == Some(op));
    assert(comparison_op(ts, k) is None);
    assert(comparison_rest(ts, k, binop(l, op, r)) == Ok::<(SpecExpr, int), int>((binop(l, op, r), k)));
    assert(comparison_rest(ts, j, l) == comparison_rest(ts, k, binop(l, op, r)));
}

} // verus!

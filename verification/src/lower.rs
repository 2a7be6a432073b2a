//! Lowering of expressions to machine instructions.
//!
//! An expression becomes a list of instructions in static single
//! assignment form: the instruction at position `i` of the list defines
//! the value `i` (when it defines one), and its operands are the values of
//! earlier instructions. The JIT and AOT back ends turn each instruction
//! into one call of their IR builder. What an instruction computes on
//! integers is given by [`int_value`], and the row-major index of an array
//! element by [`flat_index`], whose result is proved to lie inside the
//! array ([`law_flat_index_in_range`]). Lowering only ever appends
//! instructions ([`law_lowering_expr_appends`],
//! [`law_lowering_stmts_appends`], [`law_lowering_function_appends`]), and
//! the value holding an expression's result has the machine kind of the
//! expression's type ([`law_lowered_result_kind`]). A lowered integer or
//! logical expression computes the value that [`crate::values::eval`]
//! gives it ([`law_lowered_value`]).
use vstd::prelude::*;
use vstd::string::StrSliceExecFns;
use crate::ast::{
    BinaryOp, Expression, Function, Literal, SpecExpr, SpecLit, SpecStmt, SpecType, Statement, Type,
    UnaryOp, SpecFunction, cases_view, exprs_view, lemma_cases_view, lemma_exprs_view, lemma_stmts_view, params_view, stmts_view,
    strings_view,
};
use crate::codegen::{builtin_table, find_last, lemma_entries_absent, lemma_entries_last, lookup_builtin, ValueKind};
use crate::symbols::entries_map;
use crate::text::{lowercase, to_lowercase};
use crate::values::{Value, apply, eval};
use crate::optimizer::compare_ints;

verus! {

broadcast use vstd::std_specs::vec::group_vec_axioms;

// ---------------------------------------------------------------------
// Instructions
// ---------------------------------------------------------------------
/// The machine type of a value: a 64-bit integer (also texts, booleans
/// and addresses), a 64-bit float, the flag that a comparison gives, or
/// the 32-bit status that the output routines return.
#[derive(Debug, Clone, Copy, PartialEq, Eq, Structural)]
pub enum MKind {
    Int,
    Float,
    Flag,
    Word,
}

/// The comparison of a compare instruction (signed for integers, ordered
/// for floats).
#[derive(Debug, Clone, Copy, PartialEq, Eq, Structural)]
pub enum Cond {
    Eq,
    Ne,
    Lt,
    Le,
    Gt,
    Ge,
}

/// One machine instruction. Operands are the positions of earlier
/// instructions.
#[derive(Debug)]
pub enum Instr {
    /// An integer constant.
    IConst(i64),
    /// A float constant, by the text of its decimal literal.
    FConst(String),
    /// The address of a text literal, by the literal as written (with its
    /// quotes).
    StrConst(String),
    /// The current value of a variable of the given kind.
    UseVar(usize, MKind),
    /// Gives a variable a new value.
    DefVar(usize, usize),
    IAdd(usize, usize),
    ISub(usize, usize),
    IMul(usize, usize),
    /// Signed division and remainder (the divisor is never 0 where the
    /// lowering emits them).
    SDiv(usize, usize),
    SRem(usize, usize),
    BAnd(usize, usize),
    BOr(usize, usize),
    FAdd(usize, usize),
    FSub(usize, usize),
    FMul(usize, usize),
    FDiv(usize, usize),
    FNeg(usize),
    ICmp(Cond, usize, usize),
    FCmp(Cond, usize, usize),
    /// The second operand when the first is not zero, else the third.
    Select(usize, usize, usize),
    /// Integer to float.
    FromInt(usize),
    /// Float to integer, saturating.
    ToIntSat(usize),
    /// The bits of a float as an integer, and back.
    IntBits(usize),
    FloatBits(usize),
    /// The 64-bit word at an address.
    Load(usize),
    /// Stores a value (first operand) at an address (second operand).
    Store(usize, usize),
    /// A call of a runtime function: its symbol, the kinds of its
    /// parameters and result, and the arguments. Defines the result.
    CallRuntime(String, Vec<MKind>, Option<MKind>, Vec<usize>),
    /// A call of a function of the program (by lower-case name), with the
    /// kinds of its results.
    CallUser(String, Vec<usize>, Vec<MKind>),
    /// The result of the given index of a `CallUser`.
    CallResult(usize, usize),
    /// Declares a variable of a kind.
    DeclareVar(usize, MKind),
    /// A new block (its position names it).
    NewBlock,
    /// Goes on emitting into a block.
    SwitchTo(usize),
    /// Declares that every jump into a block has been emitted.
    Seal(usize),
    Jump(usize),
    /// Jumps to the second block when the value is not zero, else to the
    /// third.
    Brif(usize, usize, usize),
    /// The entry block of the function, with the function's parameters;
    /// emission goes on there.
    EntryBlock,
    /// The parameter of the given index of the function.
    Param(usize),
    /// Returns the values.
    Return(Vec<usize>),
}

pub enum SpecInstr {
    IConst(i64),
    FConst(Seq<char>),
    StrConst(Seq<char>),
    UseVar(usize, MKind),
    DefVar(usize, usize),
    IAdd(usize, usize),
    ISub(usize, usize),
    IMul(usize, usize),
    SDiv(usize, usize),
    SRem(usize, usize),
    BAnd(usize, usize),
    BOr(usize, usize),
    FAdd(usize, usize),
    FSub(usize, usize),
    FMul(usize, usize),
    FDiv(usize, usize),
    FNeg(usize),
    ICmp(Cond, usize, usize),
    FCmp(Cond, usize, usize),
    Select(usize, usize, usize),
    FromInt(usize),
    ToIntSat(usize),
    IntBits(usize),
    FloatBits(usize),
    Load(usize),
    Store(usize, usize),
    CallRuntime(Seq<char>, Seq<MKind>, Option<MKind>, Seq<usize>),
    CallUser(Seq<char>, Seq<usize>, Seq<MKind>),
    CallResult(usize, usize),
    DeclareVar(usize, MKind),
    NewBlock,
    SwitchTo(usize),
    Seal(usize),
    Jump(usize),
    Brif(usize, usize, usize),
    EntryBlock,
    Param(usize),
    Return(Seq<usize>),
}

impl View for Instr {
    type V = SpecInstr;

    open spec fn view(&self) -> SpecInstr {
        match *self {
            Instr::IConst(n) => SpecInstr::IConst(n),
            Instr::FConst(t) => SpecInstr::FConst(t@),
            Instr::StrConst(t) => SpecInstr::StrConst(t@),
            Instr::UseVar(v, k) => SpecInstr::UseVar(v, k),
            Instr::DefVar(v, x) => SpecInstr::DefVar(v, x),
            Instr::IAdd(a, b) => SpecInstr::IAdd(a, b),
            Instr::ISub(a, b) => SpecInstr::ISub(a, b),
            Instr::IMul(a, b) => SpecInstr::IMul(a, b),
            Instr::SDiv(a, b) => SpecInstr::SDiv(a, b),
            Instr::SRem(a, b) => SpecInstr::SRem(a, b),
            Instr::BAnd(a, b) => SpecInstr::BAnd(a, b),
            Instr::BOr(a, b) => SpecInstr::BOr(a, b),
            Instr::FAdd(a, b) => SpecInstr::FAdd(a, b),
            Instr::FSub(a, b) => SpecInstr::FSub(a, b),
            Instr::FMul(a, b) => SpecInstr::FMul(a, b),
            Instr::FDiv(a, b) => SpecInstr::FDiv(a, b),
            Instr::FNeg(a) => SpecInstr::FNeg(a),
            Instr::ICmp(c, a, b) => SpecInstr::ICmp(c, a, b),
            Instr::FCmp(c, a, b) => SpecInstr::FCmp(c, a, b),
            Instr::Select(c, a, b) => SpecInstr::Select(c, a, b),
            Instr::FromInt(a) => SpecInstr::FromInt(a),
            Instr::ToIntSat(a) => SpecInstr::ToIntSat(a),
            Instr::IntBits(a) => SpecInstr::IntBits(a),
            Instr::FloatBits(a) => SpecInstr::FloatBits(a),
            Instr::Load(a) => SpecInstr::Load(a),
            Instr::Store(a, b) => SpecInstr::Store(a, b),
            Instr::CallRuntime(n, p, r, a) => SpecInstr::CallRuntime(n@, p@, r, a@),
            Instr::CallUser(n, a, r) => SpecInstr::CallUser(n@, a@, r@),
            Instr::CallResult(c, j) => SpecInstr::CallResult(c, j),
            Instr::DeclareVar(v, k) => SpecInstr::DeclareVar(v, k),
            Instr::NewBlock => SpecInstr::NewBlock,
            Instr::SwitchTo(b) => SpecInstr::SwitchTo(b),
            Instr::Seal(b) => SpecInstr::Seal(b),
            Instr::Jump(b) => SpecInstr::Jump(b),
            Instr::Brif(v, t, e) => SpecInstr::Brif(v, t, e),
            Instr::EntryBlock => SpecInstr::EntryBlock,
            Instr::Param(i) => SpecInstr::Param(i),
            Instr::Return(vs) => SpecInstr::Return(vs@),
        }
    }
}

pub open spec fn code_view(s: Seq<Instr>) -> Seq<SpecInstr> {
    s.map_values(|i: Instr| i@)
}

/// Appends an instruction; its position is the value it defines.
fn emit(code: &mut Vec<Instr>, i: Instr) -> (r: usize)
    ensures
        code_view(final(code)@) == code_view(old(code)@).push(i@),
        r == old(code)@.len(),
{
    let r = code.len();
    let ghost before = code@;
    code.push(i);
    proof {
        assert(code_view(code@) =~= code_view(before).push(i@));
    }
    r
}

// ---------------------------------------------------------------------
// What the lowering knows of the function being compiled
// ---------------------------------------------------------------------
/// The state of the lowering, as association lists in which a later entry
/// overrides an earlier one.
pub struct LowerEnv {
    /// Variables by name: their number and type.
    pub vars: Vec<(String, (usize, Type))>,
    /// Arrays by lower-case name: the values that hold their dimensions.
    pub array_dims: Vec<(String, Vec<usize>)>,
    /// Arrays by lower-case name: their constant sizes.
    pub const_dims: Vec<(String, Vec<i64>)>,
    /// Arrays by lower-case name: the type of their elements.
    pub elem_types: Vec<(String, Type)>,
    /// Functions by lower-case name: their array parameters (position,
    /// dimensions).
    pub array_params: Vec<(String, Vec<(usize, usize)>)>,
    /// Functions by lower-case name: parameters, return type, and whether
    /// they return a value.
    pub functions: Vec<(String, (Vec<(String, Type, bool)>, Option<Type>, bool))>,
}

pub struct SpecEnv {
    pub vars: Map<Seq<char>, (usize, SpecType)>,
    /// The number of variable entries, which numbers the next variable.
    pub nvars: nat,
    pub array_dims: Map<Seq<char>, Seq<usize>>,
    pub const_dims: Map<Seq<char>, Seq<i64>>,
    pub elem_types: Map<Seq<char>, SpecType>,
    pub array_params: Map<Seq<char>, Seq<(usize, usize)>>,
    pub functions: Map<Seq<char>, (Seq<(String, Type, bool)>, Option<Type>, bool)>,
}

impl View for LowerEnv {
    type V = SpecEnv;

    open spec fn view(&self) -> SpecEnv {
        SpecEnv {
            vars: entries_map(self.vars@),
            nvars: self.vars@.len(),
            array_dims: entries_map(self.array_dims@),
            const_dims: entries_map(self.const_dims@),
            elem_types: entries_map(self.elem_types@),
            array_params: entries_map(self.array_params@),
            functions: entries_map(self.functions@),
        }
    }
}

pub open spec fn lookup<V>(m: Map<Seq<char>, V>, k: Seq<char>) -> Option<V> {
    if m.contains_key(k) {
        Some(m[k])
    } else {
        None
    }
}

/// The entry of `key` in an association list, the last one winning.
fn find<'a, T: View>(entries: &'a Vec<(String, T)>, key: &String) -> (r: Option<&'a T>)
    ensures
        match r {
            Some(v) => lookup(entries_map(entries@), key@) == Some(v@),
            None => lookup(entries_map(entries@), key@) is None,
        },
{
    match find_last(entries, key) {
        Some(i) => {
            proof {
                lemma_entries_last(entries@, i as int);
            }
            Some(&entries[i].1)
        },
        None => {
            proof {
                lemma_entries_absent(entries@, key@);
            }
            None
        },
    }
}

/// The machine kind that holds a value of a type.
pub open spec fn kind_of(t: SpecType) -> MKind {
    if t == SpecType::Real {
        MKind::Float
    } else {
        MKind::Int
    }
}

fn kind_of_type(t: &Type) -> (r: MKind)
    ensures
        r == kind_of(t@),
{
    match t {
        Type::Real => MKind::Float,
        _ => MKind::Int,
    }
}

// ---------------------------------------------------------------------
// What instructions compute on integers
// ---------------------------------------------------------------------
pub open spec fn holds(c: Cond, x: int, y: int) -> bool {
    match c {
        Cond::Eq => x == y,
        Cond::Ne => x != y,
        Cond::Lt => x < y,
        Cond::Le => x <= y,
        Cond::Gt => x > y,
        Cond::Ge => x >= y,
    }
}

/// The value of `v` when the code runs, for the integer instructions:
/// wrapping 64-bit arithmetic, bitwise and and or, the remainder where it
/// has a value, 1 or 0 for a comparison. The value of any other
/// instruction (a load, a call, a variable) is taken from `ext`.
pub open spec fn int_value(c: Seq<SpecInstr>, v: int, ext: spec_fn(int) -> i64) -> i64
    decreases v,
{
    if v < 0 || v >= c.len() {
        ext(v)
    } else {
        match c[v] {
            SpecInstr::IConst(n) => n,
            SpecInstr::IAdd(a, b) => if a < v && b < v {
                (int_value(c, a as int, ext) + int_value(c, b as int, ext)) as i64
            } else {
                ext(v)
            },
            SpecInstr::ISub(a, b) => if a < v && b < v {
                (int_value(c, a as int, ext) - int_value(c, b as int, ext)) as i64
            } else {
                ext(v)
            },
            SpecInstr::IMul(a, b) => if a < v && b < v {
                (int_value(c, a as int, ext) * int_value(c, b as int, ext)) as i64
            } else {
                ext(v)
            },
            SpecInstr::BAnd(a, b) => if a < v && b < v {
                int_value(c, a as int, ext) & int_value(c, b as int, ext)
            } else {
                ext(v)
            },
            SpecInstr::BOr(a, b) => if a < v && b < v {
                int_value(c, a as int, ext) | int_value(c, b as int, ext)
            } else {
                ext(v)
            },
            SpecInstr::SRem(a, b) => if a < v && b < v {
                match int_value(c, a as int, ext).checked_rem(int_value(c, b as int, ext)) {
                    Some(r) => r,
                    None => ext(v),
                }
            } else {
                ext(v)
            },
            SpecInstr::ICmp(k, a, b) => if a < v && b < v {
                if holds(k, int_value(c, a as int, ext) as int, int_value(c, b as int, ext) as int) {
                    1
                } else {
                    0
                }
            } else {
                ext(v)
            },
            SpecInstr::Select(k, a, b) => if k < v && a < v && b < v {
                if int_value(c, k as int, ext) != 0 {
                    int_value(c, a as int, ext)
                } else {
                    int_value(c, b as int, ext)
                }
            } else {
                ext(v)
            },
            _ => ext(v),
        }
    }
}

// ---------------------------------------------------------------------
// Row-major index of an array element
// ---------------------------------------------------------------------
/// Clamps the value `x` to `0 ..= d - 1`.
pub open spec fn clamp_code(c: Seq<SpecInstr>, x: usize, d: usize) -> (Seq<SpecInstr>, usize) {
    let one = c.len() as usize;
    let c1 = c.push(SpecInstr::IConst(1));
    let max = c1.len() as usize;
    let c2 = c1.push(SpecInstr::ISub(d, one));
    let z = c2.len() as usize;
    let c3 = c2.push(SpecInstr::IConst(0));
    let neg = c3.len() as usize;
    let c4 = c3.push(SpecInstr::ICmp(Cond::Lt, x, z));
    let lo = c4.len() as usize;
    let c5 = c4.push(SpecInstr::Select(neg, z, x));
    let over = c5.len() as usize;
    let c6 = c5.push(SpecInstr::ICmp(Cond::Gt, lo, max));
    (c6.push(SpecInstr::Select(over, max, lo)), c6.len() as usize)
}

/// Multiplies the value `s` by the dimensions from `j` on.
pub open spec fn stride_code(c: Seq<SpecInstr>, s: usize, dims: Seq<usize>, j: int) -> (Seq<SpecInstr>, usize)
    decreases dims.len() - j,
{
    if j < 0 || j >= dims.len() {
        (c, s)
    } else {
        stride_code(c.push(SpecInstr::IMul(s, dims[j])), c.len() as usize, dims, j + 1)
    }
}

/// The contribution of index `k`: the index made 0-based and clamped to
/// its dimension (or only made non-negative when the dimension is
/// unknown), times the product of the later dimensions.
pub open spec fn term_code(c: Seq<SpecInstr>, dims: Seq<usize>, idx: Seq<usize>, k: int, one: usize, zero: usize) -> (Seq<SpecInstr>, usize) {
    let iz = c.len() as usize;
    let c1 = c.push(SpecInstr::ISub(idx[k], one));
    let (c2, safe) = if k < dims.len() {
        clamp_code(c1, iz, dims[k])
    } else {
        let neg = c1.len() as usize;
        let c1a = c1.push(SpecInstr::ICmp(Cond::Lt, iz, zero));
        (c1a.push(SpecInstr::Select(neg, zero, iz)), c1a.len() as usize)
    };
    let s0 = c2.len() as usize;
    let (c4, stride) = stride_code(c2.push(SpecInstr::IConst(1)), s0, dims, k + 1);
    (c4.push(SpecInstr::IMul(safe, stride)), c4.len() as usize)
}

pub open spec fn sum_code(
    c: Seq<SpecInstr>,
    dims: Seq<usize>,
    idx: Seq<usize>,
    k: int,
    one: usize,
    zero: usize,
    flat: usize,
) -> (Seq<SpecInstr>, usize)
    decreases idx.len() - k,
{
    if k < 0 || k >= idx.len() {
        (c, flat)
    } else {
        let (c1, t) = term_code(c, dims, idx, k, one, zero);
        sum_code(c1.push(SpecInstr::IAdd(flat, t)), dims, idx, k + 1, one, zero, c1.len() as usize)
    }
}

/// The code of the row-major position of the element at the indices `idx`
/// (counted from 1) of an array of dimensions `dims`.
pub open spec fn flat_code(c: Seq<SpecInstr>, dims: Seq<usize>, idx: Seq<usize>) -> (Seq<SpecInstr>, usize) {
    let one = c.len() as usize;
    let c1 = c.push(SpecInstr::IConst(1));
    let zero = c1.len() as usize;
    let c2 = c1.push(SpecInstr::IConst(0));
    let flat = c2.len() as usize;
    sum_code(c2.push(SpecInstr::IConst(0)), dims, idx, 0, one, zero, flat)
}

fn clamp_exec(code: &mut Vec<Instr>, x: usize, d: usize) -> (r: usize)
    ensures
        (code_view(final(code)@), r) == clamp_code(code_view(old(code)@), x, d),
{
    proof {
        assert(code_view(code@).len() == code@.len());
    }
    let one = emit(code, Instr::IConst(1));
    let max = emit(code, Instr::ISub(d, one));
    let z = emit(code, Instr::IConst(0));
    let neg = emit(code, Instr::ICmp(Cond::Lt, x, z));
    let lo = emit(code, Instr::Select(neg, z, x));
    let over = emit(code, Instr::ICmp(Cond::Gt, lo, max));
    emit(code, Instr::Select(over, max, lo))
}

/// Emits the row-major position of the element at the indices `idx`
/// (values counted from 1) of an array whose dimensions are the values
/// `dims`: each index made 0-based and clamped to its dimension (or only
/// made non-negative past the known dimensions), times the product of the
/// later dimensions, summed.
pub fn flat_index(dims: &Vec<usize>, idx: &Vec<usize>, code: &mut Vec<Instr>) -> (r: usize)
    ensures
        (code_view(final(code)@), r) == flat_code(code_view(old(code)@), dims@, idx@),
{
    let ghost c0 = code_view(code@);
    let one = emit(code, Instr::IConst(1));
    let zero = emit(code, Instr::IConst(0));
    let mut flat = emit(code, Instr::IConst(0));
    let mut k: usize = 0;
    while k < idx.len()
        invariant
            k <= idx@.len(),
            flat_code(c0, dims@, idx@) == sum_code(code_view(code@), dims@, idx@, k as int, one, zero, flat),
        decreases idx@.len() - k,
    {
        let ghost ck = code_view(code@);
        let iz = emit(code, Instr::ISub(idx[k], one));
        let ghost c1 = code_view(code@);
        let safe = if k < dims.len() {
            clamp_exec(code, iz, dims[k])
        } else {
            let neg = emit(code, Instr::ICmp(Cond::Lt, iz, zero));
            emit(code, Instr::Select(neg, zero, iz))
        };
        let ghost c2 = code_view(code@);
        assert((c2, safe) == (if k < dims@.len() {
            clamp_code(c1, iz, dims@[k as int])
        } else {
            let neg = c1.len() as usize;
            let c1a = c1.push(SpecInstr::ICmp(Cond::Lt, iz, zero));
            (c1a.push(SpecInstr::Select(neg, zero, iz)), c1a.len() as usize)
        }));
        let mut stride = emit(code, Instr::IConst(1));
        let ghost c3 = code_view(code@);
        let ghost s0 = stride;
        let mut j: usize = k + 1;
        while j < dims.len()
            invariant
                j >= k + 1,
                stride_code(code_view(code@), stride, dims@, j as int) == stride_code(c3, s0, dims@, k + 1),
            decreases dims@.len() - j,
        {
            stride = emit(code, Instr::IMul(stride, dims[j]));
            j += 1;
        }
        let t = emit(code, Instr::IMul(safe, stride));
        flat = emit(code, Instr::IAdd(flat, t));
        k += 1;
    }
    flat
}

// ---------------------------------------------------------------------
// The row-major index is inside the array
// ---------------------------------------------------------------------
/// `c2` starts with `c`.
pub open spec fn extends(c2: Seq<SpecInstr>, c: Seq<SpecInstr>) -> bool {
    c.len() <= c2.len() && c2.subrange(0, c.len() as int) == c
}

/// The product of the dimensions from `i` on.
pub open spec fn prod_from(dv: Seq<int>, i: int) -> int
    decreases dv.len() - i,
{
    if i < 0 || i >= dv.len() {
        1
    } else {
        dv[i] * prod_from(dv, i + 1)
    }
}

/// An index counted from 1 (with 64-bit wrapping), made 0-based and
/// clamped to `0 ..= d - 1`.
pub open spec fn zero_based(x: int, d: int) -> int {
    let z = (x - 1) as i64 as int;
    let lo = if z < 0 {
        0
    } else {
        z
    };
    if lo > d - 1 {
        d - 1
    } else {
        lo
    }
}

/// The row-major position given by the first `k` indices.
pub open spec fn row_major(dv: Seq<int>, iv: Seq<int>, k: int) -> int
    decreases k,
{
    if k <= 0 {
        0
    } else {
        row_major(dv, iv, k - 1) + zero_based(iv[k - 1], dv[k - 1]) * prod_from(dv, k)
    }
}

pub open spec fn values_of(c: Seq<SpecInstr>, ids: Seq<usize>, ext: spec_fn(int) -> i64) -> Seq<int> {
    ids.map_values(|v: usize| int_value(c, v as int, ext) as int)
}

proof fn lemma_value_stable(c: Seq<SpecInstr>, c2: Seq<SpecInstr>, v: int, ext: spec_fn(int) -> i64)
    requires
        extends(c2, c),
        0 <= v < c.len(),
    ensures
        int_value(c2, v, ext) == int_value(c, v, ext),
    decreases v,
{
    assert(c2[v] == c2.subrange(0, c.len() as int)[v]);
    match c[v] {
        SpecInstr::IAdd(a, b) | SpecInstr::ISub(a, b) | SpecInstr::IMul(a, b) | SpecInstr::ICmp(_, a, b)
        | SpecInstr::BAnd(a, b) | SpecInstr::BOr(a, b) | SpecInstr::SRem(a, b) => {
            if a < v && b < v {
                lemma_value_stable(c, c2, a as int, ext);
                lemma_value_stable(c, c2, b as int, ext);
            }
        },
        SpecInstr::Select(k, a, b) => {
            if k < v && a < v && b < v {
                lemma_value_stable(c, c2, k as int, ext);
                lemma_value_stable(c, c2, a as int, ext);
                lemma_value_stable(c, c2, b as int, ext);
            }
        },
        _ => {},
    }
}

proof fn lemma_push_stable(c: Seq<SpecInstr>, i: SpecInstr, v: int, ext: spec_fn(int) -> i64)
    requires
        0 <= v < c.len(),
    ensures
        int_value(c.push(i), v, ext) == int_value(c, v, ext),
{
    assert(c.push(i).subrange(0, c.len() as int) =~= c);
    lemma_value_stable(c, c.push(i), v, ext);
}

proof fn lemma_extends_trans(a: Seq<SpecInstr>, b: Seq<SpecInstr>, c: Seq<SpecInstr>)
    requires
        extends(b, a),
        extends(c, b),
    ensures
        extends(c, a),
{
    assert(c.subrange(0, a.len() as int) =~= b.subrange(0, a.len() as int));
}

proof fn lemma_extends_push(c: Seq<SpecInstr>, i: SpecInstr)
    ensures
        extends(c.push(i), c),
{
    assert(c.push(i).subrange(0, c.len() as int) =~= c);
}

proof fn lemma_clamp(c: Seq<SpecInstr>, x: usize, d: usize, ext: spec_fn(int) -> i64)
    requires
        x < c.len(),
        d < c.len(),
        c.len() + 7 <= usize::MAX,
        int_value(c, d as int, ext) >= 1,
    ensures
        extends(clamp_code(c, x, d).0, c),
        clamp_code(c, x, d).1 < clamp_code(c, x, d).0.len(),
        ({
            let z = int_value(c, x as int, ext) as int;
            let lo = if z < 0 { 0 } else { z };
            let dd = int_value(c, d as int, ext) as int;
            int_value(clamp_code(c, x, d).0, clamp_code(c, x, d).1 as int, ext) == if lo > dd - 1 {
                dd - 1
            } else {
                lo
            }
        }),
{
    let c1 = c.push(SpecInstr::IConst(1));
    let c2 = c1.push(SpecInstr::ISub(d, c.len() as usize));
    let c3 = c2.push(SpecInstr::IConst(0));
    let c4 = c3.push(SpecInstr::ICmp(Cond::Lt, x, c2.len() as usize));
    let c5 = c4.push(SpecInstr::Select(c3.len() as usize, c2.len() as usize, x));
    let c6 = c5.push(SpecInstr::ICmp(Cond::Gt, c4.len() as usize, c1.len() as usize));
    let c7 = c6.push(SpecInstr::Select(c5.len() as usize, c1.len() as usize, c4.len() as usize));
    lemma_extends_push(c, SpecInstr::IConst(1));
    lemma_extends_push(c1, SpecInstr::ISub(d, c.len() as usize));
    lemma_extends_push(c2, SpecInstr::IConst(0));
    lemma_extends_push(c3, SpecInstr::ICmp(Cond::Lt, x, c2.len() as usize));
    lemma_extends_push(c4, SpecInstr::Select(c3.len() as usize, c2.len() as usize, x));
    lemma_extends_push(c5, SpecInstr::ICmp(Cond::Gt, c4.len() as usize, c1.len() as usize));
    lemma_extends_push(c6, SpecInstr::Select(c5.len() as usize, c1.len() as usize, c4.len() as usize));
    lemma_extends_trans(c, c1, c2);
    lemma_extends_trans(c, c2, c3);
    lemma_extends_trans(c, c3, c4);
    lemma_extends_trans(c, c4, c5);
    lemma_extends_trans(c, c5, c6);
    lemma_extends_trans(c, c6, c7);
    lemma_extends_trans(c1, c2, c3);
    lemma_extends_trans(c1, c3, c4);
    lemma_extends_trans(c1, c4, c5);
    lemma_extends_trans(c1, c5, c6);
    lemma_extends_trans(c1, c6, c7);
    lemma_extends_trans(c2, c3, c4);
    lemma_extends_trans(c2, c4, c5);
    lemma_extends_trans(c2, c5, c6);
    lemma_extends_trans(c2, c6, c7);
    lemma_extends_trans(c3, c4, c5);
    lemma_extends_trans(c3, c5, c6);
    lemma_extends_trans(c3, c6, c7);
    lemma_extends_trans(c4, c5, c6);
    lemma_extends_trans(c4, c6, c7);
    lemma_extends_trans(c5, c6, c7);
    let xv = int_value(c, x as int, ext);
    let dv = int_value(c, d as int, ext);
    lemma_value_stable(c, c7, x as int, ext);
    lemma_value_stable(c, c7, d as int, ext);
    lemma_value_stable(c1, c7, c.len() as int, ext);
    lemma_value_stable(c2, c7, c1.len() as int, ext);
    lemma_value_stable(c3, c7, c2.len() as int, ext);
    lemma_value_stable(c4, c7, c3.len() as int, ext);
    lemma_value_stable(c5, c7, c4.len() as int, ext);
    lemma_value_stable(c6, c7, c5.len() as int, ext);
    assert(int_value(c7, c.len() as int, ext) == 1);
    assert(int_value(c7, c1.len() as int, ext) == dv - 1);
    assert(int_value(c7, c2.len() as int, ext) == 0);
}

proof fn lemma_prod_pos(dv: Seq<int>, i: int)
    requires
        forall|m: int| 0 <= m < dv.len() ==> dv[m] >= 1,
    ensures
        prod_from(dv, i) >= 1,
        0 <= i < dv.len() ==> prod_from(dv, i + 1) <= prod_from(dv, i),
    decreases dv.len() - i,
{
    if 0 <= i < dv.len() {
        lemma_prod_pos(dv, i + 1);
        let p = prod_from(dv, i + 1);
        let d = dv[i];
        assert(d * p >= p) by (nonlinear_arith)
            requires
                d >= 1,
                p >= 1,
        ;
    }
}

proof fn lemma_prod_le(dv: Seq<int>, i: int, j: int)
    requires
        forall|m: int| 0 <= m < dv.len() ==> dv[m] >= 1,
        0 <= i <= j,
    ensures
        prod_from(dv, j) <= prod_from(dv, i),
    decreases j - i,
{
    if i < j {
        lemma_prod_le(dv, i + 1, j);
        lemma_prod_pos(dv, i);
    }
}

proof fn lemma_stride(
    c: Seq<SpecInstr>,
    s: usize,
    dims: Seq<usize>,
    j: int,
    ext: spec_fn(int) -> i64,
    dv: Seq<int>,
)
    requires
        0 <= j <= dims.len(),
        s < c.len(),
        dv.len() == dims.len(),
        forall|m: int| 0 <= m < dv.len() ==> dv[m] >= 1,
        forall|m: int| j <= m < dims.len() ==> (#[trigger] dims[m]) < c.len() && int_value(c, dims[m] as int, ext) == dv[m],
        int_value(c, s as int, ext) >= 1,
        int_value(c, s as int, ext) * prod_from(dv, j) <= i64::MAX,
        c.len() + (dims.len() - j) <= usize::MAX,
    ensures
        extends(stride_code(c, s, dims, j).0, c),
        stride_code(c, s, dims, j).1 < stride_code(c, s, dims, j).0.len(),
        stride_code(c, s, dims, j).0.len() == c.len() + (dims.len() - j),
        int_value(stride_code(c, s, dims, j).0, stride_code(c, s, dims, j).1 as int, ext)
            == int_value(c, s as int, ext) * prod_from(dv, j),
    decreases dims.len() - j,
{
    if j >= dims.len() {
        assert(c.subrange(0, c.len() as int) =~= c);
    } else {
        let i = SpecInstr::IMul(s, dims[j]);
        let c1 = c.push(i);
        let sv = int_value(c, s as int, ext) as int;
        let d = dv[j];
        lemma_prod_pos(dv, j + 1);
        let p = prod_from(dv, j + 1);
        assert(sv * d * p == sv * (d * p)) by (nonlinear_arith);
        assert(sv * d <= sv * d * p && sv * d >= 1) by (nonlinear_arith)
            requires
                sv >= 1,
                d >= 1,
                p >= 1,
        ;
        lemma_push_stable(c, i, s as int, ext);
        lemma_push_stable(c, i, dims[j] as int, ext);
        assert(int_value(c1, c.len() as int, ext) == sv * d);
        assert forall|m: int| j + 1 <= m < dims.len() implies dims[m] < c1.len() && int_value(c1, dims[m] as int, ext) == dv[m] by {
            lemma_push_stable(c, i, dims[m] as int, ext);
        }
        lemma_stride(c1, c.len() as usize, dims, j + 1, ext, dv);
        lemma_extends_push(c, i);
        lemma_extends_trans(c, c1, stride_code(c1, c.len() as usize, dims, j + 1).0);
    }
}

#[verifier::rlimit(60)]
#[verifier::spinoff_prover]
proof fn lemma_term(
    c: Seq<SpecInstr>,
    dims: Seq<usize>,
    idx: Seq<usize>,
    k: int,
    one: usize,
    zero: usize,
    ext: spec_fn(int) -> i64,
    dv: Seq<int>,
    iv: Seq<int>,
)
    requires
        0 <= k < idx.len(),
        idx.len() == dims.len(),
        dv.len() == dims.len(),
        iv.len() == idx.len(),
        forall|m: int| 0 <= m < dv.len() ==> dv[m] >= 1,
        forall|m: int| 0 <= m < dims.len() ==> (#[trigger] dims[m]) < c.len() && int_value(c, dims[m] as int, ext) == dv[m],
        forall|m: int| 0 <= m < idx.len() ==> (#[trigger] idx[m]) < c.len() && int_value(c, idx[m] as int, ext) == iv[m],
        one < c.len(),
        zero < c.len(),
        int_value(c, one as int, ext) == 1,
        int_value(c, zero as int, ext) == 0,
        prod_from(dv, 0) <= i64::MAX,
        c.len() + dims.len() + 11 <= usize::MAX,
    ensures
        extends(term_code(c, dims, idx, k, one, zero).0, c),
        term_code(c, dims, idx, k, one, zero).1 < term_code(c, dims, idx, k, one, zero).0.len(),
        term_code(c, dims, idx, k, one, zero).0.len() <= c.len() + dims.len() + 10,
        int_value(term_code(c, dims, idx, k, one, zero).0, term_code(c, dims, idx, k, one, zero).1 as int, ext)
            == zero_based(iv[k], dv[k]) * prod_from(dv, k + 1),
{
    let iz = c.len() as usize;
    let i1 = SpecInstr::ISub(idx[k], one);
    let c1 = c.push(i1);
    lemma_push_stable(c, i1, idx[k] as int, ext);
    lemma_push_stable(c, i1, one as int, ext);
    lemma_extends_push(c, i1);
    assert(int_value(c1, iz as int, ext) == (iv[k] - 1) as i64);
    assert forall|m: int| 0 <= m < dims.len() implies dims[m] < c1.len() && int_value(c1, dims[m] as int, ext) == dv[m] by {
        lemma_push_stable(c, i1, dims[m] as int, ext);
    }
    lemma_clamp(c1, iz, dims[k], ext);
    let (c2, safe) = clamp_code(c1, iz, dims[k]);
    assert(int_value(c2, safe as int, ext) == zero_based(iv[k], dv[k]));
    let i3 = SpecInstr::IConst(1);
    let c3 = c2.push(i3);
    let s0 = c2.len() as usize;
    lemma_extends_push(c2, i3);
    lemma_extends_trans(c1, c2, c3);
    lemma_extends_trans(c, c1, c3);
    assert forall|m: int| k + 1 <= m < dims.len() implies dims[m] < c3.len() && int_value(c3, dims[m] as int, ext) == dv[m] by {
        lemma_value_stable(c, c3, dims[m] as int, ext);
    }
    lemma_prod_le(dv, 0, k + 1);
    lemma_prod_pos(dv, k + 1);
    assert(int_value(c3, s0 as int, ext) == 1);
    assert(1 * prod_from(dv, k + 1) == prod_from(dv, k + 1));
    lemma_stride(c3, s0, dims, k + 1, ext, dv);
    let (c4, stride) = stride_code(c3, s0, dims, k + 1);
    lemma_extends_trans(c2, c3, c4);
    lemma_value_stable(c2, c4, safe as int, ext);
    let i5 = SpecInstr::IMul(safe, stride);
    lemma_push_stable(c4, i5, safe as int, ext);
    lemma_push_stable(c4, i5, stride as int, ext);
    lemma_extends_push(c4, i5);
    lemma_extends_trans(c, c3, c4);
    lemma_extends_trans(c, c4, c4.push(i5));
    let zb = zero_based(iv[k], dv[k]);
    let p1 = prod_from(dv, k + 1);
    let dk = dv[k];
    lemma_prod_le(dv, 0, k);
    assert(zb * p1 <= (dk - 1) * p1 && (dk - 1) * p1 == dk * p1 - p1 && zb * p1 >= 0) by (nonlinear_arith)
        requires
            0 <= zb <= dk - 1,
            p1 >= 1,
    ;
    assert(int_value(c4.push(i5), c4.len() as int, ext) == zb * p1);
}

proof fn lemma_sum(
    c: Seq<SpecInstr>,
    dims: Seq<usize>,
    idx: Seq<usize>,
    k: int,
    one: usize,
    zero: usize,
    flat: usize,
    ext: spec_fn(int) -> i64,
    dv: Seq<int>,
    iv: Seq<int>,
)
    requires
        0 <= k <= idx.len(),
        idx.len() == dims.len(),
        dv.len() == dims.len(),
        iv.len() == idx.len(),
        forall|m: int| 0 <= m < dv.len() ==> dv[m] >= 1,
        forall|m: int| 0 <= m < dims.len() ==> (#[trigger] dims[m]) < c.len() && int_value(c, dims[m] as int, ext) == dv[m],
        forall|m: int| 0 <= m < idx.len() ==> (#[trigger] idx[m]) < c.len() && int_value(c, idx[m] as int, ext) == iv[m],
        one < c.len(),
        zero < c.len(),
        flat < c.len(),
        int_value(c, one as int, ext) == 1,
        int_value(c, zero as int, ext) == 0,
        int_value(c, flat as int, ext) == row_major(dv, iv, k),
        0 <= row_major(dv, iv, k) <= prod_from(dv, 0) - prod_from(dv, k),
        prod_from(dv, 0) <= i64::MAX,
        c.len() + (idx.len() - k) * (dims.len() + 11) <= usize::MAX,
    ensures
        extends(sum_code(c, dims, idx, k, one, zero, flat).0, c),
        int_value(sum_code(c, dims, idx, k, one, zero, flat).0, sum_code(c, dims, idx, k, one, zero, flat).1 as int, ext)
            == row_major(dv, iv, idx.len() as int),
    decreases idx.len() - k,
{
    if k >= idx.len() {
        assert(c.subrange(0, c.len() as int) =~= c);
    } else {
        let n = idx.len() as int;
        let w = dims.len() + 11;
        assert((n - k) * w == (n - k - 1) * w + w) by (nonlinear_arith);
        assert((n - k - 1) * w >= 0) by (nonlinear_arith)
            requires
                n - k - 1 >= 0,
                w >= 0,
        ;
        lemma_term(c, dims, idx, k, one, zero, ext, dv, iv);
        let (c1, t) = term_code(c, dims, idx, k, one, zero);
        let ia = SpecInstr::IAdd(flat, t);
        let c2 = c1.push(ia);
        lemma_value_stable(c, c1, flat as int, ext);
        lemma_push_stable(c1, ia, flat as int, ext);
        lemma_push_stable(c1, ia, t as int, ext);
        lemma_extends_push(c1, ia);
        lemma_extends_trans(c, c1, c2);
        let zb = zero_based(iv[k], dv[k]);
        let p1 = prod_from(dv, k + 1);
        let dk = dv[k];
        lemma_prod_pos(dv, k + 1);
        lemma_prod_pos(dv, 0);
        assert(zb * p1 <= (dk - 1) * p1 && (dk - 1) * p1 == dk * p1 - p1 && zb * p1 >= 0) by (nonlinear_arith)
            requires
                0 <= zb <= dk - 1,
                p1 >= 1,
        ;
        assert(row_major(dv, iv, k + 1) == row_major(dv, iv, k) + zb * p1);
        assert(int_value(c2, c1.len() as int, ext) == row_major(dv, iv, k + 1));
        assert forall|m: int| 0 <= m < dims.len() implies dims[m] < c2.len() && int_value(c2, dims[m] as int, ext) == dv[m] by {
            lemma_value_stable(c, c2, dims[m] as int, ext);
        }
        assert forall|m: int| 0 <= m < idx.len() implies idx[m] < c2.len() && int_value(c2, idx[m] as int, ext) == iv[m] by {
            lemma_value_stable(c, c2, idx[m] as int, ext);
        }
        lemma_value_stable(c, c2, one as int, ext);
        lemma_value_stable(c, c2, zero as int, ext);
        lemma_sum(c2, dims, idx, k + 1, one, zero, c1.len() as usize, ext, dv, iv);
        lemma_extends_trans(c, c2, sum_code(c2, dims, idx, k + 1, one, zero, c1.len() as usize).0);
    }
}

/// The row-major position that [`flat_index`] emits, for indices as many
/// as the dimensions, all dimensions at least 1 and their product within
/// 64 bits: each index counted from 1 is made 0-based and clamped to its
/// dimension, the results are weighted by the products of the later
/// dimensions, and the position lies inside the array.
pub proof fn law_flat_index_in_range(c: Seq<SpecInstr>, dims: Seq<usize>, idx: Seq<usize>, ext: spec_fn(int) -> i64)
    requires
        idx.len() == dims.len(),
        forall|m: int| 0 <= m < dims.len() ==> #[trigger] dims[m] < c.len(),
        forall|m: int| 0 <= m < idx.len() ==> #[trigger] idx[m] < c.len(),
        forall|m: int| 0 <= m < dims.len() ==> #[trigger] int_value(c, dims[m] as int, ext) >= 1,
        prod_from(values_of(c, dims, ext), 0) <= i64::MAX,
        c.len() + 3 + idx.len() * (dims.len() + 11) <= usize::MAX,
    ensures
        ({
            let (c2, r) = flat_code(c, dims, idx);
            let v = int_value(c2, r as int, ext) as int;
            &&& v == row_major(values_of(c, dims, ext), values_of(c, idx, ext), idx.len() as int)
            &&& 0 <= v < prod_from(values_of(c, dims, ext), 0)
        }),
{
    let dv = values_of(c, dims, ext);
    let iv = values_of(c, idx, ext);
    let i0 = SpecInstr::IConst(1);
    let c1 = c.push(i0);
    let c2 = c1.push(SpecInstr::IConst(0));
    let c3 = c2.push(SpecInstr::IConst(0));
    lemma_extends_push(c, i0);
    lemma_extends_push(c1, SpecInstr::IConst(0));
    lemma_extends_push(c2, SpecInstr::IConst(0));
    lemma_extends_trans(c, c1, c2);
    lemma_extends_trans(c, c2, c3);
    lemma_extends_trans(c1, c2, c3);
    lemma_value_stable(c1, c3, c.len() as int, ext);
    lemma_value_stable(c2, c3, c1.len() as int, ext);
    assert forall|m: int| 0 <= m < dims.len() implies dims[m] < c3.len() && int_value(c3, dims[m] as int, ext) == dv[m] by {
        lemma_value_stable(c, c3, dims[m] as int, ext);
    }
    assert forall|m: int| 0 <= m < idx.len() implies idx[m] < c3.len() && int_value(c3, idx[m] as int, ext) == iv[m] by {
        lemma_value_stable(c, c3, idx[m] as int, ext);
    }
    assert forall|m: int| 0 <= m < dv.len() implies dv[m] >= 1 by {
        assert(int_value(c, dims[m] as int, ext) >= 1);
    }
    lemma_prod_pos(dv, 0);
    lemma_sum(c3, dims, idx, 0, c.len() as usize, c1.len() as usize, c2.len() as usize, ext, dv, iv);
    let n = idx.len() as int;
    lemma_sum_bound(dv, iv, n);
    lemma_prod_pos(dv, n);
    assert(prod_from(dv, n) == 1);
}

proof fn lemma_sum_bound(dv: Seq<int>, iv: Seq<int>, k: int)
    requires
        0 <= k <= dv.len(),
        forall|m: int| 0 <= m < dv.len() ==> dv[m] >= 1,
    ensures
        0 <= row_major(dv, iv, k) <= prod_from(dv, 0) - prod_from(dv, k),
    decreases k,
{
    if k > 0 {
        lemma_sum_bound(dv, iv, k - 1);
        let zb = zero_based(iv[k - 1], dv[k - 1]);
        let p1 = prod_from(dv, k);
        let dk = dv[k - 1];
        lemma_prod_pos(dv, k);
        assert(zb * p1 <= (dk - 1) * p1 && (dk - 1) * p1 == dk * p1 - p1 && zb * p1 >= 0) by (nonlinear_arith)
            requires
                0 <= zb <= dk - 1,
                p1 >= 1,
        ;
    }
}

// ---------------------------------------------------------------------
// Lowering of expressions: the model
// ---------------------------------------------------------------------
pub open spec fn emit_spec(c: Seq<SpecInstr>, i: SpecInstr) -> (Seq<SpecInstr>, usize) {
    (c.push(i), c.len() as usize)
}

pub open spec fn mkind(k: ValueKind) -> MKind {
    match k {
        ValueKind::I64 => MKind::Int,
        ValueKind::F64 => MKind::Float,
    }
}

pub open spec fn mkinds(ks: Seq<ValueKind>) -> Seq<MKind> {
    ks.map_values(|k: ValueKind| mkind(k))
}

/// A comparison flag as the integer 1 or 0.
pub open spec fn flag_code(c: Seq<SpecInstr>, f: usize) -> (Seq<SpecInstr>, usize) {
    let one = c.len() as usize;
    let c1 = c.push(SpecInstr::IConst(1));
    let zero = c1.len() as usize;
    let c2 = c1.push(SpecInstr::IConst(0));
    emit_spec(c2, SpecInstr::Select(f, one, zero))
}

/// A value made a text, for concatenation.
pub open spec fn text_code(c: Seq<SpecInstr>, v: usize, t: SpecType) -> (Seq<SpecInstr>, usize) {
    if t == SpecType::Str {
        (c, v)
    } else if t == SpecType::Real {
        emit_spec(c, SpecInstr::CallRuntime("builtin_convertiratexto"@, seq![MKind::Float], Some(MKind::Int), seq![v]))
    } else {
        emit_spec(c, SpecInstr::CallRuntime("builtin_int_to_str"@, seq![MKind::Int], Some(MKind::Int), seq![v]))
    }
}

pub open spec fn cond_of(op: BinaryOp) -> Cond {
    match op {
        BinaryOp::Eq => Cond::Eq,
        BinaryOp::Ne => Cond::Ne,
        BinaryOp::Lt => Cond::Lt,
        BinaryOp::Le => Cond::Le,
        BinaryOp::Gt => Cond::Gt,
        _ => Cond::Ge,
    }
}

/// An operation on two floats. `MOD` is the runtime's remainder of reals.
/// `Y` and `O` on a real operand (which the semantic checks refuse) give,
/// as the compiler always has, the sum of the operands as a real.
pub open spec fn float_op_code(c: Seq<SpecInstr>, op: BinaryOp, a: usize, b: usize) -> (Seq<SpecInstr>, usize, SpecType) {
    match op {
        BinaryOp::Add => (c.push(SpecInstr::FAdd(a, b)), c.len() as usize, SpecType::Real),
        BinaryOp::Sub => (c.push(SpecInstr::FSub(a, b)), c.len() as usize, SpecType::Real),
        BinaryOp::Mul => (c.push(SpecInstr::FMul(a, b)), c.len() as usize, SpecType::Real),
        BinaryOp::Div => (c.push(SpecInstr::FDiv(a, b)), c.len() as usize, SpecType::Real),
        BinaryOp::Power => (
            c.push(SpecInstr::CallRuntime("builtin_power"@, seq![MKind::Float, MKind::Float], Some(MKind::Float), seq![a, b])),
            c.len() as usize,
            SpecType::Real,
        ),
        BinaryOp::Mod => (
            c.push(SpecInstr::CallRuntime("builtin_fmod"@, seq![MKind::Float, MKind::Float], Some(MKind::Float), seq![a, b])),
            c.len() as usize,
            SpecType::Real,
        ),
        BinaryOp::And | BinaryOp::Or => (c.push(SpecInstr::FAdd(a, b)), c.len() as usize, SpecType::Real),
        _ => {
            let (c1, f) = emit_spec(c, SpecInstr::FCmp(cond_of(op), a, b));
            let (c2, r) = flag_code(c1, f);
            (c2, r, SpecType::Boolean)
        },
    }
}

/// Division or remainder of integers that gives 0 for a divisor of 0.
pub open spec fn safe_div_code(c: Seq<SpecInstr>, a: usize, b: usize, rem: bool) -> (Seq<SpecInstr>, usize) {
    let z = c.len() as usize;
    let c1 = c.push(SpecInstr::IConst(0));
    let o = c1.len() as usize;
    let c2 = c1.push(SpecInstr::IConst(1));
    let isz = c2.len() as usize;
    let c3 = c2.push(SpecInstr::ICmp(Cond::Eq, b, z));
    let sb = c3.len() as usize;
    let c4 = c3.push(SpecInstr::Select(isz, o, b));
    let res = c4.len() as usize;
    let c5 = c4.push(if rem {
        SpecInstr::SRem(a, sb)
    } else {
        SpecInstr::SDiv(a, sb)
    });
    emit_spec(c5, SpecInstr::Select(isz, z, res))
}

/// An operation on two integers. `Y` and `O` are the bitwise and and or of
/// the operands (1 and 0 for logical values), typed as integers.
/// Comparisons give 1 or 0. (`/` and `^` never come here: they are
/// operations on reals.)
pub open spec fn int_op_code(c: Seq<SpecInstr>, op: BinaryOp, a: usize, b: usize) -> (Seq<SpecInstr>, usize, SpecType) {
    match op {
        BinaryOp::Add => (c.push(SpecInstr::IAdd(a, b)), c.len() as usize, SpecType::Integer),
        BinaryOp::Sub => (c.push(SpecInstr::ISub(a, b)), c.len() as usize, SpecType::Integer),
        BinaryOp::Mul => (c.push(SpecInstr::IMul(a, b)), c.len() as usize, SpecType::Integer),
        BinaryOp::Div => {
            let (c1, r) = safe_div_code(c, a, b, false);
            (c1, r, SpecType::Integer)
        },
        BinaryOp::Mod => {
            let (c1, r) = safe_div_code(c, a, b, true);
            (c1, r, SpecType::Integer)
        },
        BinaryOp::And => (c.push(SpecInstr::BAnd(a, b)), c.len() as usize, SpecType::Integer),
        BinaryOp::Or => (c.push(SpecInstr::BOr(a, b)), c.len() as usize, SpecType::Integer),
        _ => {
            let (c1, f) = emit_spec(c, SpecInstr::ICmp(cond_of(op), a, b));
            let (c2, r) = flag_code(c1, f);
            (c2, r, SpecType::Boolean)
        },
    }
}

/// A binary operation on two lowered operands: `+` with a text operand
/// concatenates; `/` and `^`, or a real operand, make the operation one on
/// reals (integer operands converted); otherwise it is one on integers.
pub open spec fn binary_code(c: Seq<SpecInstr>, op: BinaryOp, lv: usize, lt: SpecType, rv: usize, rt: SpecType) -> (Seq<SpecInstr>, usize, SpecType) {
    if op == BinaryOp::Add && (lt == SpecType::Str || rt == SpecType::Str) {
        let (c1, ls) = text_code(c, lv, lt);
        let (c2, rs) = text_code(c1, rv, rt);
        let (c3, r) = emit_spec(c2, SpecInstr::CallRuntime("builtin_concatenar"@, seq![MKind::Int, MKind::Int], Some(MKind::Int), seq![ls, rs]));
        (c3, r, SpecType::Str)
    } else {
        let fl = lt == SpecType::Real || rt == SpecType::Real || op == BinaryOp::Div || op == BinaryOp::Power;
        let (c1, a) = if lt == SpecType::Integer && fl {
            emit_spec(c, SpecInstr::FromInt(lv))
        } else {
            (c, lv)
        };
        let (c2, b) = if rt == SpecType::Integer && fl {
            emit_spec(c1, SpecInstr::FromInt(rv))
        } else {
            (c1, rv)
        };
        if fl {
            float_op_code(c2, op, a, b)
        } else {
            int_op_code(c2, op, a, b)
        }
    }
}

pub open spec fn unary_code(c: Seq<SpecInstr>, op: UnaryOp, v: usize, t: SpecType) -> (Seq<SpecInstr>, usize, SpecType) {
    match op {
        UnaryOp::Neg => if t == SpecType::Real {
            (c.push(SpecInstr::FNeg(v)), c.len() as usize, SpecType::Real)
        } else {
            let (c1, z) = emit_spec(c, SpecInstr::IConst(0));
            let (c2, r) = emit_spec(c1, SpecInstr::ISub(z, v));
            (c2, r, SpecType::Integer)
        },
        UnaryOp::Not => {
            let (c1, z) = emit_spec(c, SpecInstr::IConst(0));
            let (c2, f) = emit_spec(c1, SpecInstr::ICmp(Cond::Eq, v, z));
            let (c3, r) = flag_code(c2, f);
            (c3, r, SpecType::Boolean)
        },
    }
}

/// Constants for the sizes from `i` on, their values appended to `ids`.
pub open spec fn consts_code(c: Seq<SpecInstr>, s: Seq<i64>, i: int, ids: Seq<usize>) -> (Seq<SpecInstr>, Seq<usize>)
    decreases s.len() - i,
{
    if i < 0 || i >= s.len() {
        (c, ids)
    } else {
        consts_code(c.push(SpecInstr::IConst(s[i])), s, i + 1, ids.push(c.len() as usize))
    }
}

/// `n` constants 1, their values appended to `ids`.
pub open spec fn ones_code(c: Seq<SpecInstr>, n: nat, ids: Seq<usize>) -> (Seq<SpecInstr>, Seq<usize>)
    decreases n,
{
    if n == 0 {
        (c, ids)
    } else {
        ones_code(c.push(SpecInstr::IConst(1)), (n - 1) as nat, ids.push(c.len() as usize))
    }
}

/// The values of the dimensions of the array `key` indexed with `n`
/// indices: with one index, the constant size first, then the size held in
/// a value; with more, the sizes held in values first, then the constant
/// sizes. Unknown sizes give none.
pub open spec fn dims_code(c: Seq<SpecInstr>, env: SpecEnv, key: Seq<char>, n: nat) -> (Seq<SpecInstr>, Seq<usize>) {
    if n == 1 {
        if env.const_dims.contains_key(key) && env.const_dims[key].len() > 0 {
            (c.push(SpecInstr::IConst(env.const_dims[key][0])), seq![c.len() as usize])
        } else if env.array_dims.contains_key(key) && env.array_dims[key].len() > 0 {
            (c, seq![env.array_dims[key][0]])
        } else {
            (c, Seq::empty())
        }
    } else if env.array_dims.contains_key(key) {
        (c, env.array_dims[key])
    } else if env.const_dims.contains_key(key) {
        consts_code(c, env.const_dims[key], 0, Seq::empty())
    } else {
        (c, Seq::empty())
    }
}

/// The address of an array's first element: the variable of the
/// lower-case name, else of the name as written, else 0.
pub open spec fn base_code(c: Seq<SpecInstr>, env: SpecEnv, a: Seq<char>) -> (Seq<SpecInstr>, usize) {
    match lookup(env.vars, lowercase(a)) {
        Some(vt) => emit_spec(c, SpecInstr::UseVar(vt.0, kind_of(vt.1))),
        None => match lookup(env.vars, a) {
            Some(vt) => emit_spec(c, SpecInstr::UseVar(vt.0, kind_of(vt.1))),
            None => emit_spec(c, SpecInstr::IConst(0)),
        },
    }
}

/// The address of an element: the base plus 8 bytes per element before
/// it in row-major order.
pub open spec fn addr_code(c: Seq<SpecInstr>, env: SpecEnv, key: Seq<char>, base: usize, ids: Seq<usize>) -> (Seq<SpecInstr>, usize) {
    let (c1, dims) = dims_code(c, env, key, ids.len());
    let (c2, flat) = flat_code(c1, dims, ids);
    let (c3, eight) = emit_spec(c2, SpecInstr::IConst(8));
    let (c4, off) = emit_spec(c3, SpecInstr::IMul(flat, eight));
    emit_spec(c4, SpecInstr::IAdd(base, off))
}

/// Loads the element whose address is computed from the base, the index
/// values and the dimensions: 8 bytes per element. A real element is kept
/// as the bits of the float.
pub open spec fn load_code(c: Seq<SpecInstr>, env: SpecEnv, key: Seq<char>, base: usize, ids: Seq<usize>) -> (Seq<SpecInstr>, usize, usize, SpecType) {
    let (c5, addr) = addr_code(c, env, key, base, ids);
    let (c6, ld) = emit_spec(c5, SpecInstr::Load(addr));
    let ety = match lookup(env.elem_types, key) {
        Some(t) => t,
        None => SpecType::Integer,
    };
    if ety == SpecType::Real {
        let (c7, r) = emit_spec(c6, SpecInstr::FloatBits(ld));
        (c7, addr, r, SpecType::Real)
    } else {
        (c6, addr, ld, ety)
    }
}

/// The kinds of the results of a call of a function of the program: its
/// return value, if any, then each parameter passed by reference.
pub open spec fn byref_kinds(ps: Seq<(String, Type, bool)>, j: int) -> Seq<MKind>
    decreases ps.len() - j,
{
    if j < 0 || j >= ps.len() {
        Seq::empty()
    } else if ps[j].2 {
        seq![kind_of(ps[j].1@)] + byref_kinds(ps, j + 1)
    } else {
        byref_kinds(ps, j + 1)
    }
}

pub open spec fn ret_type(rt: Option<Type>) -> SpecType {
    match rt {
        Some(t) => t@,
        None => SpecType::Integer,
    }
}

pub open spec fn result_kinds(ps: Seq<(String, Type, bool)>, rt: Option<Type>, has_ret: bool) -> Seq<MKind> {
    (if has_ret {
        seq![kind_of(ret_type(rt))]
    } else {
        Seq::empty()
    }) + byref_kinds(ps, 0)
}

/// The dimension values passed after the arguments of a call, for the
/// array parameters from `k` on: those of the array variable given as the
/// argument (its size values, else its constant sizes, else 1 each), or 1
/// each when the argument is not a variable.
pub open spec fn hidden_code(aps: Seq<(usize, usize)>, k: int, args: Seq<SpecExpr>, env: SpecEnv, c: Seq<SpecInstr>, vals: Seq<usize>) -> (Seq<SpecInstr>, Seq<usize>)
    decreases aps.len() - k,
{
    if k < 0 || k >= aps.len() {
        (c, vals)
    } else {
        let pi = aps[k].0 as int;
        let cnt = aps[k].1 as int;
        let (c1, v1) = if pi < args.len() {
            match args[pi] {
                SpecExpr::Var(vn) => {
                    let lk = lowercase(vn);
                    if env.array_dims.contains_key(lk) {
                        let d = env.array_dims[lk];
                        (c, vals + d.subrange(0, if cnt < d.len() { cnt } else { d.len() as int }))
                    } else if env.const_dims.contains_key(lk) {
                        let sz = env.const_dims[lk];
                        consts_code(c, sz.subrange(0, if cnt < sz.len() { cnt } else { sz.len() as int }), 0, vals)
                    } else {
                        ones_code(c, cnt as nat, vals)
                    }
                },
                _ => ones_code(c, cnt as nat, vals),
            }
        } else {
            (c, vals)
        };
        hidden_code(aps, k + 1, args, env, c1, v1)
    }
}

/// After a call, each parameter passed by reference gives its result back
/// to the argument: a variable gets it (converted to the variable's kind),
/// an array element gets it stored at the element's address.
pub open spec fn writeback_code(
    ps: Seq<(String, Type, bool)>,
    j: int,
    ri: usize,
    args: Seq<SpecExpr>,
    addrs: Seq<Option<usize>>,
    env: SpecEnv,
    call: usize,
    c: Seq<SpecInstr>,
) -> Seq<SpecInstr>
    decreases ps.len() - j,
{
    if j < 0 || j >= ps.len() {
        c
    } else if !ps[j].2 {
        writeback_code(ps, j + 1, ri, args, addrs, env, call, c)
    } else {
        let pk = kind_of(ps[j].1@);
        let c1 = if j < args.len() {
            match args[j] {
                SpecExpr::Var(vn) => match lookup(env.vars, vn) {
                    Some(vt) => {
                        let (c0, nv) = emit_spec(c, SpecInstr::CallResult(call, ri));
                        let vk = kind_of(vt.1);
                        let (ca, x) = if vk == MKind::Int && pk == MKind::Float {
                            emit_spec(c0, SpecInstr::ToIntSat(nv))
                        } else if vk == MKind::Float && pk == MKind::Int {
                            emit_spec(c0, SpecInstr::FromInt(nv))
                        } else {
                            (c0, nv)
                        };
                        ca.push(SpecInstr::DefVar(vt.0, x))
                    },
                    None => c,
                },
                SpecExpr::Index(_, _) => if j < addrs.len() && addrs[j] is Some {
                    let (c0, nv) = emit_spec(c, SpecInstr::CallResult(call, ri));
                    let (ca, x) = if pk == MKind::Float {
                        emit_spec(c0, SpecInstr::IntBits(nv))
                    } else {
                        (c0, nv)
                    };
                    ca.push(SpecInstr::Store(x, addrs[j]->0))
                } else {
                    c
                },
                _ => c,
            }
        } else {
            c
        };
        writeback_code(ps, j + 1, if ri < usize::MAX { (ri + 1) as usize } else { 0 }, args, addrs, env, call, c1)
    }
}

/// A value converted to the kind of a parameter of type `et`.
pub open spec fn coerce_code(c: Seq<SpecInstr>, v: usize, t: SpecType, et: SpecType) -> (Seq<SpecInstr>, usize) {
    if et == SpecType::Real && t == SpecType::Integer {
        emit_spec(c, SpecInstr::FromInt(v))
    } else if et != SpecType::Real && t == SpecType::Real {
        emit_spec(c, SpecInstr::ToIntSat(v))
    } else {
        (c, v)
    }
}

/// The code of an expression: the instructions appended to `c`, the value
/// that holds the result and the result's type.
pub open spec fn expr_code(e: SpecExpr, env: SpecEnv, c: Seq<SpecInstr>) -> (Seq<SpecInstr>, usize, SpecType)
    decreases e, 0int,
{
    match e {
        SpecExpr::Lit(l) => match l {
            SpecLit::Int(n) => (c.push(SpecInstr::IConst(n)), c.len() as usize, SpecType::Integer),
            SpecLit::Real(t) => (c.push(SpecInstr::FConst(t)), c.len() as usize, SpecType::Real),
            SpecLit::Bool(b) => (c.push(SpecInstr::IConst(if b { 1 } else { 0 })), c.len() as usize, SpecType::Boolean),
            SpecLit::Str(t) => (c.push(SpecInstr::StrConst(t)), c.len() as usize, SpecType::Str),
        },
        SpecExpr::Var(n) => match lookup(env.vars, n) {
            Some(vt) => (c.push(SpecInstr::UseVar(vt.0, kind_of(vt.1))), c.len() as usize, vt.1),
            None => (c.push(SpecInstr::IConst(0)), c.len() as usize, SpecType::Integer),
        },
        SpecExpr::Binary(l, op, r) => {
            let (c1, lv, lt) = expr_code(*l, env, c);
            let (c2, rv, rt) = expr_code(*r, env, c1);
            binary_code(c2, op, lv, lt, rv, rt)
        },
        SpecExpr::Unary(op, x) => {
            let (c1, v, t) = expr_code(*x, env, c);
            unary_code(c1, op, v, t)
        },
        SpecExpr::Index(a, idx) => {
            let (c1, _, v, t) = index_code(a, idx, env, c);
            (c1, v, t)
        },
        SpecExpr::Call(f, args) => call_code(f, args, env, c),
    }
}

/// A call: of a native function (an integer given for a real parameter is
/// converted), or of a function of the program (arguments converted to the
/// parameters' kinds, then the dimensions of array arguments, then the
/// results given back to the arguments passed by reference), or 0 when
/// the name is unknown.
pub open spec fn call_code(f: Seq<char>, args: Seq<SpecExpr>, env: SpecEnv, c: Seq<SpecInstr>) -> (Seq<SpecInstr>, usize, SpecType)
    decreases args, args.len() + 1,
{
    let key = lowercase(f);
    match builtin_table(key) {
        Some(b) => {
            let (c1, vals) = builtin_args_code(args, 0, b.1, env, c, Seq::empty());
            (c1.push(SpecInstr::CallRuntime(b.0, mkinds(b.1), Some(mkind(b.2)), vals)), c1.len() as usize, b.3)
        },
        None => if env.functions.contains_key(key) {
            let info = env.functions[key];
            let (c1, vals, addrs) = user_args_code(args, 0, info.0, env, c, Seq::empty(), Seq::empty());
            let aps = if env.array_params.contains_key(key) {
                env.array_params[key]
            } else {
                Seq::empty()
            };
            let (c2, vals2) = hidden_code(aps, 0, args, env, c1, vals);
            let (c3, call) = emit_spec(c2, SpecInstr::CallUser(key, vals2, result_kinds(info.0, info.1, info.2)));
            let (c4, rv, rt) = if info.2 {
                (c3.push(SpecInstr::CallResult(call, 0)), c3.len() as usize, ret_type(info.1))
            } else {
                (c3.push(SpecInstr::IConst(0)), c3.len() as usize, SpecType::Integer)
            };
            (writeback_code(info.0, 0, if info.2 { 1 } else { 0 }, args, addrs, env, call, c4), rv, rt)
        } else {
            (c.push(SpecInstr::IConst(0)), c.len() as usize, SpecType::Integer)
        },
    }
}

/// An indexed access: the address of the element, the value read and its
/// type.
pub open spec fn index_code(a: Seq<char>, idx: Seq<SpecExpr>, env: SpecEnv, c: Seq<SpecInstr>) -> (Seq<SpecInstr>, usize, usize, SpecType)
    decreases idx, idx.len() + 1,
{
    let (c1, base) = base_code(c, env, a);
    let (c2, ids) = exprs_code(idx, 0, env, c1, Seq::empty());
    load_code(c2, env, lowercase(a), base, ids)
}

/// The expressions from `i` on, their values appended to `ids`.
pub open spec fn exprs_code(es: Seq<SpecExpr>, i: int, env: SpecEnv, c: Seq<SpecInstr>, ids: Seq<usize>) -> (Seq<SpecInstr>, Seq<usize>)
    decreases es, es.len() - i,
{
    if i < 0 || i >= es.len() {
        (c, ids)
    } else {
        let (c1, v, _) = expr_code(es[i], env, c);
        exprs_code(es, i + 1, env, c1, ids.push(v))
    }
}

/// The arguments of a native function from `i` on: an integer given for a
/// real parameter is converted.
pub open spec fn builtin_args_code(args: Seq<SpecExpr>, i: int, ps: Seq<ValueKind>, env: SpecEnv, c: Seq<SpecInstr>, vals: Seq<usize>) -> (Seq<SpecInstr>, Seq<usize>)
    decreases args, args.len() - i,
{
    if i < 0 || i >= args.len() {
        (c, vals)
    } else {
        let (c1, v, t) = expr_code(args[i], env, c);
        let (c2, v2) = if i < ps.len() && ps[i] == ValueKind::F64 && t == SpecType::Integer {
            emit_spec(c1, SpecInstr::FromInt(v))
        } else {
            (c1, v)
        };
        builtin_args_code(args, i + 1, ps, env, c2, vals.push(v2))
    }
}

/// The arguments of a function of the program from `i` on, converted to
/// the kinds of the parameters; with each, the address of the element when
/// the argument is an array element.
pub open spec fn user_args_code(
    args: Seq<SpecExpr>,
    i: int,
    ps: Seq<(String, Type, bool)>,
    env: SpecEnv,
    c: Seq<SpecInstr>,
    vals: Seq<usize>,
    addrs: Seq<Option<usize>>,
) -> (Seq<SpecInstr>, Seq<usize>, Seq<Option<usize>>)
    decreases args, args.len() - i,
{
    if i < 0 || i >= args.len() {
        (c, vals, addrs)
    } else {
        let (c1, v, t, ad) = match args[i] {
            SpecExpr::Index(a, idx) => {
                let (c1, ad, v, t) = index_code(a, idx, env, c);
                (c1, v, t, Some(ad))
            },
            _ => {
                let (c1, v, t) = expr_code(args[i], env, c);
                (c1, v, t, None)
            },
        };
        let (c2, v2) = if i < ps.len() {
            coerce_code(c1, v, t, ps[i].1@)
        } else {
            (c1, v)
        };
        user_args_code(args, i + 1, ps, env, c2, vals.push(v2), addrs.push(ad))
    }
}

// ---------------------------------------------------------------------
// Lowering of expressions: the code
// ---------------------------------------------------------------------
fn flag_exec(code: &mut Vec<Instr>, f: usize) -> (r: usize)
    ensures
        (code_view(final(code)@), r) == flag_code(code_view(old(code)@), f),
{
    let one = emit(code, Instr::IConst(1));
    let zero = emit(code, Instr::IConst(0));
    emit(code, Instr::Select(f, one, zero))
}

fn text_exec(code: &mut Vec<Instr>, v: usize, t: &Type) -> (r: usize)
    ensures
        (code_view(final(code)@), r) == text_code(code_view(old(code)@), v, t@),
{
    if matches!(t, Type::String) {
        v
    } else if matches!(t, Type::Real) {
        let name = String::from_str("builtin_convertiratexto");
        let ps = vec![MKind::Float];
        let args = vec![v];
        assert(ps@ =~= seq![MKind::Float]);
        assert(args@ =~= seq![v]);
        emit(code, Instr::CallRuntime(name, ps, Some(MKind::Int), args))
    } else {
        let name = String::from_str("builtin_int_to_str");
        let ps = vec![MKind::Int];
        let args = vec![v];
        assert(ps@ =~= seq![MKind::Int]);
        assert(args@ =~= seq![v]);
        emit(code, Instr::CallRuntime(name, ps, Some(MKind::Int), args))
    }
}

fn cond_exec(op: BinaryOp) -> (r: Cond)
    ensures
        r == cond_of(op),
{
    match op {
        BinaryOp::Eq => Cond::Eq,
        BinaryOp::Ne => Cond::Ne,
        BinaryOp::Lt => Cond::Lt,
        BinaryOp::Le => Cond::Le,
        BinaryOp::Gt => Cond::Gt,
        _ => Cond::Ge,
    }
}

fn float_op_exec(code: &mut Vec<Instr>, op: BinaryOp, a: usize, b: usize) -> (r: (usize, Type))
    ensures
        (code_view(final(code)@), r.0, r.1@) == float_op_code(code_view(old(code)@), op, a, b),
{
    match op {
        BinaryOp::Add => (emit(code, Instr::FAdd(a, b)), Type::Real),
        BinaryOp::Sub => (emit(code, Instr::FSub(a, b)), Type::Real),
        BinaryOp::Mul => (emit(code, Instr::FMul(a, b)), Type::Real),
        BinaryOp::Div => (emit(code, Instr::FDiv(a, b)), Type::Real),
        BinaryOp::Power => (
            emit(code, Instr::CallRuntime(String::from_str("builtin_power"), vec![MKind::Float, MKind::Float], Some(MKind::Float), vec![a, b])),
            Type::Real,
        ),
        BinaryOp::Mod => (
            emit(code, Instr::CallRuntime(String::from_str("builtin_fmod"), vec![MKind::Float, MKind::Float], Some(MKind::Float), vec![a, b])),
            Type::Real,
        ),
        BinaryOp::And | BinaryOp::Or => (emit(code, Instr::FAdd(a, b)), Type::Real),
        _ => {
            let f = emit(code, Instr::FCmp(cond_exec(op), a, b));
            (flag_exec(code, f), Type::Boolean)
        },
    }
}

fn safe_div_exec(code: &mut Vec<Instr>, a: usize, b: usize, rem: bool) -> (r: usize)
    ensures
        (code_view(final(code)@), r) == safe_div_code(code_view(old(code)@), a, b, rem),
{
    let z = emit(code, Instr::IConst(0));
    let o = emit(code, Instr::IConst(1));
    let isz = emit(code, Instr::ICmp(Cond::Eq, b, z));
    let sb = emit(code, Instr::Select(isz, o, b));
    let res = if rem {
        emit(code, Instr::SRem(a, sb))
    } else {
        emit(code, Instr::SDiv(a, sb))
    };
    emit(code, Instr::Select(isz, z, res))
}

fn int_op_exec(code: &mut Vec<Instr>, op: BinaryOp, a: usize, b: usize) -> (r: (usize, Type))
    ensures
        (code_view(final(code)@), r.0, r.1@) == int_op_code(code_view(old(code)@), op, a, b),
{
    match op {
        BinaryOp::Add => (emit(code, Instr::IAdd(a, b)), Type::Integer),
        BinaryOp::Sub => (emit(code, Instr::ISub(a, b)), Type::Integer),
        BinaryOp::Mul => (emit(code, Instr::IMul(a, b)), Type::Integer),
        BinaryOp::Div => (safe_div_exec(code, a, b, false), Type::Integer),
        BinaryOp::Mod => (safe_div_exec(code, a, b, true), Type::Integer),
        BinaryOp::And => (emit(code, Instr::BAnd(a, b)), Type::Integer),
        BinaryOp::Or => (emit(code, Instr::BOr(a, b)), Type::Integer),
        _ => {
            let f = emit(code, Instr::ICmp(cond_exec(op), a, b));
            (flag_exec(code, f), Type::Boolean)
        },
    }
}

fn binary_exec(code: &mut Vec<Instr>, op: BinaryOp, lv: usize, lt: &Type, rv: usize, rt: &Type) -> (r: (usize, Type))
    ensures
        (code_view(final(code)@), r.0, r.1@) == binary_code(code_view(old(code)@), op, lv, lt@, rv, rt@),
{
    let l_str = matches!(lt, Type::String);
    let r_str = matches!(rt, Type::String);
    if op == BinaryOp::Add && (l_str || r_str) {
        let ls = text_exec(code, lv, lt);
        let rs = text_exec(code, rv, rt);
        let r = emit(code, Instr::CallRuntime(String::from_str("builtin_concatenar"), vec![MKind::Int, MKind::Int], Some(MKind::Int), vec![ls, rs]));
        (r, Type::String)
    } else {
        let l_real = matches!(lt, Type::Real);
        let r_real = matches!(rt, Type::Real);
        let fl = l_real || r_real || op == BinaryOp::Div || op == BinaryOp::Power;
        let a = if matches!(lt, Type::Integer) && fl {
            emit(code, Instr::FromInt(lv))
        } else {
            lv
        };
        let b = if matches!(rt, Type::Integer) && fl {
            emit(code, Instr::FromInt(rv))
        } else {
            rv
        };
        if fl {
            float_op_exec(code, op, a, b)
        } else {
            int_op_exec(code, op, a, b)
        }
    }
}

fn unary_exec(code: &mut Vec<Instr>, op: UnaryOp, v: usize, t: &Type) -> (r: (usize, Type))
    ensures
        (code_view(final(code)@), r.0, r.1@) == unary_code(code_view(old(code)@), op, v, t@),
{
    match op {
        UnaryOp::Neg => if matches!(t, Type::Real) {
            (emit(code, Instr::FNeg(v)), Type::Real)
        } else {
            let z = emit(code, Instr::IConst(0));
            (emit(code, Instr::ISub(z, v)), Type::Integer)
        },
        UnaryOp::Not => {
            let z = emit(code, Instr::IConst(0));
            let f = emit(code, Instr::ICmp(Cond::Eq, v, z));
            (flag_exec(code, f), Type::Boolean)
        },
    }
}

fn copy_ids(d: &Vec<usize>, m: usize, out: &mut Vec<usize>)
    requires
        m <= d@.len(),
    ensures
        final(out)@ == old(out)@ + d@.subrange(0, m as int),
{
    let mut i: usize = 0;
    let ghost v0 = out@;
    while i < m
        invariant
            i <= m <= d@.len(),
            out@ == v0 + d@.subrange(0, i as int),
        decreases m - i,
    {
        out.push(d[i]);
        assert(v0 + d@.subrange(0, i + 1) =~= (v0 + d@.subrange(0, i as int)).push(d@[i as int]));
        i += 1;
    }
}

fn consts_exec(code: &mut Vec<Instr>, s: &Vec<i64>, m: usize, ids: &mut Vec<usize>)
    requires
        m <= s@.len(),
    ensures
        (code_view(final(code)@), final(ids)@) == consts_code(code_view(old(code)@), s@.subrange(0, m as int), 0, old(ids)@),
{
    let ghost sub = s@.subrange(0, m as int);
    let ghost target = consts_code(code_view(code@), sub, 0, ids@);
    let mut i: usize = 0;
    while i < m
        invariant
            i <= m <= s@.len(),
            sub == s@.subrange(0, m as int),
            target == consts_code(code_view(code@), sub, i as int, ids@),
        decreases m - i,
    {
        let v = emit(code, Instr::IConst(s[i]));
        ids.push(v);
        i += 1;
    }
}

fn ones_exec(code: &mut Vec<Instr>, n: usize, ids: &mut Vec<usize>)
    ensures
        (code_view(final(code)@), final(ids)@) == ones_code(code_view(old(code)@), n as nat, old(ids)@),
{
    let ghost target = ones_code(code_view(code@), n as nat, ids@);
    let mut k: usize = 0;
    while k < n
        invariant
            k <= n,
            target == ones_code(code_view(code@), (n - k) as nat, ids@),
        decreases n - k,
    {
        let v = emit(code, Instr::IConst(1));
        ids.push(v);
        k += 1;
    }
}

fn dims_exec(code: &mut Vec<Instr>, env: &LowerEnv, key: &String, n: usize) -> (r: Vec<usize>)
    ensures
        (code_view(final(code)@), r@) == dims_code(code_view(old(code)@), env@, key@, n as nat),
{
    let mut out: Vec<usize> = Vec::new();
    if n == 1 {
        match find(&env.const_dims, key) {
            Some(sz) => if sz.len() > 0 {
                let v = emit(code, Instr::IConst(sz[0]));
                out.push(v);
                assert(out@ =~= seq![v]);
                return out;
            },
            None => {},
        }
        match find(&env.array_dims, key) {
            Some(d) => if d.len() > 0 {
                out.push(d[0]);
                assert(out@ =~= seq![d@[0]]);
            },
            None => {},
        }
        proof {
            if out@.len() == 0 {
                assert(out@ =~= Seq::<usize>::empty());
            }
        }
        out
    } else {
        match find(&env.array_dims, key) {
            Some(d) => {
                copy_ids(d, d.len(), &mut out);
                assert(out@ =~= d@);
                out
            },
            None => match find(&env.const_dims, key) {
                Some(sz) => {
                    consts_exec(code, sz, sz.len(), &mut out);
                    assert(sz@.subrange(0, sz@.len() as int) =~= sz@);
                    out
                },
                None => out,
            },
        }
    }
}

fn base_exec(code: &mut Vec<Instr>, env: &LowerEnv, a: &String) -> (r: usize)
    ensures
        (code_view(final(code)@), r) == base_code(code_view(old(code)@), env@, a@),
{
    let key = to_lowercase(a);
    match find(&env.vars, &key) {
        Some(vt) => emit(code, Instr::UseVar(vt.0, kind_of_type(&vt.1))),
        None => match find(&env.vars, a) {
            Some(vt) => emit(code, Instr::UseVar(vt.0, kind_of_type(&vt.1))),
            None => emit(code, Instr::IConst(0)),
        },
    }
}

fn addr_exec(code: &mut Vec<Instr>, env: &LowerEnv, key: &String, base: usize, ids: &Vec<usize>) -> (r: usize)
    ensures
        (code_view(final(code)@), r) == addr_code(code_view(old(code)@), env@, key@, base, ids@),
{
    let dims = dims_exec(code, env, key, ids.len());
    let flat = flat_index(&dims, ids, code);
    let eight = emit(code, Instr::IConst(8));
    let off = emit(code, Instr::IMul(flat, eight));
    emit(code, Instr::IAdd(base, off))
}

fn load_exec(code: &mut Vec<Instr>, env: &LowerEnv, key: &String, base: usize, ids: &Vec<usize>) -> (r: (usize, usize, Type))
    ensures
        (code_view(final(code)@), r.0, r.1, r.2@) == load_code(code_view(old(code)@), env@, key@, base, ids@),
{
    let addr = addr_exec(code, env, key, base, ids);
    let ld = emit(code, Instr::Load(addr));
    let ety = match find(&env.elem_types, key) {
        Some(t) => t.copy(),
        None => Type::Integer,
    };
    if matches!(ety, Type::Real) {
        let r = emit(code, Instr::FloatBits(ld));
        (addr, r, Type::Real)
    } else {
        (addr, ld, ety)
    }
}

fn result_kinds_exec(ps: &Vec<(String, Type, bool)>, rt: &Option<Type>, has_ret: bool) -> (r: Vec<MKind>)
    ensures
        r@ == result_kinds(ps@, *rt, has_ret),
{
    let mut out: Vec<MKind> = Vec::new();
    if has_ret {
        let k = match rt {
            Some(t) => kind_of_type(t),
            None => MKind::Int,
        };
        out.push(k);
    }
    let ghost head = out@;
    let mut j: usize = 0;
    assert(head + byref_kinds(ps@, 0) == out@ + byref_kinds(ps@, 0));
    while j < ps.len()
        invariant
            j <= ps@.len(),
            head + byref_kinds(ps@, 0) == out@ + byref_kinds(ps@, j as int),
        decreases ps@.len() - j,
    {
        if ps[j].2 {
            let ghost before = out@;
            out.push(kind_of_type(&ps[j].1));
            assert(before + byref_kinds(ps@, j as int) =~= out@ + byref_kinds(ps@, j + 1));
        }
        j += 1;
    }
    assert(out@ + byref_kinds(ps@, j as int) =~= out@);
    assert(head =~= (if has_ret { seq![kind_of(ret_type(*rt))] } else { Seq::<MKind>::empty() }));
    out
}

fn coerce_exec(code: &mut Vec<Instr>, v: usize, t: &Type, et: &Type) -> (r: usize)
    ensures
        (code_view(final(code)@), r) == coerce_code(code_view(old(code)@), v, t@, et@),
{
    let et_real = matches!(et, Type::Real);
    if et_real && matches!(t, Type::Integer) {
        emit(code, Instr::FromInt(v))
    } else if !et_real && matches!(t, Type::Real) {
        emit(code, Instr::ToIntSat(v))
    } else {
        v
    }
}

fn mkinds_exec(ks: &Vec<ValueKind>) -> (r: Vec<MKind>)
    ensures
        r@ == mkinds(ks@),
{
    let mut out: Vec<MKind> = Vec::new();
    let mut i: usize = 0;
    while i < ks.len()
        invariant
            i <= ks@.len(),
            out@ == mkinds(ks@.subrange(0, i as int)),
        decreases ks@.len() - i,
    {
        let k = match ks[i] {
            ValueKind::I64 => MKind::Int,
            ValueKind::F64 => MKind::Float,
        };
        out.push(k);
        assert(mkinds(ks@.subrange(0, i + 1)) =~= mkinds(ks@.subrange(0, i as int)).push(mkind(ks@[i as int])));
        i += 1;
    }
    assert(ks@.subrange(0, i as int) =~= ks@);
    out
}

fn hidden_exec(code: &mut Vec<Instr>, env: &LowerEnv, aps: &Vec<(usize, usize)>, args: &Vec<Expression>, vals: &mut Vec<usize>)
    ensures
        (code_view(final(code)@), final(vals)@) == hidden_code(aps@, 0, exprs_view(args@), env@, code_view(old(code)@), old(vals)@),
{
    let ghost av = exprs_view(args@);
    proof {
        lemma_exprs_view(args@);
    }
    let ghost target = hidden_code(aps@, 0, av, env@, code_view(code@), vals@);
    let mut k: usize = 0;
    while k < aps.len()
        invariant
            k <= aps@.len(),
            av == exprs_view(args@),
            av.len() == args@.len(),
            forall|i: int| 0 <= i < args@.len() ==> #[trigger] av[i] == args@[i]@,
            target == hidden_code(aps@, k as int, av, env@, code_view(code@), vals@),
        decreases aps@.len() - k,
    {
        let pi = aps[k].0;
        let cnt = aps[k].1;
        if pi < args.len() {
            assert(av[pi as int] == args@[pi as int]@);
            match &args[pi] {
                Expression::Variable(vn) => {
                    let lk = to_lowercase(vn);
                    match find(&env.array_dims, &lk) {
                        Some(d) => {
                            let m = if cnt < d.len() {
                                cnt
                            } else {
                                d.len()
                            };
                            copy_ids(d, m, vals);
                        },
                        None => match find(&env.const_dims, &lk) {
                            Some(sz) => {
                                let m = if cnt < sz.len() {
                                    cnt
                                } else {
                                    sz.len()
                                };
                                consts_exec(code, sz, m, vals);
                            },
                            None => ones_exec(code, cnt, vals),
                        },
                    }
                },
                _ => ones_exec(code, cnt, vals),
            }
        }
        k += 1;
    }
}

fn writeback_exec(
    code: &mut Vec<Instr>,
    env: &LowerEnv,
    ps: &Vec<(String, Type, bool)>,
    ri0: usize,
    args: &Vec<Expression>,
    addrs: &Vec<Option<usize>>,
    call: usize,
)
    ensures
        code_view(final(code)@) == writeback_code(ps@, 0, ri0, exprs_view(args@), addrs@, env@, call, code_view(old(code)@)),
{
    let ghost av = exprs_view(args@);
    proof {
        lemma_exprs_view(args@);
    }
    let ghost target = writeback_code(ps@, 0, ri0, av, addrs@, env@, call, code_view(code@));
    let mut j: usize = 0;
    let mut ri = ri0;
    while j < ps.len()
        invariant
            j <= ps@.len(),
            av == exprs_view(args@),
            av.len() == args@.len(),
            forall|i: int| 0 <= i < args@.len() ==> #[trigger] av[i] == args@[i]@,
            target == writeback_code(ps@, j as int, ri, av, addrs@, env@, call, code_view(code@)),
        decreases ps@.len() - j,
    {
        if ps[j].2 {
            let pk = kind_of_type(&ps[j].1);
            if j < args.len() {
                assert(av[j as int] == args@[j as int]@);
                match &args[j] {
                    Expression::Variable(vn) => match find(&env.vars, vn) {
                        Some(vt) => {
                            let nv = emit(code, Instr::CallResult(call, ri));
                            let vk = kind_of_type(&vt.1);
                            let x = if vk == MKind::Int && pk == MKind::Float {
                                emit(code, Instr::ToIntSat(nv))
                            } else if vk == MKind::Float && pk == MKind::Int {
                                emit(code, Instr::FromInt(nv))
                            } else {
                                nv
                            };
                            emit(code, Instr::DefVar(vt.0, x));
                        },
                        None => {},
                    },
                    Expression::Index { .. } => {
                        if j < addrs.len() {
                            match addrs[j] {
                                Some(ad) => {
                                    let nv = emit(code, Instr::CallResult(call, ri));
                                    let x = if pk == MKind::Float {
                                        emit(code, Instr::IntBits(nv))
                                    } else {
                                        nv
                                    };
                                    emit(code, Instr::Store(x, ad));
                                },
                                None => {},
                            }
                        }
                    },
                    _ => {},
                }
            }
            ri = if ri < usize::MAX {
                ri + 1
            } else {
                0
            };
        }
        j += 1;
    }
}

/// Lowers an expression: appends its instructions to `code` and gives the
/// value that holds the result, with the result's type.
pub fn lower_expr(e: &Expression, env: &LowerEnv, code: &mut Vec<Instr>) -> (r: (usize, Type))
    ensures
        (code_view(final(code)@), r.0, r.1@) == expr_code(e@, env@, code_view(old(code)@)),
    decreases e, 0int,
{
    match e {
        Expression::Literal(l) => match l {
            Literal::Integer(n) => (emit(code, Instr::IConst(*n)), Type::Integer),
            Literal::Real(t) => (emit(code, Instr::FConst(crate::ast::copy_string(t))), Type::Real),
            Literal::Boolean(b) => (emit(code, Instr::IConst(if *b { 1 } else { 0 })), Type::Boolean),
            Literal::String(t) => (emit(code, Instr::StrConst(crate::ast::copy_string(t))), Type::String),
        },
        Expression::Variable(n) => match find(&env.vars, n) {
            Some(vt) => (emit(code, Instr::UseVar(vt.0, kind_of_type(&vt.1))), vt.1.copy()),
            None => (emit(code, Instr::IConst(0)), Type::Integer),
        },
        Expression::Binary { left, op, right } => {
            let (lv, lt) = lower_expr(left, env, code);
            let (rv, rt) = lower_expr(right, env, code);
            binary_exec(code, *op, lv, &lt, rv, &rt)
        },
        Expression::Unary { op, expr } => {
            let (v, t) = lower_expr(expr, env, code);
            unary_exec(code, *op, v, &t)
        },
        Expression::Index { array, indices } => {
            proof {
                assert(decreases_to!(*e => *indices));
            }
            let (_, v, t) = lower_index(array, indices, env, code);
            (v, t)
        },
        Expression::Call { function, args } => {
            proof {
                assert(decreases_to!(*e => *args));
            }
            lower_call(function, args, env, code)
        },
    }
}

/// Lowers a call (see [`call_code`]).
pub fn lower_call(function: &String, args: &Vec<Expression>, env: &LowerEnv, code: &mut Vec<Instr>) -> (r: (usize, Type))
    ensures
        (code_view(final(code)@), r.0, r.1@) == call_code(function@, exprs_view(args@), env@, code_view(old(code)@)),
    decreases args, 1int,
{
    let key = to_lowercase(function);
    match lookup_builtin(key.as_str()) {
        Some(b) => {
            let vals = lower_builtin_args(args, &b.params, env, code);
            let ps = mkinds_exec(&b.params);
            let rk = match b.ret {
                ValueKind::I64 => MKind::Int,
                ValueKind::F64 => MKind::Float,
            };
            let r = emit(code, Instr::CallRuntime(String::from_str(b.runtime_name), ps, Some(rk), vals));
            (r, b.ret_ast)
        },
        None => match find(&env.functions, &key) {
            Some(info) => {
                let (vals, addrs) = lower_user_args(args, &info.0, env, code);
                let mut vals2 = vals;
                match find(&env.array_params, &key) {
                    Some(aps) => hidden_exec(code, env, aps, args, &mut vals2),
                    None => {},
                }
                let rk = result_kinds_exec(&info.0, &info.1, info.2);
                let call = emit(code, Instr::CallUser(crate::ast::copy_string(&key), vals2, rk));
                let (rv, rt) = if info.2 {
                    let t = match &info.1 {
                        Some(t) => t.copy(),
                        None => Type::Integer,
                    };
                    (emit(code, Instr::CallResult(call, 0)), t)
                } else {
                    (emit(code, Instr::IConst(0)), Type::Integer)
                };
                writeback_exec(code, env, &info.0, if info.2 { 1 } else { 0 }, args, &addrs, call);
                (rv, rt)
            },
            None => (emit(code, Instr::IConst(0)), Type::Integer),
        },
    }
}

/// Lowers an indexed access: the address of the element, the value read
/// and its type.
fn lower_index(array: &String, indices: &Vec<Expression>, env: &LowerEnv, code: &mut Vec<Instr>) -> (r: (usize, usize, Type))
    ensures
        (code_view(final(code)@), r.0, r.1, r.2@) == index_code(array@, exprs_view(indices@), env@, code_view(old(code)@)),
    decreases indices, 1int,
{
    let base = base_exec(code, env, array);
    let ids = lower_exprs(indices, env, code);
    let key = to_lowercase(array);
    load_exec(code, env, &key, base, &ids)
}

/// Lowers expressions in order, giving their values.
fn lower_exprs(es: &Vec<Expression>, env: &LowerEnv, code: &mut Vec<Instr>) -> (r: Vec<usize>)
    ensures
        (code_view(final(code)@), r@) == exprs_code(exprs_view(es@), 0, env@, code_view(old(code)@), Seq::empty()),
    decreases es, 0int,
{
    let ghost sv = exprs_view(es@);
    proof {
        lemma_exprs_view(es@);
    }
    let mut ids: Vec<usize> = Vec::new();
    let ghost target = exprs_code(sv, 0, env@, code_view(code@), ids@);
    let mut i: usize = 0;
    while i < es.len()
        invariant
            i <= es@.len(),
            sv == exprs_view(es@),
            sv.len() == es@.len(),
            forall|k: int| 0 <= k < es@.len() ==> #[trigger] sv[k] == es@[k]@,
            target == exprs_code(sv, i as int, env@, code_view(code@), ids@),
            forall|k: int| 0 <= k < es@.len() ==> decreases_to!(*es => #[trigger] es@[k]),
        decreases es@.len() - i,
    {
        assert(sv[i as int] == es@[i as int]@);
        let (v, _) = lower_expr(&es[i], env, code);
        ids.push(v);
        i += 1;
    }
    assert(target == (code_view(code@), ids@));
    ids
}

fn lower_builtin_args(args: &Vec<Expression>, ps: &Vec<ValueKind>, env: &LowerEnv, code: &mut Vec<Instr>) -> (r: Vec<usize>)
    ensures
        (code_view(final(code)@), r@) == builtin_args_code(exprs_view(args@), 0, ps@, env@, code_view(old(code)@), Seq::empty()),
    decreases args, 0int,
{
    let ghost sv = exprs_view(args@);
    proof {
        lemma_exprs_view(args@);
    }
    let mut vals: Vec<usize> = Vec::new();
    let ghost target = builtin_args_code(sv, 0, ps@, env@, code_view(code@), vals@);
    let mut i: usize = 0;
    while i < args.len()
        invariant
            i <= args@.len(),
            sv == exprs_view(args@),
            sv.len() == args@.len(),
            forall|k: int| 0 <= k < args@.len() ==> #[trigger] sv[k] == args@[k]@,
            target == builtin_args_code(sv, i as int, ps@, env@, code_view(code@), vals@),
            forall|k: int| 0 <= k < args@.len() ==> decreases_to!(*args => #[trigger] args@[k]),
        decreases args@.len() - i,
    {
        assert(sv[i as int] == args@[i as int]@);
        let (v, t) = lower_expr(&args[i], env, code);
        let v2 = if i < ps.len() && ps[i] == ValueKind::F64 && matches!(t, Type::Integer) {
            emit(code, Instr::FromInt(v))
        } else {
            v
        };
        vals.push(v2);
        i += 1;
    }
    vals
}

fn lower_user_args(args: &Vec<Expression>, ps: &Vec<(String, Type, bool)>, env: &LowerEnv, code: &mut Vec<Instr>) -> (r: (Vec<usize>, Vec<Option<usize>>))
    ensures
        (code_view(final(code)@), r.0@, r.1@) == user_args_code(exprs_view(args@), 0, ps@, env@, code_view(old(code)@), Seq::empty(), Seq::empty()),
    decreases args, 0int,
{
    let ghost sv = exprs_view(args@);
    proof {
        lemma_exprs_view(args@);
    }
    let mut vals: Vec<usize> = Vec::new();
    let mut addrs: Vec<Option<usize>> = Vec::new();
    let ghost target = user_args_code(sv, 0, ps@, env@, code_view(code@), vals@, addrs@);
    let mut i: usize = 0;
    while i < args.len()
        invariant
            i <= args@.len(),
            sv == exprs_view(args@),
            sv.len() == args@.len(),
            forall|k: int| 0 <= k < args@.len() ==> #[trigger] sv[k] == args@[k]@,
            target == user_args_code(sv, i as int, ps@, env@, code_view(code@), vals@, addrs@),
            forall|k: int| 0 <= k < args@.len() ==> decreases_to!(*args => #[trigger] args@[k]),
        decreases args@.len() - i,
    {
        assert(sv[i as int] == args@[i as int]@);
        let (v, t, ad) = match &args[i] {
            Expression::Index { array, indices } => {
                proof {
                    assert(decreases_to!(*args => args@[i as int]));
                    assert(decreases_to!(args@[i as int] => *indices));
                }
                let (ad, v, t) = lower_index(array, indices, env, code);
                (v, t, Some(ad))
            },
            _ => {
                let (v, t) = lower_expr(&args[i], env, code);
                (v, t, None)
            },
        };
        let v2 = if i < ps.len() {
            coerce_exec(code, v, &t, &ps[i].1)
        } else {
            v
        };
        vals.push(v2);
        addrs.push(ad);
        i += 1;
    }
    (vals, addrs)
}

// ---------------------------------------------------------------------
// Lowering of statements: the model
// ---------------------------------------------------------------------
/// The variable `name`, declared with the kind of `t` when it is new: the
/// state after, the code, the variable's number and its kind.
pub open spec fn ensure_var(env: SpecEnv, c: Seq<SpecInstr>, name: Seq<char>, t: SpecType) -> (SpecEnv, Seq<SpecInstr>, usize, MKind) {
    if env.vars.contains_key(name) {
        (env, c, env.vars[name].0, kind_of(env.vars[name].1))
    } else {
        let v = env.nvars as usize;
        (
            SpecEnv { vars: env.vars.insert(name, (v, t)), nvars: env.nvars + 1, ..env },
            c.push(SpecInstr::DeclareVar(v, kind_of(t))),
            v,
            kind_of(t),
        )
    }
}

/// `Definir`: each new variable declared and set to zero.
pub open spec fn define_code(names: Seq<Seq<char>>, i: int, t: SpecType, env: SpecEnv, c: Seq<SpecInstr>) -> (SpecEnv, Seq<SpecInstr>)
    decreases names.len() - i,
{
    if i < 0 || i >= names.len() {
        (env, c)
    } else if env.vars.contains_key(names[i]) {
        define_code(names, i + 1, t, env, c)
    } else {
        let (env1, c1, v, _) = ensure_var(env, c, names[i], t);
        let (c2, z) = if t == SpecType::Real {
            emit_spec(c1, SpecInstr::FConst("0.0"@))
        } else {
            emit_spec(c1, SpecInstr::IConst(0))
        };
        define_code(names, i + 1, t, env1, c2.push(SpecInstr::DefVar(v, z)))
    }
}

/// The product of the values from `i` on, times `acc`.
pub open spec fn prod_code(c: Seq<SpecInstr>, ids: Seq<usize>, i: int, acc: usize) -> (Seq<SpecInstr>, usize)
    decreases ids.len() - i,
{
    if i < 0 || i >= ids.len() {
        (c, acc)
    } else {
        prod_code(c.push(SpecInstr::IMul(acc, ids[i])), ids, i + 1, c.len() as usize)
    }
}

/// A value of kind `from` converted to the kind `to` (integer or float).
pub open spec fn convert_code(c: Seq<SpecInstr>, v: usize, from: MKind, to: MKind) -> (Seq<SpecInstr>, usize) {
    if to == MKind::Float && from == MKind::Int {
        emit_spec(c, SpecInstr::FromInt(v))
    } else if to == MKind::Int && from == MKind::Float {
        emit_spec(c, SpecInstr::ToIntSat(v))
    } else {
        (c, v)
    }
}

pub open spec fn print_name(t: SpecType) -> Seq<char> {
    if t == SpecType::Str {
        "print_str"@
    } else if t == SpecType::Real {
        "print_real"@
    } else {
        "print_int"@
    }
}

/// `Escribir`: each value printed by the routine of its type.
pub open spec fn write_code(es: Seq<SpecExpr>, i: int, env: SpecEnv, c: Seq<SpecInstr>) -> Seq<SpecInstr>
    decreases es.len() - i,
{
    if i < 0 || i >= es.len() {
        c
    } else {
        let (c1, v, t) = expr_code(es[i], env, c);
        write_code(es, i + 1, env, c1.push(SpecInstr::CallRuntime(print_name(t), seq![kind_of(t)], Some(MKind::Word), seq![v])))
    }
}

pub open spec fn read_name(k: MKind) -> Seq<char> {
    if k == MKind::Float {
        "read_real"@
    } else {
        "read_int"@
    }
}

/// `Leer`: a variable (declared as an integer when new) gets a value read
/// in its kind; an array element gets a value read in its element kind,
/// stored at its address.
pub open spec fn read_code(ts: Seq<SpecExpr>, i: int, env: SpecEnv, c: Seq<SpecInstr>) -> (SpecEnv, Seq<SpecInstr>)
    decreases ts.len() - i,
{
    if i < 0 || i >= ts.len() {
        (env, c)
    } else {
        match ts[i] {
            SpecExpr::Var(n) => {
                let (env1, c1, v, k) = ensure_var(env, c, n, SpecType::Integer);
                let rk = if k == MKind::Float { MKind::Float } else { MKind::Int };
                let (c2, r) = emit_spec(c1, SpecInstr::CallRuntime(read_name(k), Seq::empty(), Some(rk), Seq::empty()));
                read_code(ts, i + 1, env1, c2.push(SpecInstr::DefVar(v, r)))
            },
            SpecExpr::Index(a, idx) => {
                let is_real = lookup(env.elem_types, a) == Some(SpecType::Real);
                let k = if is_real { MKind::Float } else { MKind::Int };
                let (c1, r) = emit_spec(c, SpecInstr::CallRuntime(read_name(k), Seq::empty(), Some(k), Seq::empty()));
                let (c2, x) = if is_real {
                    emit_spec(c1, SpecInstr::IntBits(r))
                } else {
                    (c1, r)
                };
                let (c3, base) = match lookup(env.vars, a) {
                    Some(vt) => emit_spec(c2, SpecInstr::UseVar(vt.0, kind_of(vt.1))),
                    None => emit_spec(c2, SpecInstr::IConst(0)),
                };
                let (c4, ids) = exprs_code(idx, 0, env, c3, Seq::empty());
                let (c5, addr) = addr_code(c4, env, lowercase(a), base, ids);
                read_code(ts, i + 1, env, c5.push(SpecInstr::Store(x, addr)))
            },
            _ => read_code(ts, i + 1, env, c),
        }
    }
}

pub open spec fn runtime0(c: Seq<SpecInstr>, name: Seq<char>) -> Seq<SpecInstr> {
    c.push(SpecInstr::CallRuntime(name, Seq::empty(), Some(MKind::Word), Seq::empty()))
}

/// The code of a statement, with the state after it.
pub open spec fn stmt_code(st: SpecStmt, env: SpecEnv, c: Seq<SpecInstr>) -> (SpecEnv, Seq<SpecInstr>)
    decreases st, 0int,
{
    match st {
        SpecStmt::Define(names, t) => define_code(names, 0, t, env, c),
        SpecStmt::Assign(target, value) => {
            let (c1, v, t) = expr_code(value, env, c);
            let (env1, c2, var, k) = ensure_var(env, c1, target, t);
            let (c3, x) = convert_code(c2, v, kind_of(t), k);
            (env1, c3.push(SpecInstr::DefVar(var, x)))
        },
        SpecStmt::Dimension(name, sizes) => {
            let (c1, ids) = exprs_code(sizes, 0, env, c, Seq::empty());
            let (c2, total) = if ids.len() == 0 {
                emit_spec(c1, SpecInstr::IConst(0))
            } else {
                prod_code(c1, ids, 1, ids[0])
            };
            let env1 = SpecEnv { array_dims: env.array_dims.insert(lowercase(name), ids), ..env };
            let (c3, ptr) = emit_spec(c2, SpecInstr::CallRuntime("builtin_alloc_array"@, seq![MKind::Int], Some(MKind::Int), seq![total]));
            let (env2, c4, var, _) = ensure_var(env1, c3, name, SpecType::Integer);
            (env2, c4.push(SpecInstr::DefVar(var, ptr)))
        },
        SpecStmt::IndexAssign(a, idx, value) => {
            let key = lowercase(a);
            let (c1, base) = base_code(c, env, a);
            let (c2, ids) = exprs_code(idx, 0, env, c1, Seq::empty());
            let (c3, addr) = addr_code(c2, env, key, base, ids);
            let (c4, v, t) = expr_code(value, env, c3);
            let env1 = if env.elem_types.contains_key(key) {
                env
            } else {
                SpecEnv { elem_types: env.elem_types.insert(key, t), ..env }
            };
            let (c5, x) = if t == SpecType::Real {
                emit_spec(c4, SpecInstr::IntBits(v))
            } else {
                (c4, v)
            };
            (env1, c5.push(SpecInstr::Store(x, addr)))
        },
        SpecStmt::Read(ts) => read_code(ts, 0, env, c),
        SpecStmt::Write(es, nl) => {
            let c1 = write_code(es, 0, env, c);
            (env, runtime0(c1, if nl { "print_newline"@ } else { "flush_stdout"@ }))
        },
        SpecStmt::If(cond, tb, eb) => {
            let (c1, cv, _) = expr_code(cond, env, c);
            let (c2, bt) = emit_spec(c1, SpecInstr::NewBlock);
            let (c3, be) = emit_spec(c2, SpecInstr::NewBlock);
            let (c4, bm) = emit_spec(c3, SpecInstr::NewBlock);
            let c5 = c4.push(SpecInstr::Brif(cv, bt, be)).push(SpecInstr::SwitchTo(bt)).push(SpecInstr::Seal(bt));
            let (env1, c6) = stmts_code(tb, 0, env, c5);
            let c7 = c6.push(SpecInstr::Jump(bm)).push(SpecInstr::SwitchTo(be)).push(SpecInstr::Seal(be));
            let (env2, c8) = match eb {
                Some(b) => stmts_code(b, 0, env1, c7),
                None => (env1, c7),
            };
            (env2, c8.push(SpecInstr::Jump(bm)).push(SpecInstr::SwitchTo(bm)).push(SpecInstr::Seal(bm)))
        },
        SpecStmt::While(cond, body) => {
            let (c1, bh) = emit_spec(c, SpecInstr::NewBlock);
            let (c2, bb) = emit_spec(c1, SpecInstr::NewBlock);
            let (c3, bx) = emit_spec(c2, SpecInstr::NewBlock);
            let c4 = c3.push(SpecInstr::Jump(bh)).push(SpecInstr::SwitchTo(bh));
            let (c5, cv, _) = expr_code(cond, env, c4);
            let c6 = c5.push(SpecInstr::Brif(cv, bb, bx)).push(SpecInstr::SwitchTo(bb)).push(SpecInstr::Seal(bb));
            let (env1, c7) = stmts_code(body, 0, env, c6);
            (env1, c7.push(SpecInstr::Jump(bh)).push(SpecInstr::Seal(bh)).push(SpecInstr::SwitchTo(bx)).push(SpecInstr::Seal(bx)))
        },
        SpecStmt::Repeat(body, until) => {
            let (c1, bb) = emit_spec(c, SpecInstr::NewBlock);
            let (c2, bx) = emit_spec(c1, SpecInstr::NewBlock);
            let c3 = c2.push(SpecInstr::Jump(bb)).push(SpecInstr::SwitchTo(bb));
            let (env1, c4) = stmts_code(body, 0, env, c3);
            let (c5, cv, _) = expr_code(until, env1, c4);
            (env1, c5.push(SpecInstr::Brif(cv, bx, bb)).push(SpecInstr::Seal(bb)).push(SpecInstr::SwitchTo(bx)).push(SpecInstr::Seal(bx)))
        },
        SpecStmt::For(var, start, end, step, body) => {
            let (c1, sv, st) = expr_code(start, env, c);
            let (env1, c2, lv, lk) = ensure_var(env, c1, var, st);
            let (c3, sv2) = convert_code(c2, sv, kind_of(st), lk);
            let c4 = c3.push(SpecInstr::DefVar(lv, sv2));
            let is_real = lk == MKind::Float;
            let (c5, stepv) = match step {
                Some(e) => {
                    let (ca, x, t) = expr_code(e, env1, c4);
                    convert_code(ca, x, kind_of(t), if is_real { MKind::Float } else { MKind::Int })
                },
                None => if is_real {
                    emit_spec(c4, SpecInstr::FConst("1.0"@))
                } else {
                    emit_spec(c4, SpecInstr::IConst(1))
                },
            };
            let (c6, bh) = emit_spec(c5, SpecInstr::NewBlock);
            let (c7, bb) = emit_spec(c6, SpecInstr::NewBlock);
            let (c8, bx) = emit_spec(c7, SpecInstr::NewBlock);
            let c9 = c8.push(SpecInstr::Jump(bh)).push(SpecInstr::SwitchTo(bh));
            let (c10, cur) = emit_spec(c9, SpecInstr::UseVar(lv, lk));
            let (c11, ev, et) = expr_code(end, env1, c10);
            let (c12, ev2) = convert_code(c11, ev, kind_of(et), if is_real { MKind::Float } else { MKind::Int });
            let (c13, cond) = if is_real {
                emit_spec(c12, SpecInstr::FCmp(Cond::Le, cur, ev2))
            } else {
                let (ca, z) = emit_spec(c12, SpecInstr::IConst(0));
                let (cb, sp) = emit_spec(ca, SpecInstr::ICmp(Cond::Gt, stepv, z));
                let (cc, le) = emit_spec(cb, SpecInstr::ICmp(Cond::Le, cur, ev2));
                let (cd, ge) = emit_spec(cc, SpecInstr::ICmp(Cond::Ge, cur, ev2));
                emit_spec(cd, SpecInstr::Select(sp, le, ge))
            };
            let c14 = c13.push(SpecInstr::Brif(cond, bb, bx)).push(SpecInstr::SwitchTo(bb)).push(SpecInstr::Seal(bb));
            let (env2, c15) = stmts_code(body, 0, env1, c14);
            let (c16, ca) = emit_spec(c15, SpecInstr::UseVar(lv, lk));
            let (c17, nx) = emit_spec(c16, if is_real { SpecInstr::FAdd(ca, stepv) } else { SpecInstr::IAdd(ca, stepv) });
            (env2, c17.push(SpecInstr::DefVar(lv, nx)).push(SpecInstr::Jump(bh)).push(SpecInstr::Seal(bh)).push(SpecInstr::SwitchTo(bx)).push(SpecInstr::Seal(bx)))
        },
        SpecStmt::Call(f, args) => {
            let (c1, _, _) = call_code(f, args, env, c);
            (env, c1)
        },
        SpecStmt::ClearScreen => (env, runtime0(c, "builtin_clear_screen"@)),
        SpecStmt::Wait(d, ms) => {
            let (c1, v, _) = expr_code(d, env, c);
            (env, c1.push(SpecInstr::CallRuntime(if ms { "builtin_sleep_millis"@ } else { "builtin_sleep_secs"@ }, seq![MKind::Int], Some(MKind::Word), seq![v])))
        },
        SpecStmt::WaitKey => (env, runtime0(c, "builtin_wait_key"@)),
        SpecStmt::Match(x, cases, d) => {
            let (c1, xv, xt) = expr_code(x, env, c);
            let (c2, bm) = emit_spec(c1, SpecInstr::NewBlock);
            let (env1, c3) = cases_code(cases, 0, env, c2, xv, xt, bm);
            let (env2, c4) = match d {
                Some(b) => stmts_code(b, 0, env1, c3),
                None => (env1, c3),
            };
            (env2, c4.push(SpecInstr::Jump(bm)).push(SpecInstr::SwitchTo(bm)).push(SpecInstr::Seal(bm)))
        },
        _ => (env, c),
    }
}

/// Whether the value `xv` of type `xt` equals the value `cv` of type `ct`:
/// compared as reals when either is real, else as integers.
pub open spec fn case_test_code(c: Seq<SpecInstr>, xv: usize, xt: SpecType, cv: usize, ct: SpecType) -> (Seq<SpecInstr>, usize) {
    if xt == SpecType::Real || ct == SpecType::Real {
        let (c1, a) = convert_code(c, xv, kind_of(xt), MKind::Float);
        let (c2, b) = convert_code(c1, cv, kind_of(ct), MKind::Float);
        emit_spec(c2, SpecInstr::FCmp(Cond::Eq, a, b))
    } else {
        emit_spec(c, SpecInstr::ICmp(Cond::Eq, xv, cv))
    }
}

/// The cases of a `Segun` from `i` on: each compares the value with the
/// case value, runs its body and jumps to `bm` when equal, else goes on
/// with the next case.
pub open spec fn cases_code(
    cases: Seq<(SpecExpr, Seq<SpecStmt>)>,
    i: int,
    env: SpecEnv,
    c: Seq<SpecInstr>,
    xv: usize,
    xt: SpecType,
    bm: usize,
) -> (SpecEnv, Seq<SpecInstr>)
    decreases cases, cases.len() - i,
{
    if i < 0 || i >= cases.len() {
        (env, c)
    } else {
        let (c1, cv, ct) = expr_code(cases[i].0, env, c);
        let (c2, f) = case_test_code(c1, xv, xt, cv, ct);
        let (c3, bc) = emit_spec(c2, SpecInstr::NewBlock);
        let (c4, bn) = emit_spec(c3, SpecInstr::NewBlock);
        let c5 = c4.push(SpecInstr::Brif(f, bc, bn)).push(SpecInstr::SwitchTo(bc)).push(SpecInstr::Seal(bc));
        let (env1, c6) = stmts_code(cases[i].1, 0, env, c5);
        let c7 = c6.push(SpecInstr::Jump(bm)).push(SpecInstr::SwitchTo(bn)).push(SpecInstr::Seal(bn));
        cases_code(cases, i + 1, env1, c7, xv, xt, bm)
    }
}

/// The statements from `i` on, in order.
pub open spec fn stmts_code(ss: Seq<SpecStmt>, i: int, env: SpecEnv, c: Seq<SpecInstr>) -> (SpecEnv, Seq<SpecInstr>)
    decreases ss, ss.len() - i,
{
    if i < 0 || i >= ss.len() {
        (env, c)
    } else {
        let (env1, c1) = stmt_code(ss[i], env, c);
        stmts_code(ss, i + 1, env1, c1)
    }
}

// ---------------------------------------------------------------------
// Lowering of statements: the code
// ---------------------------------------------------------------------
fn ensure_var_exec(env: &mut LowerEnv, code: &mut Vec<Instr>, name: &String, t: &Type) -> (r: (usize, MKind))
    ensures
        (final(env)@, code_view(final(code)@), r.0, r.1) == ensure_var(old(env)@, code_view(old(code)@), name@, t@),
{
    match find(&env.vars, name) {
        Some(vt) => (vt.0, kind_of_type(&vt.1)),
        None => {
            let v = env.vars.len();
            let k = kind_of_type(t);
            emit(code, Instr::DeclareVar(v, k));
            let ghost before = env.vars@;
            env.vars.push((crate::ast::copy_string(name), (v, t.copy())));
            proof {
                assert(env.vars@.drop_last() =~= before);
            }
            (v, k)
        },
    }
}

fn define_exec(names: &Vec<String>, t: &Type, env: &mut LowerEnv, code: &mut Vec<Instr>)
    ensures
        (final(env)@, code_view(final(code)@)) == define_code(strings_view(names@), 0, t@, old(env)@, code_view(old(code)@)),
{
    let ghost nv = strings_view(names@);
    let ghost target = define_code(nv, 0, t@, env@, code_view(code@));
    let mut i: usize = 0;
    while i < names.len()
        invariant
            i <= names@.len(),
            nv == strings_view(names@),
            target == define_code(nv, i as int, t@, env@, code_view(code@)),
        decreases names@.len() - i,
    {
        assert(nv[i as int] == names@[i as int]@);
        let absent = match find(&env.vars, &names[i]) {
            Some(_) => false,
            None => true,
        };
        if absent {
            let (v, _) = ensure_var_exec(env, code, &names[i], t);
            let z = if matches!(t, Type::Real) {
                emit(code, Instr::FConst(String::from_str("0.0")))
            } else {
                emit(code, Instr::IConst(0))
            };
            emit(code, Instr::DefVar(v, z));
        }
        i += 1;
    }
}

fn prod_exec(code: &mut Vec<Instr>, ids: &Vec<usize>) -> (r: usize)
    requires
        ids@.len() > 0,
    ensures
        (code_view(final(code)@), r) == prod_code(code_view(old(code)@), ids@, 1, ids@[0]),
{
    let ghost target = prod_code(code_view(code@), ids@, 1, ids@[0]);
    let mut acc = ids[0];
    let mut i: usize = 1;
    while i < ids.len()
        invariant
            1 <= i <= ids@.len(),
            target == prod_code(code_view(code@), ids@, i as int, acc),
        decreases ids@.len() - i,
    {
        acc = emit(code, Instr::IMul(acc, ids[i]));
        i += 1;
    }
    acc
}

fn convert_exec(code: &mut Vec<Instr>, v: usize, from: MKind, to: MKind) -> (r: usize)
    ensures
        (code_view(final(code)@), r) == convert_code(code_view(old(code)@), v, from, to),
{
    if to == MKind::Float && from == MKind::Int {
        emit(code, Instr::FromInt(v))
    } else if to == MKind::Int && from == MKind::Float {
        emit(code, Instr::ToIntSat(v))
    } else {
        v
    }
}

fn runtime0_exec(code: &mut Vec<Instr>, name: &str)
    ensures
        code_view(final(code)@) == runtime0(code_view(old(code)@), name@),
{
    let ps: Vec<MKind> = Vec::new();
    let args: Vec<usize> = Vec::new();
    assert(ps@ =~= Seq::<MKind>::empty());
    assert(args@ =~= Seq::<usize>::empty());
    emit(code, Instr::CallRuntime(String::from_str(name), ps, Some(MKind::Word), args));
}

fn write_exec(es: &Vec<Expression>, env: &LowerEnv, code: &mut Vec<Instr>)
    ensures
        code_view(final(code)@) == write_code(exprs_view(es@), 0, env@, code_view(old(code)@)),
{
    let ghost sv = exprs_view(es@);
    proof {
        lemma_exprs_view(es@);
    }
    let ghost target = write_code(sv, 0, env@, code_view(code@));
    let mut i: usize = 0;
    while i < es.len()
        invariant
            i <= es@.len(),
            sv == exprs_view(es@),
            sv.len() == es@.len(),
            forall|k: int| 0 <= k < es@.len() ==> #[trigger] sv[k] == es@[k]@,
            target == write_code(sv, i as int, env@, code_view(code@)),
        decreases es@.len() - i,
    {
        assert(sv[i as int] == es@[i as int]@);
        let (v, t) = lower_expr(&es[i], env, code);
        let name = if matches!(t, Type::String) {
            String::from_str("print_str")
        } else if matches!(t, Type::Real) {
            String::from_str("print_real")
        } else {
            String::from_str("print_int")
        };
        let ps = vec![kind_of_type(&t)];
        let args = vec![v];
        assert(ps@ =~= seq![kind_of(t@)]);
        assert(args@ =~= seq![v]);
        emit(code, Instr::CallRuntime(name, ps, Some(MKind::Word), args));
        i += 1;
    }
}

fn read_exec(ts: &Vec<Expression>, env: &mut LowerEnv, code: &mut Vec<Instr>)
    ensures
        (final(env)@, code_view(final(code)@)) == read_code(exprs_view(ts@), 0, old(env)@, code_view(old(code)@)),
{
    let ghost sv = exprs_view(ts@);
    proof {
        lemma_exprs_view(ts@);
    }
    let ghost target = read_code(sv, 0, env@, code_view(code@));
    let mut i: usize = 0;
    while i < ts.len()
        invariant
            i <= ts@.len(),
            sv == exprs_view(ts@),
            sv.len() == ts@.len(),
            forall|k: int| 0 <= k < ts@.len() ==> #[trigger] sv[k] == ts@[k]@,
            target == read_code(sv, i as int, env@, code_view(code@)),
        decreases ts@.len() - i,
    {
        assert(sv[i as int] == ts@[i as int]@);
        let empty_ps: Vec<MKind> = Vec::new();
        let empty_args: Vec<usize> = Vec::new();
        assert(empty_ps@ =~= Seq::<MKind>::empty());
        assert(empty_args@ =~= Seq::<usize>::empty());
        match &ts[i] {
            Expression::Variable(n) => {
                let (v, k) = ensure_var_exec(env, code, n, &Type::Integer);
                let name = if k == MKind::Float {
                    String::from_str("read_real")
                } else {
                    String::from_str("read_int")
                };
                let rk = if k == MKind::Float {
                    MKind::Float
                } else {
                    MKind::Int
                };
                let r = emit(code, Instr::CallRuntime(name, empty_ps, Some(rk), empty_args));
                emit(code, Instr::DefVar(v, r));
            },
            Expression::Index { array, indices } => {
                let is_real = match find(&env.elem_types, array) {
                    Some(t) => matches!(t, Type::Real),
                    None => false,
                };
                let k = if is_real {
                    MKind::Float
                } else {
                    MKind::Int
                };
                let name = if is_real {
                    String::from_str("read_real")
                } else {
                    String::from_str("read_int")
                };
                let r = emit(code, Instr::CallRuntime(name, empty_ps, Some(k), empty_args));
                let x = if is_real {
                    emit(code, Instr::IntBits(r))
                } else {
                    r
                };
                let base = match find(&env.vars, array) {
                    Some(vt) => emit(code, Instr::UseVar(vt.0, kind_of_type(&vt.1))),
                    None => emit(code, Instr::IConst(0)),
                };
                let ids = lower_exprs(indices, env, code);
                let key = to_lowercase(array);
                let addr = addr_exec(code, env, &key, base, &ids);
                emit(code, Instr::Store(x, addr));
            },
            _ => {},
        }
        i += 1;
    }
}

/// Lowers a statement: appends its instructions to `code` and updates the
/// state (new variables, array sizes, element types) as [`stmt_code`]
/// says.
#[verifier::rlimit(100)]
#[verifier::spinoff_prover]
pub fn lower_stmt(st: &Statement, env: &mut LowerEnv, code: &mut Vec<Instr>)
    ensures
        (final(env)@, code_view(final(code)@)) == stmt_code(st@, old(env)@, code_view(old(code)@)),
    decreases st, 1int,
{
    match st {
        Statement::Define { vars, ty } => define_exec(vars, ty, env, code),
        Statement::Assign { target, value } => {
            let (v, t) = lower_expr(value, env, code);
            let (var, k) = ensure_var_exec(env, code, target, &t);
            let x = convert_exec(code, v, kind_of_type(&t), k);
            emit(code, Instr::DefVar(var, x));
        },
        Statement::Dimension { name, sizes } => {
            let ids = lower_exprs(sizes, env, code);
            let total = if ids.len() == 0 {
                emit(code, Instr::IConst(0))
            } else {
                prod_exec(code, &ids)
            };
            let ghost before = env.array_dims@;
            env.array_dims.push((to_lowercase(name), ids));
            proof {
                assert(env.array_dims@.drop_last() =~= before);
            }
            let ps = vec![MKind::Int];
            let args = vec![total];
            assert(ps@ =~= seq![MKind::Int]);
            assert(args@ =~= seq![total]);
            let ptr = emit(code, Instr::CallRuntime(String::from_str("builtin_alloc_array"), ps, Some(MKind::Int), args));
            let (var, _) = ensure_var_exec(env, code, name, &Type::Integer);
            emit(code, Instr::DefVar(var, ptr));
        },
        Statement::IndexAssign { array, indices, value } => {
            let key = to_lowercase(array);
            let base = base_exec(code, env, array);
            let ids = lower_exprs(indices, env, code);
            let addr = addr_exec(code, env, &key, base, &ids);
            let (v, t) = lower_expr(value, env, code);
            let known = match find(&env.elem_types, &key) {
                Some(_) => true,
                None => false,
            };
            if !known {
                let ghost before = env.elem_types@;
                env.elem_types.push((crate::ast::copy_string(&key), t.copy()));
                proof {
                    assert(env.elem_types@.drop_last() =~= before);
                }
            }
            let x = if matches!(t, Type::Real) {
                emit(code, Instr::IntBits(v))
            } else {
                v
            };
            emit(code, Instr::Store(x, addr));
        },
        Statement::Read(targets) => read_exec(targets, env, code),
        Statement::Write(exprs, nl) => {
            write_exec(exprs, env, code);
            if *nl {
                runtime0_exec(code, "print_newline");
            } else {
                runtime0_exec(code, "flush_stdout");
            }
        },
        Statement::If { condition, then_branch, else_branch } => {
            proof {
                assert(decreases_to!(*st => *then_branch));
                assert(decreases_to!(*st => *else_branch));
            }
            let (cv, _) = lower_expr(condition, env, code);
            let bt = emit(code, Instr::NewBlock);
            let be = emit(code, Instr::NewBlock);
            let bm = emit(code, Instr::NewBlock);
            emit(code, Instr::Brif(cv, bt, be));
            emit(code, Instr::SwitchTo(bt));
            emit(code, Instr::Seal(bt));
            lower_stmts(then_branch, env, code);
            emit(code, Instr::Jump(bm));
            emit(code, Instr::SwitchTo(be));
            emit(code, Instr::Seal(be));
            match else_branch {
                Some(b) => {
                    proof {
                        assert(decreases_to!(*else_branch => *b));
                    }
                    lower_stmts(b, env, code);
                },
                None => {},
            }
            emit(code, Instr::Jump(bm));
            emit(code, Instr::SwitchTo(bm));
            emit(code, Instr::Seal(bm));
        },
        Statement::While { condition, body } => {
            proof {
                assert(decreases_to!(*st => *body));
            }
            let bh = emit(code, Instr::NewBlock);
            let bb = emit(code, Instr::NewBlock);
            let bx = emit(code, Instr::NewBlock);
            emit(code, Instr::Jump(bh));
            emit(code, Instr::SwitchTo(bh));
            let (cv, _) = lower_expr(condition, env, code);
            emit(code, Instr::Brif(cv, bb, bx));
            emit(code, Instr::SwitchTo(bb));
            emit(code, Instr::Seal(bb));
            lower_stmts(body, env, code);
            emit(code, Instr::Jump(bh));
            emit(code, Instr::Seal(bh));
            emit(code, Instr::SwitchTo(bx));
            emit(code, Instr::Seal(bx));
        },
        Statement::Repeat { body, until } => {
            proof {
                assert(decreases_to!(*st => *body));
            }
            let bb = emit(code, Instr::NewBlock);
            let bx = emit(code, Instr::NewBlock);
            emit(code, Instr::Jump(bb));
            emit(code, Instr::SwitchTo(bb));
            lower_stmts(body, env, code);
            let (cv, _) = lower_expr(until, env, code);
            emit(code, Instr::Brif(cv, bx, bb));
            emit(code, Instr::Seal(bb));
            emit(code, Instr::SwitchTo(bx));
            emit(code, Instr::Seal(bx));
        },
        Statement::For { var, start, end, step, body } => {
            proof {
                assert(decreases_to!(*st => *body));
            }
            let (sv, stt) = lower_expr(start, env, code);
            let (lv, lk) = ensure_var_exec(env, code, var, &stt);
            let sv2 = convert_exec(code, sv, kind_of_type(&stt), lk);
            emit(code, Instr::DefVar(lv, sv2));
            let is_real = lk == MKind::Float;
            let want = if is_real {
                MKind::Float
            } else {
                MKind::Int
            };
            let stepv = match step {
                Some(e) => {
                    let (x, t) = lower_expr(e, env, code);
                    convert_exec(code, x, kind_of_type(&t), want)
                },
                None => if is_real {
                    emit(code, Instr::FConst(String::from_str("1.0")))
                } else {
                    emit(code, Instr::IConst(1))
                },
            };
            let bh = emit(code, Instr::NewBlock);
            let bb = emit(code, Instr::NewBlock);
            let bx = emit(code, Instr::NewBlock);
            emit(code, Instr::Jump(bh));
            emit(code, Instr::SwitchTo(bh));
            let cur = emit(code, Instr::UseVar(lv, lk));
            let (ev, et) = lower_expr(end, env, code);
            let ev2 = convert_exec(code, ev, kind_of_type(&et), want);
            let cond = if is_real {
                emit(code, Instr::FCmp(Cond::Le, cur, ev2))
            } else {
                let z = emit(code, Instr::IConst(0));
                let sp = emit(code, Instr::ICmp(Cond::Gt, stepv, z));
                let le = emit(code, Instr::ICmp(Cond::Le, cur, ev2));
                let ge = emit(code, Instr::ICmp(Cond::Ge, cur, ev2));
                emit(code, Instr::Select(sp, le, ge))
            };
            emit(code, Instr::Brif(cond, bb, bx));
            emit(code, Instr::SwitchTo(bb));
            emit(code, Instr::Seal(bb));
            lower_stmts(body, env, code);
            let ca = emit(code, Instr::UseVar(lv, lk));
            let nx = if is_real {
                emit(code, Instr::FAdd(ca, stepv))
            } else {
                emit(code, Instr::IAdd(ca, stepv))
            };
            emit(code, Instr::DefVar(lv, nx));
            emit(code, Instr::Jump(bh));
            emit(code, Instr::Seal(bh));
            emit(code, Instr::SwitchTo(bx));
            emit(code, Instr::Seal(bx));
        },
        Statement::Call { function, args } => {
            lower_call(function, args, env, code);
        },
        Statement::ClearScreen => runtime0_exec(code, "builtin_clear_screen"),
        Statement::Wait { duration, milliseconds } => {
            let (v, _) = lower_expr(duration, env, code);
            let name = if *milliseconds {
                String::from_str("builtin_sleep_millis")
            } else {
                String::from_str("builtin_sleep_secs")
            };
            let ps = vec![MKind::Int];
            let args = vec![v];
            assert(ps@ =~= seq![MKind::Int]);
            assert(args@ =~= seq![v]);
            emit(code, Instr::CallRuntime(name, ps, Some(MKind::Word), args));
        },
        Statement::WaitKey => runtime0_exec(code, "builtin_wait_key"),
        Statement::Match { .. } => lower_match(st, env, code),
        _ => {},
    }
}

fn case_test_exec(code: &mut Vec<Instr>, xv: usize, xt: &Type, cv: usize, ct: &Type) -> (r: usize)
    ensures
        (code_view(final(code)@), r) == case_test_code(code_view(old(code)@), xv, xt@, cv, ct@),
{
    if matches!(xt, Type::Real) || matches!(ct, Type::Real) {
        let a = convert_exec(code, xv, kind_of_type(xt), MKind::Float);
        let b = convert_exec(code, cv, kind_of_type(ct), MKind::Float);
        emit(code, Instr::FCmp(Cond::Eq, a, b))
    } else {
        emit(code, Instr::ICmp(Cond::Eq, xv, cv))
    }
}

/// Lowers a `Segun`: the value is compared with each case value in turn.
fn lower_match(st: &Statement, env: &mut LowerEnv, code: &mut Vec<Instr>)
    requires
        st is Match,
    ensures
        (final(env)@, code_view(final(code)@)) == stmt_code(st@, old(env)@, code_view(old(code)@)),
    decreases st, 0int,
{
    match st {
        Statement::Match { expression, cases, default } => {
            proof {
                lemma_cases_view(cases@);
                assert(decreases_to!(*st => *default));
            }
            let (xv, xt) = lower_expr(expression, env, code);
            let bm = emit(code, Instr::NewBlock);
            let ghost cv = cases_view(cases@);
            let ghost target = cases_code(cv, 0, env@, code_view(code@), xv, xt@, bm);
            let mut i: usize = 0;
            while i < cases.len()
                invariant
                    i <= cases@.len(),
                    cv == cases_view(cases@),
                    cv.len() == cases@.len(),
                    forall|j: int|
                        0 <= j < cases@.len() ==> #[trigger] cv[j] == (
                            cases@[j].0@,
                            stmts_view(cases@[j].1@),
                        ),
                    target == cases_code(cv, i as int, env@, code_view(code@), xv, xt@, bm),
                    forall|k: int| 0 <= k < cases@.len() ==> decreases_to!(*st => #[trigger] cases@[k].1),
                decreases cases@.len() - i,
            {
                assert(cv[i as int] == (cases@[i as int].0@, stmts_view(cases@[i as int].1@)));
                let (v, t) = lower_expr(&cases[i].0, env, code);
                let f = case_test_exec(code, xv, &xt, v, &t);
                let bc = emit(code, Instr::NewBlock);
                let bn = emit(code, Instr::NewBlock);
                emit(code, Instr::Brif(f, bc, bn));
                emit(code, Instr::SwitchTo(bc));
                emit(code, Instr::Seal(bc));
                lower_stmts(&cases[i].1, env, code);
                emit(code, Instr::Jump(bm));
                emit(code, Instr::SwitchTo(bn));
                emit(code, Instr::Seal(bn));
                i += 1;
            }
            match default {
                Some(b) => {
                    proof {
                        assert(decreases_to!(*default => *b));
                    }
                    lower_stmts(b, env, code);
                },
                None => {},
            }
            emit(code, Instr::Jump(bm));
            emit(code, Instr::SwitchTo(bm));
            emit(code, Instr::Seal(bm));
        },
        _ => {},
    }
}

/// Lowers statements in order.
pub fn lower_stmts(ss: &Vec<Statement>, env: &mut LowerEnv, code: &mut Vec<Instr>)
    ensures
        (final(env)@, code_view(final(code)@)) == stmts_code(stmts_view(ss@), 0, old(env)@, code_view(old(code)@)),
    decreases ss, 0int,
{
    let ghost sv = stmts_view(ss@);
    proof {
        lemma_stmts_view(ss@);
    }
    let ghost target = stmts_code(sv, 0, env@, code_view(code@));
    let mut i: usize = 0;
    while i < ss.len()
        invariant
            i <= ss@.len(),
            sv == stmts_view(ss@),
            sv.len() == ss@.len(),
            forall|k: int| 0 <= k < ss@.len() ==> #[trigger] sv[k] == ss@[k]@,
            target == stmts_code(sv, i as int, env@, code_view(code@)),
            forall|k: int| 0 <= k < ss@.len() ==> decreases_to!(*ss => #[trigger] ss@[k]),
        decreases ss@.len() - i,
    {
        assert(sv[i as int] == ss@[i as int]@);
        lower_stmt(&ss[i], env, code);
        i += 1;
    }
}

// ---------------------------------------------------------------------
// Lowering of a function of the program
// ---------------------------------------------------------------------
/// The parameters from `i` on become variables holding the function's
/// parameters.
pub open spec fn params_code(ps: Seq<(Seq<char>, SpecType, bool)>, i: int, env: SpecEnv, c: Seq<SpecInstr>) -> (SpecEnv, Seq<SpecInstr>)
    decreases ps.len() - i,
{
    if i < 0 || i >= ps.len() {
        (env, c)
    } else {
        let v = env.nvars as usize;
        let c1 = c.push(SpecInstr::DeclareVar(v, kind_of(ps[i].1)));
        let (c2, p) = emit_spec(c1, SpecInstr::Param(i as usize));
        let env1 = SpecEnv { vars: env.vars.insert(ps[i].0, (v, ps[i].1)), nvars: env.nvars + 1, ..env };
        params_code(ps, i + 1, env1, c2.push(SpecInstr::DefVar(v, p)))
    }
}

/// `n` parameters from the index `first` on.
pub open spec fn param_ids(c: Seq<SpecInstr>, first: usize, n: nat, ids: Seq<usize>) -> (Seq<SpecInstr>, Seq<usize>)
    decreases n,
{
    if n == 0 {
        (c, ids)
    } else {
        param_ids(
            c.push(SpecInstr::Param(first)),
            if first < usize::MAX { (first + 1) as usize } else { 0 },
            (n - 1) as nat,
            ids.push(c.len() as usize),
        )
    }
}

pub open spec fn next_param(first: usize, n: usize) -> usize {
    if first + n <= usize::MAX {
        (first + n) as usize
    } else {
        0
    }
}

/// The dimensions of the array parameters from `k` on are the parameters
/// that follow the declared ones, in order.
pub open spec fn hidden_params_code(
    aps: Seq<(usize, usize)>,
    k: int,
    ps: Seq<(Seq<char>, SpecType, bool)>,
    next: usize,
    env: SpecEnv,
    c: Seq<SpecInstr>,
) -> (SpecEnv, Seq<SpecInstr>)
    decreases aps.len() - k,
{
    if k < 0 || k >= aps.len() {
        (env, c)
    } else if (aps[k].0 as int) < ps.len() {
        let (c1, ids) = param_ids(c, next, aps[k].1 as nat, Seq::empty());
        let env1 = SpecEnv { array_dims: env.array_dims.insert(lowercase(ps[aps[k].0 as int].0), ids), ..env };
        hidden_params_code(aps, k + 1, ps, next_param(next, aps[k].1), env1, c1)
    } else {
        hidden_params_code(aps, k + 1, ps, next, env, c)
    }
}

/// The values of the parameters passed by reference, from `j` on.
pub open spec fn byref_returns_code(ps: Seq<(Seq<char>, SpecType, bool)>, j: int, env: SpecEnv, c: Seq<SpecInstr>, vals: Seq<usize>) -> (Seq<SpecInstr>, Seq<usize>)
    decreases ps.len() - j,
{
    if j < 0 || j >= ps.len() {
        (c, vals)
    } else if ps[j].2 && env.vars.contains_key(ps[j].0) {
        let vt = env.vars[ps[j].0];
        byref_returns_code(ps, j + 1, env, c.push(SpecInstr::UseVar(vt.0, kind_of(vt.1))), vals.push(c.len() as usize))
    } else {
        byref_returns_code(ps, j + 1, env, c, vals)
    }
}

pub open spec fn spec_ret_type(rt: Option<SpecType>) -> SpecType {
    match rt {
        Some(t) => t,
        None => SpecType::Integer,
    }
}

/// The code of a function of the program: its parameters become
/// variables, its return variable is declared and set to zero, the
/// dimensions of its array parameters are taken from the parameters that
/// follow the declared ones, then the body runs and the function returns
/// its return variable and the parameters passed by reference.
pub open spec fn function_code(f: SpecFunction, env: SpecEnv, c: Seq<SpecInstr>) -> (SpecEnv, Seq<SpecInstr>) {
    let c1 = c.push(SpecInstr::EntryBlock);
    let (env1, c2) = params_code(f.params, 0, env, c1);
    let (env2, c3) = match f.return_var {
        Some(rv) => {
            let v = env1.nvars as usize;
            let t = spec_ret_type(f.return_type);
            let ca = c2.push(SpecInstr::DeclareVar(v, kind_of(t)));
            let (cb, z) = if t == SpecType::Real {
                emit_spec(ca, SpecInstr::FConst("0.0"@))
            } else {
                emit_spec(ca, SpecInstr::IConst(0))
            };
            (SpecEnv { vars: env1.vars.insert(rv, (v, t)), nvars: env1.nvars + 1, ..env1 }, cb.push(SpecInstr::DefVar(v, z)))
        },
        None => (env1, c2),
    };
    let key = lowercase(f.name);
    let aps = if env2.array_params.contains_key(key) {
        env2.array_params[key]
    } else {
        Seq::empty()
    };
    let (env3, c4) = hidden_params_code(aps, 0, f.params, f.params.len() as usize, env2, c3);
    let (env4, c5) = stmts_code(f.body, 0, env3, c4);
    let (c6, vals) = match f.return_var {
        Some(rv) => if env4.vars.contains_key(rv) {
            emit_spec(c5, SpecInstr::UseVar(env4.vars[rv].0, kind_of(env4.vars[rv].1)))
        } else {
            (c5, 0)
        },
        None => (c5, 0),
    };
    let vals0 = match f.return_var {
        Some(rv) => if env4.vars.contains_key(rv) {
            seq![vals]
        } else {
            Seq::empty()
        },
        None => Seq::empty(),
    };
    let (c7, vals2) = byref_returns_code(f.params, 0, env4, c6, vals0);
    (env4, c7.push(SpecInstr::Return(vals2)))
}

/// Lowers a function of the program (see [`function_code`]). `env` holds
/// what is known of the whole program; the function's own variables are
/// added to it.
pub fn lower_function(f: &Function, env: &mut LowerEnv, code: &mut Vec<Instr>)
    ensures
        (final(env)@, code_view(final(code)@)) == function_code(f@, old(env)@, code_view(old(code)@)),
{
    let ghost pv = params_view(f.params@);
    emit(code, Instr::EntryBlock);
    let ghost t1 = params_code(pv, 0, env@, code_view(code@));
    let mut i: usize = 0;
    while i < f.params.len()
        invariant
            i <= f.params@.len(),
            pv == params_view(f.params@),
            t1 == params_code(pv, i as int, env@, code_view(code@)),
        decreases f.params@.len() - i,
    {
        assert(pv[i as int] == (f.params@[i as int].0@, f.params@[i as int].1@, f.params@[i as int].2));
        let v = env.vars.len();
        emit(code, Instr::DeclareVar(v, kind_of_type(&f.params[i].1)));
        let p = emit(code, Instr::Param(i));
        let ghost before = env.vars@;
        env.vars.push((crate::ast::copy_string(&f.params[i].0), (v, f.params[i].1.copy())));
        proof {
            assert(env.vars@.drop_last() =~= before);
        }
        emit(code, Instr::DefVar(v, p));
        i += 1;
    }
    match &f.return_var {
        Some(rv) => {
            let v = env.vars.len();
            let t = match &f.return_type {
                Some(t) => t.copy(),
                None => Type::Integer,
            };
            emit(code, Instr::DeclareVar(v, kind_of_type(&t)));
            let z = if matches!(t, Type::Real) {
                emit(code, Instr::FConst(String::from_str("0.0")))
            } else {
                emit(code, Instr::IConst(0))
            };
            let ghost before = env.vars@;
            env.vars.push((crate::ast::copy_string(rv), (v, t)));
            proof {
                assert(env.vars@.drop_last() =~= before);
            }
            emit(code, Instr::DefVar(v, z));
        },
        None => {},
    }
    let key = to_lowercase(&f.name);
    let aps: Vec<(usize, usize)> = match find(&env.array_params, &key) {
        Some(a) => {
            let mut out: Vec<(usize, usize)> = Vec::new();
            let mut k: usize = 0;
            while k < a.len()
                invariant
                    k <= a@.len(),
                    out@ == a@.subrange(0, k as int),
                decreases a@.len() - k,
            {
                out.push(a[k]);
                assert(a@.subrange(0, k + 1) =~= a@.subrange(0, k as int).push(a@[k as int]));
                k += 1;
            }
            assert(a@.subrange(0, k as int) =~= a@);
            out
        },
        None => {
            let out: Vec<(usize, usize)> = Vec::new();
            assert(out@ =~= Seq::<(usize, usize)>::empty());
            out
        },
    };
    let ghost t3 = hidden_params_code(aps@, 0, pv, f.params@.len() as usize, env@, code_view(code@));
    let mut next: usize = f.params.len();
    let mut k: usize = 0;
    while k < aps.len()
        invariant
            k <= aps@.len(),
            pv == params_view(f.params@),
            t3 == hidden_params_code(aps@, k as int, pv, next, env@, code_view(code@)),
        decreases aps@.len() - k,
    {
        let (pi, cnt) = aps[k];
        if pi < f.params.len() {
            assert(pv[pi as int].0 == f.params@[pi as int].0@);
            let ghost tgt = param_ids(code_view(code@), next, cnt as nat, Seq::empty());
            let mut ids: Vec<usize> = Vec::new();
            let mut n: usize = 0;
            let mut at = next;
            while n < cnt
                invariant
                    n <= cnt,
                    tgt == param_ids(code_view(code@), at, (cnt - n) as nat, ids@),
                decreases cnt - n,
            {
                let v = emit(code, Instr::Param(at));
                ids.push(v);
                at = if at < usize::MAX {
                    at + 1
                } else {
                    0
                };
                n += 1;
            }
            let ghost before = env.array_dims@;
            env.array_dims.push((to_lowercase(&f.params[pi].0), ids));
            proof {
                assert(env.array_dims@.drop_last() =~= before);
            }
            next = if next <= usize::MAX - cnt {
                next + cnt
            } else {
                0
            };
        }
        k += 1;
    }
    lower_stmts(&f.body, env, code);
    let mut vals: Vec<usize> = Vec::new();
    match &f.return_var {
        Some(rv) => match find(&env.vars, rv) {
            Some(vt) => {
                let v = emit(code, Instr::UseVar(vt.0, kind_of_type(&vt.1)));
                vals.push(v);
                assert(vals@ =~= seq![v]);
            },
            None => {
                assert(vals@ =~= Seq::<usize>::empty());
            },
        },
        None => {
            assert(vals@ =~= Seq::<usize>::empty());
        },
    }
    let ghost t7 = byref_returns_code(pv, 0, env@, code_view(code@), vals@);
    let mut j: usize = 0;
    while j < f.params.len()
        invariant
            j <= f.params@.len(),
            pv == params_view(f.params@),
            t7 == byref_returns_code(pv, j as int, env@, code_view(code@), vals@),
        decreases f.params@.len() - j,
    {
        assert(pv[j as int] == (f.params@[j as int].0@, f.params@[j as int].1@, f.params@[j as int].2));
        if f.params[j].2 {
            match find(&env.vars, &f.params[j].0) {
                Some(vt) => {
                    let v = emit(code, Instr::UseVar(vt.0, kind_of_type(&vt.1)));
                    vals.push(v);
                },
                None => {},
            }
        }
        j += 1;
    }
    emit(code, Instr::Return(vals));
}

// ---------------------------------------------------------------------
// Lowering only appends
// ---------------------------------------------------------------------
proof fn lemma_extends_refl(c: Seq<SpecInstr>)
    ensures
        extends(c, c),
{
    assert(c.subrange(0, c.len() as int) =~= c);
}

proof fn lemma_small_helpers_extend(c: Seq<SpecInstr>, env: SpecEnv, op: BinaryOp, uop: UnaryOp, a: usize, b: usize, t: SpecType, u: SpecType, key: Seq<char>, name: Seq<char>, rem: bool, k: MKind, k2: MKind)
    ensures
        extends(flag_code(c, a).0, c),
        extends(text_code(c, a, t).0, c),
        extends(float_op_code(c, op, a, b).0, c),
        extends(safe_div_code(c, a, b, rem).0, c),
        extends(int_op_code(c, op, a, b).0, c),
        extends(unary_code(c, uop, a, t).0, c),
        extends(base_code(c, env, name).0, c),
        extends(coerce_code(c, a, t, u).0, c),
        extends(convert_code(c, a, k, k2).0, c),
        extends(case_test_code(c, a, t, b, u).0, c),
{
    assert(flag_code(c, a).0.subrange(0, c.len() as int) =~= c);
    assert(text_code(c, a, t).0.subrange(0, c.len() as int) =~= c);
    assert(float_op_code(c, op, a, b).0.subrange(0, c.len() as int) =~= c);
    assert(safe_div_code(c, a, b, rem).0.subrange(0, c.len() as int) =~= c);
    assert(int_op_code(c, op, a, b).0.subrange(0, c.len() as int) =~= c);
    assert(unary_code(c, uop, a, t).0.subrange(0, c.len() as int) =~= c);
    assert(base_code(c, env, name).0.subrange(0, c.len() as int) =~= c);
    assert(coerce_code(c, a, t, u).0.subrange(0, c.len() as int) =~= c);
    assert(convert_code(c, a, k, k2).0.subrange(0, c.len() as int) =~= c);
    assert(case_test_code(c, a, t, b, u).0.subrange(0, c.len() as int) =~= c);
}

proof fn lemma_binary_extends(c: Seq<SpecInstr>, op: BinaryOp, lv: usize, lt: SpecType, rv: usize, rt: SpecType)
    ensures
        extends(binary_code(c, op, lv, lt, rv, rt).0, c),
{
    if op == BinaryOp::Add && (lt == SpecType::Str || rt == SpecType::Str) {
        let (c1, ls) = text_code(c, lv, lt);
        let (c2, rs) = text_code(c1, rv, rt);
        let dummy = SpecEnv { vars: Map::empty(), nvars: 0, array_dims: Map::empty(), const_dims: Map::empty(), elem_types: Map::empty(), array_params: Map::empty(), functions: Map::empty() };
        lemma_small_helpers_extend(c, dummy, op, UnaryOp::Neg, lv, rv, lt, rt, Seq::empty(), Seq::empty(), false, MKind::Int, MKind::Int);
        lemma_small_helpers_extend(c1, dummy, op, UnaryOp::Neg, rv, rv, rt, rt, Seq::empty(), Seq::empty(), false, MKind::Int, MKind::Int);
        lemma_extends_trans(c, c1, c2);
        let i = SpecInstr::CallRuntime("builtin_concatenar"@, seq![MKind::Int, MKind::Int], Some(MKind::Int), seq![ls, rs]);
        lemma_extends_push(c2, i);
        lemma_extends_trans(c, c2, c2.push(i));
    } else {
        let fl = lt == SpecType::Real || rt == SpecType::Real || op == BinaryOp::Div || op == BinaryOp::Power;
        let (c1, a) = if lt == SpecType::Integer && fl {
            emit_spec(c, SpecInstr::FromInt(lv))
        } else {
            (c, lv)
        };
        let (c2, b) = if rt == SpecType::Integer && fl {
            emit_spec(c1, SpecInstr::FromInt(rv))
        } else {
            (c1, rv)
        };
        assert(c2.subrange(0, c.len() as int) =~= c);
        let dummy = SpecEnv { vars: Map::empty(), nvars: 0, array_dims: Map::empty(), const_dims: Map::empty(), elem_types: Map::empty(), array_params: Map::empty(), functions: Map::empty() };
        lemma_small_helpers_extend(c2, dummy, op, UnaryOp::Neg, a, b, lt, rt, Seq::empty(), Seq::empty(), false, MKind::Int, MKind::Int);
        lemma_extends_trans(c, c2, binary_code(c, op, lv, lt, rv, rt).0);
    }
}

proof fn lemma_consts_extends(c: Seq<SpecInstr>, s: Seq<i64>, i: int, ids: Seq<usize>)
    ensures
        extends(consts_code(c, s, i, ids).0, c),
    decreases s.len() - i,
{
    if i < 0 || i >= s.len() {
        lemma_extends_refl(c);
    } else {
        let x = SpecInstr::IConst(s[i]);
        lemma_consts_extends(c.push(x), s, i + 1, ids.push(c.len() as usize));
        lemma_extends_push(c, x);
        lemma_extends_trans(c, c.push(x), consts_code(c, s, i, ids).0);
    }
}

proof fn lemma_ones_extends(c: Seq<SpecInstr>, n: nat, ids: Seq<usize>)
    ensures
        extends(ones_code(c, n, ids).0, c),
    decreases n,
{
    if n == 0 {
        lemma_extends_refl(c);
    } else {
        let x = SpecInstr::IConst(1);
        lemma_ones_extends(c.push(x), (n - 1) as nat, ids.push(c.len() as usize));
        lemma_extends_push(c, x);
        lemma_extends_trans(c, c.push(x), ones_code(c, n, ids).0);
    }
}

proof fn lemma_stride_extends(c: Seq<SpecInstr>, s: usize, dims: Seq<usize>, j: int)
    ensures
        extends(stride_code(c, s, dims, j).0, c),
    decreases dims.len() - j,
{
    if j < 0 || j >= dims.len() {
        lemma_extends_refl(c);
    } else {
        let x = SpecInstr::IMul(s, dims[j]);
        lemma_stride_extends(c.push(x), c.len() as usize, dims, j + 1);
        lemma_extends_push(c, x);
        lemma_extends_trans(c, c.push(x), stride_code(c, s, dims, j).0);
    }
}

proof fn lemma_sum_extends(c: Seq<SpecInstr>, dims: Seq<usize>, idx: Seq<usize>, k: int, one: usize, zero: usize, flat: usize)
    ensures
        extends(sum_code(c, dims, idx, k, one, zero, flat).0, c),
    decreases idx.len() - k,
{
    if k < 0 || k >= idx.len() {
        lemma_extends_refl(c);
    } else {
        let iz = c.len() as usize;
        let c1 = c.push(SpecInstr::ISub(idx[k], one));
        let (c2, safe) = if k < dims.len() {
            clamp_code(c1, iz, dims[k])
        } else {
            let neg = c1.len() as usize;
            let c1a = c1.push(SpecInstr::ICmp(Cond::Lt, iz, zero));
            (c1a.push(SpecInstr::Select(neg, zero, iz)), c1a.len() as usize)
        };
        assert(c2.subrange(0, c.len() as int) =~= c);
        let s0 = c2.len() as usize;
        let c3 = c2.push(SpecInstr::IConst(1));
        lemma_extends_push(c2, SpecInstr::IConst(1));
        lemma_stride_extends(c3, s0, dims, k + 1);
        let (c4, stride) = stride_code(c3, s0, dims, k + 1);
        lemma_extends_trans(c2, c3, c4);
        lemma_extends_trans(c, c2, c4);
        let (c5, t) = term_code(c, dims, idx, k, one, zero);
        lemma_extends_push(c4, SpecInstr::IMul(safe, stride));
        lemma_extends_trans(c, c4, c5);
        let x = SpecInstr::IAdd(flat, t);
        lemma_extends_push(c5, x);
        lemma_extends_trans(c, c5, c5.push(x));
        lemma_sum_extends(c5.push(x), dims, idx, k + 1, one, zero, c5.len() as usize);
        lemma_extends_trans(c, c5.push(x), sum_code(c, dims, idx, k, one, zero, flat).0);
    }
}

proof fn lemma_flat_extends(c: Seq<SpecInstr>, dims: Seq<usize>, idx: Seq<usize>)
    ensures
        extends(flat_code(c, dims, idx).0, c),
{
    let c3 = c.push(SpecInstr::IConst(1)).push(SpecInstr::IConst(0)).push(SpecInstr::IConst(0));
    assert(c3.subrange(0, c.len() as int) =~= c);
    lemma_sum_extends(c3, dims, idx, 0, c.len() as usize, (c.len() + 1) as usize, (c.len() + 2) as usize);
    lemma_extends_trans(c, c3, flat_code(c, dims, idx).0);
}

proof fn lemma_addr_load_extends(c: Seq<SpecInstr>, env: SpecEnv, key: Seq<char>, base: usize, ids: Seq<usize>)
    ensures
        extends(addr_code(c, env, key, base, ids).0, c),
        extends(load_code(c, env, key, base, ids).0, c),
{
    let (c1, dims) = dims_code(c, env, key, ids.len());
    if ids.len() == 1 {
        assert(c1.subrange(0, c.len() as int) =~= c);
    } else if env.array_dims.contains_key(key) {
        lemma_extends_refl(c);
    } else if env.const_dims.contains_key(key) {
        lemma_consts_extends(c, env.const_dims[key], 0, Seq::empty());
    } else {
        lemma_extends_refl(c);
    }
    lemma_flat_extends(c1, dims, ids);
    let (c2, flat) = flat_code(c1, dims, ids);
    lemma_extends_trans(c, c1, c2);
    let (c5, addr) = addr_code(c, env, key, base, ids);
    assert(c5.subrange(0, c2.len() as int) =~= c2);
    lemma_extends_trans(c, c2, c5);
    let l = load_code(c, env, key, base, ids).0;
    assert(l.subrange(0, c5.len() as int) =~= c5);
    lemma_extends_trans(c, c5, l);
}

proof fn lemma_hidden_extends(aps: Seq<(usize, usize)>, k: int, args: Seq<SpecExpr>, env: SpecEnv, c: Seq<SpecInstr>, vals: Seq<usize>)
    ensures
        extends(hidden_code(aps, k, args, env, c, vals).0, c),
    decreases aps.len() - k,
{
    if k < 0 || k >= aps.len() {
        lemma_extends_refl(c);
    } else {
        let pi = aps[k].0 as int;
        let cnt = aps[k].1 as int;
        if pi < args.len() {
            match args[pi] {
                SpecExpr::Var(vn) => {
                    let lk = lowercase(vn);
                    if env.array_dims.contains_key(lk) {
                        lemma_extends_refl(c);
                    } else if env.const_dims.contains_key(lk) {
                        let sz = env.const_dims[lk];
                        lemma_consts_extends(c, sz.subrange(0, if cnt < sz.len() { cnt } else { sz.len() as int }), 0, vals);
                    } else {
                        lemma_ones_extends(c, cnt as nat, vals);
                    }
                },
                _ => lemma_ones_extends(c, cnt as nat, vals),
            }
        } else {
            lemma_extends_refl(c);
        }
        let (c1, v1) = if pi < args.len() {
            match args[pi] {
                SpecExpr::Var(vn) => {
                    let lk = lowercase(vn);
                    if env.array_dims.contains_key(lk) {
                        let d = env.array_dims[lk];
                        (c, vals + d.subrange(0, if cnt < d.len() { cnt } else { d.len() as int }))
                    } else if env.const_dims.contains_key(lk) {
                        let sz = env.const_dims[lk];
                        consts_code(c, sz.subrange(0, if cnt < sz.len() { cnt } else { sz.len() as int }), 0, vals)
                    } else {
                        ones_code(c, cnt as nat, vals)
                    }
                },
                _ => ones_code(c, cnt as nat, vals),
            }
        } else {
            (c, vals)
        };
        lemma_hidden_extends(aps, k + 1, args, env, c1, v1);
        lemma_extends_trans(c, c1, hidden_code(aps, k, args, env, c, vals).0);
    }
}

proof fn lemma_writeback_extends(
    ps: Seq<(String, Type, bool)>,
    j: int,
    ri: usize,
    args: Seq<SpecExpr>,
    addrs: Seq<Option<usize>>,
    env: SpecEnv,
    call: usize,
    c: Seq<SpecInstr>,
)
    ensures
        extends(writeback_code(ps, j, ri, args, addrs, env, call, c), c),
    decreases ps.len() - j,
{
    if j < 0 || j >= ps.len() {
        lemma_extends_refl(c);
    } else if !ps[j].2 {
        lemma_writeback_extends(ps, j + 1, ri, args, addrs, env, call, c);
    } else {
        let pk = kind_of(ps[j].1@);
        let c1 = if j < args.len() {
            match args[j] {
                SpecExpr::Var(vn) => match lookup(env.vars, vn) {
                    Some(vt) => {
                        let (c0, nv) = emit_spec(c, SpecInstr::CallResult(call, ri));
                        let vk = kind_of(vt.1);
                        let (ca, x) = if vk == MKind::Int && pk == MKind::Float {
                            emit_spec(c0, SpecInstr::ToIntSat(nv))
                        } else if vk == MKind::Float && pk == MKind::Int {
                            emit_spec(c0, SpecInstr::FromInt(nv))
                        } else {
                            (c0, nv)
                        };
                        ca.push(SpecInstr::DefVar(vt.0, x))
                    },
                    None => c,
                },
                SpecExpr::Index(_, _) => if j < addrs.len() && addrs[j] is Some {
                    let (c0, nv) = emit_spec(c, SpecInstr::CallResult(call, ri));
                    let (ca, x) = if pk == MKind::Float {
                        emit_spec(c0, SpecInstr::IntBits(nv))
                    } else {
                        (c0, nv)
                    };
                    ca.push(SpecInstr::Store(x, addrs[j]->0))
                } else {
                    c
                },
                _ => c,
            }
        } else {
            c
        };
        assert(c1.subrange(0, c.len() as int) =~= c);
        let nri = if ri < usize::MAX { (ri + 1) as usize } else { 0 };
        lemma_writeback_extends(ps, j + 1, nri, args, addrs, env, call, c1);
        lemma_extends_trans(c, c1, writeback_code(ps, j, ri, args, addrs, env, call, c));
    }
}

proof fn lemma_expr_extends(e: SpecExpr, env: SpecEnv, c: Seq<SpecInstr>)
    ensures
        extends(expr_code(e, env, c).0, c),
    decreases e, 0int,
{
    let dummy_op = BinaryOp::Add;
    match e {
        SpecExpr::Lit(_) | SpecExpr::Var(_) => {
            assert(expr_code(e, env, c).0.subrange(0, c.len() as int) =~= c);
        },
        SpecExpr::Binary(l, op, r) => {
            lemma_expr_extends(*l, env, c);
            let (c1, lv, lt) = expr_code(*l, env, c);
            lemma_expr_extends(*r, env, c1);
            let (c2, rv, rt) = expr_code(*r, env, c1);
            lemma_binary_extends(c2, op, lv, lt, rv, rt);
            lemma_extends_trans(c, c1, c2);
            lemma_extends_trans(c, c2, expr_code(e, env, c).0);
        },
        SpecExpr::Unary(op, x) => {
            lemma_expr_extends(*x, env, c);
            let (c1, v, t) = expr_code(*x, env, c);
            lemma_small_helpers_extend(c1, env, dummy_op, op, v, v, t, t, Seq::empty(), Seq::empty(), false, MKind::Int, MKind::Int);
            lemma_extends_trans(c, c1, expr_code(e, env, c).0);
        },
        SpecExpr::Index(a, idx) => {
            lemma_index_extends(a, idx, env, c);
        },
        SpecExpr::Call(f, args) => {
            lemma_call_extends(f, args, env, c);
        },
    }
}

proof fn lemma_call_extends(f: Seq<char>, args: Seq<SpecExpr>, env: SpecEnv, c: Seq<SpecInstr>)
    ensures
        extends(call_code(f, args, env, c).0, c),
    decreases args, args.len() + 1,
{
    let key = lowercase(f);
    match builtin_table(key) {
        Some(b) => {
            lemma_builtin_args_extends(args, 0, b.1, env, c, Seq::empty());
            let (c1, vals) = builtin_args_code(args, 0, b.1, env, c, Seq::empty());
            let i = SpecInstr::CallRuntime(b.0, mkinds(b.1), Some(mkind(b.2)), vals);
            lemma_extends_push(c1, i);
            lemma_extends_trans(c, c1, c1.push(i));
        },
        None => if env.functions.contains_key(key) {
            let info = env.functions[key];
            lemma_user_args_extends(args, 0, info.0, env, c, Seq::empty(), Seq::empty());
            let (c1, vals, addrs) = user_args_code(args, 0, info.0, env, c, Seq::empty(), Seq::empty());
            let aps = if env.array_params.contains_key(key) {
                env.array_params[key]
            } else {
                Seq::empty()
            };
            lemma_hidden_extends(aps, 0, args, env, c1, vals);
            let (c2, vals2) = hidden_code(aps, 0, args, env, c1, vals);
            let (c3, call) = emit_spec(c2, SpecInstr::CallUser(key, vals2, result_kinds(info.0, info.1, info.2)));
            let (c4, rv, rt) = if info.2 {
                (c3.push(SpecInstr::CallResult(call, 0)), c3.len() as usize, ret_type(info.1))
            } else {
                (c3.push(SpecInstr::IConst(0)), c3.len() as usize, SpecType::Integer)
            };
            assert(c4.subrange(0, c2.len() as int) =~= c2);
            lemma_writeback_extends(info.0, 0, if info.2 { 1 } else { 0 }, args, addrs, env, call, c4);
            lemma_extends_trans(c, c1, c2);
            lemma_extends_trans(c, c2, c4);
            lemma_extends_trans(c, c4, call_code(f, args, env, c).0);
        } else {
            assert(call_code(f, args, env, c).0.subrange(0, c.len() as int) =~= c);
        },
    }
}

proof fn lemma_index_extends(a: Seq<char>, idx: Seq<SpecExpr>, env: SpecEnv, c: Seq<SpecInstr>)
    ensures
        extends(index_code(a, idx, env, c).0, c),
    decreases idx, idx.len() + 1,
{
    lemma_small_helpers_extend(c, env, BinaryOp::Add, UnaryOp::Neg, 0, 0, SpecType::Integer, SpecType::Integer, Seq::empty(), a, false, MKind::Int, MKind::Int);
    let (c1, base) = base_code(c, env, a);
    lemma_exprs_extends(idx, 0, env, c1, Seq::empty());
    let (c2, ids) = exprs_code(idx, 0, env, c1, Seq::empty());
    lemma_addr_load_extends(c2, env, lowercase(a), base, ids);
    lemma_extends_trans(c, c1, c2);
    lemma_extends_trans(c, c2, index_code(a, idx, env, c).0);
}

proof fn lemma_exprs_extends(es: Seq<SpecExpr>, i: int, env: SpecEnv, c: Seq<SpecInstr>, ids: Seq<usize>)
    ensures
        extends(exprs_code(es, i, env, c, ids).0, c),
    decreases es, es.len() - i,
{
    if i < 0 || i >= es.len() {
        lemma_extends_refl(c);
    } else {
        lemma_expr_extends(es[i], env, c);
        let (c1, v, _) = expr_code(es[i], env, c);
        lemma_exprs_extends(es, i + 1, env, c1, ids.push(v));
        lemma_extends_trans(c, c1, exprs_code(es, i, env, c, ids).0);
    }
}

proof fn lemma_builtin_args_extends(args: Seq<SpecExpr>, i: int, ps: Seq<ValueKind>, env: SpecEnv, c: Seq<SpecInstr>, vals: Seq<usize>)
    ensures
        extends(builtin_args_code(args, i, ps, env, c, vals).0, c),
    decreases args, args.len() - i,
{
    if i < 0 || i >= args.len() {
        lemma_extends_refl(c);
    } else {
        lemma_expr_extends(args[i], env, c);
        let (c1, v, t) = expr_code(args[i], env, c);
        let (c2, v2) = if i < ps.len() && ps[i] == ValueKind::F64 && t == SpecType::Integer {
            emit_spec(c1, SpecInstr::FromInt(v))
        } else {
            (c1, v)
        };
        assert(c2.subrange(0, c1.len() as int) =~= c1);
        lemma_builtin_args_extends(args, i + 1, ps, env, c2, vals.push(v2));
        lemma_extends_trans(c, c1, c2);
        lemma_extends_trans(c, c2, builtin_args_code(args, i, ps, env, c, vals).0);
    }
}

proof fn lemma_user_args_extends(
    args: Seq<SpecExpr>,
    i: int,
    ps: Seq<(String, Type, bool)>,
    env: SpecEnv,
    c: Seq<SpecInstr>,
    vals: Seq<usize>,
    addrs: Seq<Option<usize>>,
)
    ensures
        extends(user_args_code(args, i, ps, env, c, vals, addrs).0, c),
    decreases args, args.len() - i,
{
    if i < 0 || i >= args.len() {
        lemma_extends_refl(c);
    } else {
        let (c1, v, t, ad) = match args[i] {
            SpecExpr::Index(a, idx) => {
                lemma_index_extends(a, idx, env, c);
                let (c1, ad, v, t) = index_code(a, idx, env, c);
                (c1, v, t, Some(ad))
            },
            _ => {
                lemma_expr_extends(args[i], env, c);
                let (c1, v, t) = expr_code(args[i], env, c);
                (c1, v, t, None)
            },
        };
        let (c2, v2) = if i < ps.len() {
            coerce_code(c1, v, t, ps[i].1@)
        } else {
            (c1, v)
        };
        assert(c2.subrange(0, c1.len() as int) =~= c1);
        lemma_user_args_extends(args, i + 1, ps, env, c2, vals.push(v2), addrs.push(ad));
        lemma_extends_trans(c, c1, c2);
        lemma_extends_trans(c, c2, user_args_code(args, i, ps, env, c, vals, addrs).0);
    }
}

/// Lowering an expression only appends instructions: the code emitted
/// before, and so every value it defines, stays as it was.
pub proof fn law_lowering_expr_appends(e: SpecExpr, env: SpecEnv, c: Seq<SpecInstr>)
    ensures
        c.len() <= expr_code(e, env, c).0.len(),
        expr_code(e, env, c).0.subrange(0, c.len() as int) == c,
{
    lemma_expr_extends(e, env, c);
}

proof fn lemma_define_extends(names: Seq<Seq<char>>, i: int, t: SpecType, env: SpecEnv, c: Seq<SpecInstr>)
    ensures
        extends(define_code(names, i, t, env, c).1, c),
    decreases names.len() - i,
{
    if i < 0 || i >= names.len() {
        lemma_extends_refl(c);
    } else if env.vars.contains_key(names[i]) {
        lemma_define_extends(names, i + 1, t, env, c);
    } else {
        let (env1, c1, v, _) = ensure_var(env, c, names[i], t);
        let (c2, z) = if t == SpecType::Real {
            emit_spec(c1, SpecInstr::FConst("0.0"@))
        } else {
            emit_spec(c1, SpecInstr::IConst(0))
        };
        let c3 = c2.push(SpecInstr::DefVar(v, z));
        assert(c3.subrange(0, c.len() as int) =~= c);
        lemma_define_extends(names, i + 1, t, env1, c3);
        lemma_extends_trans(c, c3, define_code(names, i, t, env, c).1);
    }
}

proof fn lemma_prod_extends(c: Seq<SpecInstr>, ids: Seq<usize>, i: int, acc: usize)
    ensures
        extends(prod_code(c, ids, i, acc).0, c),
    decreases ids.len() - i,
{
    if i < 0 || i >= ids.len() {
        lemma_extends_refl(c);
    } else {
        let x = SpecInstr::IMul(acc, ids[i]);
        lemma_prod_extends(c.push(x), ids, i + 1, c.len() as usize);
        lemma_extends_push(c, x);
        lemma_extends_trans(c, c.push(x), prod_code(c, ids, i, acc).0);
    }
}

proof fn lemma_write_extends(es: Seq<SpecExpr>, i: int, env: SpecEnv, c: Seq<SpecInstr>)
    ensures
        extends(write_code(es, i, env, c), c),
    decreases es.len() - i,
{
    if i < 0 || i >= es.len() {
        lemma_extends_refl(c);
    } else {
        lemma_expr_extends(es[i], env, c);
        let (c1, v, t) = expr_code(es[i], env, c);
        let x = SpecInstr::CallRuntime(print_name(t), seq![kind_of(t)], Some(MKind::Word), seq![v]);
        lemma_extends_push(c1, x);
        lemma_extends_trans(c, c1, c1.push(x));
        lemma_write_extends(es, i + 1, env, c1.push(x));
        lemma_extends_trans(c, c1.push(x), write_code(es, i, env, c));
    }
}

proof fn lemma_read_extends(ts: Seq<SpecExpr>, i: int, env: SpecEnv, c: Seq<SpecInstr>)
    ensures
        extends(read_code(ts, i, env, c).1, c),
    decreases ts.len() - i,
{
    if i < 0 || i >= ts.len() {
        lemma_extends_refl(c);
    } else {
        match ts[i] {
            SpecExpr::Var(n) => {
                let (env1, c1, v, k) = ensure_var(env, c, n, SpecType::Integer);
                let rk = if k == MKind::Float { MKind::Float } else { MKind::Int };
                let (c2, r) = emit_spec(c1, SpecInstr::CallRuntime(read_name(k), Seq::empty(), Some(rk), Seq::empty()));
                let c3 = c2.push(SpecInstr::DefVar(v, r));
                assert(c3.subrange(0, c.len() as int) =~= c);
                lemma_read_extends(ts, i + 1, env1, c3);
                lemma_extends_trans(c, c3, read_code(ts, i, env, c).1);
            },
            SpecExpr::Index(a, idx) => {
                let is_real = lookup(env.elem_types, a) == Some(SpecType::Real);
                let k = if is_real { MKind::Float } else { MKind::Int };
                let (c1, r) = emit_spec(c, SpecInstr::CallRuntime(read_name(k), Seq::empty(), Some(k), Seq::empty()));
                let (c2, x) = if is_real {
                    emit_spec(c1, SpecInstr::IntBits(r))
                } else {
                    (c1, r)
                };
                let (c3, base) = match lookup(env.vars, a) {
                    Some(vt) => emit_spec(c2, SpecInstr::UseVar(vt.0, kind_of(vt.1))),
                    None => emit_spec(c2, SpecInstr::IConst(0)),
                };
                assert(c3.subrange(0, c.len() as int) =~= c);
                lemma_exprs_extends(idx, 0, env, c3, Seq::empty());
                let (c4, ids) = exprs_code(idx, 0, env, c3, Seq::empty());
                lemma_addr_load_extends(c4, env, lowercase(a), base, ids);
                let (c5, addr) = addr_code(c4, env, lowercase(a), base, ids);
                let c6 = c5.push(SpecInstr::Store(x, addr));
                lemma_extends_push(c5, SpecInstr::Store(x, addr));
                lemma_extends_trans(c, c3, c4);
                lemma_extends_trans(c, c4, c5);
                lemma_extends_trans(c, c5, c6);
                lemma_read_extends(ts, i + 1, env, c6);
                lemma_extends_trans(c, c6, read_code(ts, i, env, c).1);
            },
            _ => {
                lemma_read_extends(ts, i + 1, env, c);
            },
        }
    }
}

/// The type of the variable of a `Para` loop: its declared type, or the
/// type of the start value when the loop introduces it.
pub open spec fn for_var_type(var: Seq<char>, start: SpecExpr, env: SpecEnv, c: Seq<SpecInstr>) -> SpecType {
    if env.vars.contains_key(var) {
        env.vars[var].1
    } else {
        expr_code(start, env, c).2
    }
}

/// The storage slot of the variable of a `Para` loop: its own slot when
/// it is already known, else the next free one.
pub open spec fn for_slot(var: Seq<char>, env: SpecEnv) -> usize {
    if env.vars.contains_key(var) {
        env.vars[var].0
    } else {
        env.nvars as usize
    }
}

/// The test of a whole-number `Para` loop with step one at `p`: a
/// conditional branch on a choice that, when the step (the constant 1) is
/// above zero, is whether the loop variable (read from `slot`) is at most
/// the end value, and otherwise whether it is at least the end value.
pub open spec fn int_for_test(r: Seq<SpecInstr>, p: int, slot: usize) -> bool {
    let b = r[p];
    let sel = r[b->Brif_0 as int];
    let gt = r[sel->Select_0 as int];
    let le = r[sel->Select_1 as int];
    let ge = r[sel->Select_2 as int];
    &&& b is Brif
    &&& sel is Select
    &&& gt is ICmp
    &&& gt->ICmp_0 == Cond::Gt
    &&& r[gt->ICmp_1 as int] == SpecInstr::IConst(1)
    &&& r[gt->ICmp_2 as int] == SpecInstr::IConst(0)
    &&& le == SpecInstr::ICmp(Cond::Le, le->ICmp_1, le->ICmp_2)
    &&& r[le->ICmp_1 as int] == SpecInstr::UseVar(slot, MKind::Int)
    &&& ge == SpecInstr::ICmp(Cond::Ge, le->ICmp_1, le->ICmp_2)
}

/// A `Para` loop without `Con Paso` over a whole-number variable steps by
/// one: the lowered loop ends by reading the loop variable, adding the
/// integer constant 1 emitted for the loop, and storing the sum back into
/// the same variable before jumping to the loop test; that test goes on
/// while the variable is at most the end value. So the body runs once for
/// each integer from the start value to the end value.
#[verifier::rlimit(100)]
#[verifier::spinoff_prover]
pub proof fn law_for_without_step_adds_one(
    var: Seq<char>,
    start: SpecExpr,
    end: SpecExpr,
    body: Seq<SpecStmt>,
    env: SpecEnv,
    c: Seq<SpecInstr>,
)
    requires
        for_var_type(var, start, env, c) != SpecType::Real,
        stmt_code(SpecStmt::For(var, start, end, None, body), env, c).1.len() <= usize::MAX,
    ensures
        ({
            let r = stmt_code(SpecStmt::For(var, start, end, None, body), env, c).1;
            let slot = for_slot(var, env);
            let d = r[r.len() - 5];
            let nx = d->DefVar_1;
            let add = r[nx as int];
            let a = add->IAdd_0;
            let one = add->IAdd_1;
            &&& r.len() >= c.len() + 5
            &&& d is DefVar
            &&& d->DefVar_0 == slot
            &&& c.len() <= nx < r.len() - 5
            &&& add is IAdd
            &&& c.len() <= a < nx
            &&& c.len() <= one < nx
            &&& r[a as int] == SpecInstr::UseVar(slot, MKind::Int)
            &&& r[one as int] == SpecInstr::IConst(1)
        }),
        exists|p: int|
            c.len() <= p < stmt_code(SpecStmt::For(var, start, end, None, body), env, c).1.len()
                && #[trigger] int_for_test(stmt_code(SpecStmt::For(var, start, end, None, body), env, c).1, p, for_slot(var, env)),
{
    let z = SpecInstr::NewBlock;
    lemma_expr_extends(start, env, c);
    let (c1, sv, st) = expr_code(start, env, c);
    let (env1, c2, lv, lk) = ensure_var(env, c1, var, st);
    assert(lk == MKind::Int);
    assert(c2.subrange(0, c1.len() as int) =~= c1);
    lemma_small_helpers_extend(c2, env, BinaryOp::Add, UnaryOp::Neg, sv, sv, st, st, Seq::empty(), Seq::empty(), false, kind_of(st), lk);
    let (c3, sv2) = convert_code(c2, sv, kind_of(st), lk);
    let c4 = c3.push(SpecInstr::DefVar(lv, sv2));
    lemma_extends_push(c3, SpecInstr::DefVar(lv, sv2));
    let stepv = c4.len() as usize;
    let c5 = c4.push(SpecInstr::IConst(1));
    lemma_extends_push(c4, SpecInstr::IConst(1));
    let bh = c5.len() as usize;
    let bb = (c5.len() + 1) as usize;
    let bx = (c5.len() + 2) as usize;
    let c9 = c5.push(z).push(z).push(z).push(SpecInstr::Jump(bh)).push(SpecInstr::SwitchTo(bh));
    lemma_tail_extends(c5, z, z, z, SpecInstr::Jump(bh), SpecInstr::SwitchTo(bh));
    let (c10, cur) = emit_spec(c9, SpecInstr::UseVar(lv, lk));
    lemma_extends_push(c9, SpecInstr::UseVar(lv, lk));
    lemma_expr_extends(end, env1, c10);
    let (c11, ev, et) = expr_code(end, env1, c10);
    lemma_small_helpers_extend(c11, env, BinaryOp::Add, UnaryOp::Neg, ev, ev, et, et, Seq::empty(), Seq::empty(), false, kind_of(et), MKind::Int);
    let (c12, ev2) = convert_code(c11, ev, kind_of(et), MKind::Int);
    let (ca0, zz) = emit_spec(c12, SpecInstr::IConst(0));
    let (cb, sp) = emit_spec(ca0, SpecInstr::ICmp(Cond::Gt, stepv, zz));
    let (cc, le) = emit_spec(cb, SpecInstr::ICmp(Cond::Le, cur, ev2));
    let (cd, ge) = emit_spec(cc, SpecInstr::ICmp(Cond::Ge, cur, ev2));
    let (c13, cond) = emit_spec(cd, SpecInstr::Select(sp, le, ge));
    assert(c13.subrange(0, c12.len() as int) =~= c12);
    let c14 = c13.push(SpecInstr::Brif(cond, bb, bx)).push(SpecInstr::SwitchTo(bb)).push(SpecInstr::Seal(bb));
    lemma_tail_extends(c13, SpecInstr::Brif(cond, bb, bx), SpecInstr::SwitchTo(bb), SpecInstr::Seal(bb), z, z);
    lemma_stmts_extends(body, 0, env1, c14);
    let (env2, c15) = stmts_code(body, 0, env1, c14);
    lemma_extends_trans(c5, c9, c10);
    lemma_extends_trans(c5, c10, c11);
    lemma_extends_trans(c5, c11, c12);
    lemma_extends_trans(c5, c12, c13);
    lemma_extends_trans(c5, c13, c14);
    lemma_extends_trans(c5, c14, c15);
    lemma_extends_trans(c, c1, c2);
    lemma_extends_trans(c, c2, c3);
    lemma_extends_trans(c, c3, c4);
    assert(c15[stepv as int] == c5[stepv as int]);
    let ca = c15.len() as usize;
    let c16 = c15.push(SpecInstr::UseVar(lv, lk));
    let nx = c16.len() as usize;
    let c17 = c16.push(SpecInstr::IAdd(ca, stepv));
    let r = c17.push(SpecInstr::DefVar(lv, nx)).push(SpecInstr::Jump(bh)).push(SpecInstr::Seal(bh)).push(SpecInstr::SwitchTo(bx)).push(SpecInstr::Seal(bx));
    assert(stmt_code(SpecStmt::For(var, start, end, None, body), env, c).1 == r);
    assert(r.len() == c15.len() + 7);
    assert(ca as int == c15.len());
    assert(nx as int == c16.len());
    let r1 = c17.push(SpecInstr::DefVar(lv, nx));
    let r2 = r1.push(SpecInstr::Jump(bh));
    let r3 = r2.push(SpecInstr::Seal(bh));
    let r4 = r3.push(SpecInstr::SwitchTo(bx));
    assert(r == r4.push(SpecInstr::Seal(bx)));
    assert forall|i: int| 0 <= i < c17.len() implies r[i] == c17[i] by {
        assert(r1[i] == c17[i]);
        assert(r2[i] == r1[i]);
        assert(r3[i] == r2[i]);
        assert(r4[i] == r3[i]);
    }
    assert(c17[ca as int] == c16[ca as int]);
    assert(c17[stepv as int] == c15[stepv as int]);
    assert(r[stepv as int] == c15[stepv as int]);
    assert(r[ca as int] == SpecInstr::UseVar(lv, lk));
    assert(r[nx as int] == SpecInstr::IAdd(ca, stepv));
    assert(r[r.len() - 5] == SpecInstr::DefVar(lv, nx));
    lemma_extends_trans(c10, c11, c12);
    lemma_extends_trans(c10, c12, c13);
    lemma_extends_trans(c10, c13, c14);
    lemma_extends_trans(c10, c14, c15);
    let pb = c13.len() as int;
    assert forall|i: int| 0 <= i < c14.len() implies r[i] == c14[i] by {
        assert(c15[i] == c14[i]);
        assert(c17[i] == c15[i]);
    }
    assert(c14[pb] == SpecInstr::Brif(cond, bb, bx));
    assert(c14[cond as int] == SpecInstr::Select(sp, le, ge));
    assert(c14[sp as int] == SpecInstr::ICmp(Cond::Gt, stepv, zz));
    assert(c14[zz as int] == SpecInstr::IConst(0));
    assert(c14[le as int] == SpecInstr::ICmp(Cond::Le, cur, ev2));
    assert(c14[ge as int] == SpecInstr::ICmp(Cond::Ge, cur, ev2));
    assert(c14[cur as int] == c10[cur as int]);
    assert(int_for_test(r, pb, lv));
    assert(c.len() <= c4.len());
    assert(c4.len() < c13.len());
    assert(c.len() <= pb < r.len() - 5);
    assert(r[r.len() - 5]->DefVar_1 == nx);
    assert(r[nx as int]->IAdd_1 == stepv);
    assert(lv == for_slot(var, env));
}

/// A `Para` loop without `Con Paso` over a real variable steps by one as
/// well: the lowered loop ends by reading the loop variable, adding the
/// real constant 1.0 emitted for the loop, and storing the sum back into
/// the same variable before jumping to the loop test.
#[verifier::rlimit(100)]
#[verifier::spinoff_prover]
pub proof fn law_real_for_without_step_adds_one(
    var: Seq<char>,
    start: SpecExpr,
    end: SpecExpr,
    body: Seq<SpecStmt>,
    env: SpecEnv,
    c: Seq<SpecInstr>,
)
    requires
        for_var_type(var, start, env, c) == SpecType::Real,
        stmt_code(SpecStmt::For(var, start, end, None, body), env, c).1.len() <= usize::MAX,
    ensures
        ({
            let r = stmt_code(SpecStmt::For(var, start, end, None, body), env, c).1;
            let slot = for_slot(var, env);
            let d = r[r.len() - 5];
            let nx = d->DefVar_1;
            let add = r[nx as int];
            let a = add->FAdd_0;
            let one = add->FAdd_1;
            &&& r.len() >= c.len() + 5
            &&& d is DefVar
            &&& d->DefVar_0 == slot
            &&& c.len() <= nx < r.len() - 5
            &&& add is FAdd
            &&& c.len() <= a < nx
            &&& c.len() <= one < nx
            &&& r[a as int] == SpecInstr::UseVar(slot, MKind::Float)
            &&& r[one as int] == SpecInstr::FConst("1.0"@)
        }),
{
    let z = SpecInstr::NewBlock;
    lemma_expr_extends(start, env, c);
    let (c1, sv, st) = expr_code(start, env, c);
    let (env1, c2, lv, lk) = ensure_var(env, c1, var, st);
    assert(lk == MKind::Float);
    assert(c2.subrange(0, c1.len() as int) =~= c1);
    lemma_small_helpers_extend(c2, env, BinaryOp::Add, UnaryOp::Neg, sv, sv, st, st, Seq::empty(), Seq::empty(), false, kind_of(st), lk);
    let (c3, sv2) = convert_code(c2, sv, kind_of(st), lk);
    let c4 = c3.push(SpecInstr::DefVar(lv, sv2));
    lemma_extends_push(c3, SpecInstr::DefVar(lv, sv2));
    let stepv = c4.len() as usize;
    let c5 = c4.push(SpecInstr::FConst("1.0"@));
    lemma_extends_push(c4, SpecInstr::FConst("1.0"@));
    let bh = c5.len() as usize;
    let bb = (c5.len() + 1) as usize;
    let bx = (c5.len() + 2) as usize;
    let c9 = c5.push(z).push(z).push(z).push(SpecInstr::Jump(bh)).push(SpecInstr::SwitchTo(bh));
    lemma_tail_extends(c5, z, z, z, SpecInstr::Jump(bh), SpecInstr::SwitchTo(bh));
    let (c10, cur) = emit_spec(c9, SpecInstr::UseVar(lv, lk));
    lemma_extends_push(c9, SpecInstr::UseVar(lv, lk));
    lemma_expr_extends(end, env1, c10);
    let (c11, ev, et) = expr_code(end, env1, c10);
    lemma_small_helpers_extend(c11, env, BinaryOp::Add, UnaryOp::Neg, ev, ev, et, et, Seq::empty(), Seq::empty(), false, kind_of(et), MKind::Float);
    let (c12, ev2) = convert_code(c11, ev, kind_of(et), MKind::Float);
    let (c13, cond) = emit_spec(c12, SpecInstr::FCmp(Cond::Le, cur, ev2));
    assert(c13.subrange(0, c12.len() as int) =~= c12);
    let c14 = c13.push(SpecInstr::Brif(cond, bb, bx)).push(SpecInstr::SwitchTo(bb)).push(SpecInstr::Seal(bb));
    lemma_tail_extends(c13, SpecInstr::Brif(cond, bb, bx), SpecInstr::SwitchTo(bb), SpecInstr::Seal(bb), z, z);
    lemma_stmts_extends(body, 0, env1, c14);
    let (env2, c15) = stmts_code(body, 0, env1, c14);
    lemma_extends_trans(c5, c9, c10);
    lemma_extends_trans(c5, c10, c11);
    lemma_extends_trans(c5, c11, c12);
    lemma_extends_trans(c5, c12, c13);
    lemma_extends_trans(c5, c13, c14);
    lemma_extends_trans(c5, c14, c15);
    lemma_extends_trans(c, c1, c2);
    lemma_extends_trans(c, c2, c3);
    lemma_extends_trans(c, c3, c4);
    assert(c15[stepv as int] == c5[stepv as int]);
    let ca = c15.len() as usize;
    let c16 = c15.push(SpecInstr::UseVar(lv, lk));
    let nx = c16.len() as usize;
    let c17 = c16.push(SpecInstr::FAdd(ca, stepv));
    let r = c17.push(SpecInstr::DefVar(lv, nx)).push(SpecInstr::Jump(bh)).push(SpecInstr::Seal(bh)).push(SpecInstr::SwitchTo(bx)).push(SpecInstr::Seal(bx));
    assert(stmt_code(SpecStmt::For(var, start, end, None, body), env, c).1 == r);
    assert(r.len() == c15.len() + 7);
    assert(ca as int == c15.len());
    assert(nx as int == c16.len());
    let r1 = c17.push(SpecInstr::DefVar(lv, nx));
    let r2 = r1.push(SpecInstr::Jump(bh));
    let r3 = r2.push(SpecInstr::Seal(bh));
    let r4 = r3.push(SpecInstr::SwitchTo(bx));
    assert(r == r4.push(SpecInstr::Seal(bx)));
    assert forall|i: int| 0 <= i < c17.len() implies r[i] == c17[i] by {
        assert(r1[i] == c17[i]);
        assert(r2[i] == r1[i]);
        assert(r3[i] == r2[i]);
        assert(r4[i] == r3[i]);
    }
    assert(c17[ca as int] == c16[ca as int]);
    assert(c17[stepv as int] == c15[stepv as int]);
    assert(r[stepv as int] == c15[stepv as int]);
    assert(r[ca as int] == SpecInstr::UseVar(lv, lk));
    assert(r[nx as int] == SpecInstr::FAdd(ca, stepv));
    assert(r[r.len() - 5] == SpecInstr::DefVar(lv, nx));
}

proof fn lemma_tail_extends(c: Seq<SpecInstr>, a: SpecInstr, b: SpecInstr, d: SpecInstr, e: SpecInstr, f: SpecInstr)
    ensures
        extends(c.push(a), c),
        extends(c.push(a).push(b), c),
        extends(c.push(a).push(b).push(d), c),
        extends(c.push(a).push(b).push(d).push(e), c),
        extends(c.push(a).push(b).push(d).push(e).push(f), c),
{
    assert(c.push(a).subrange(0, c.len() as int) =~= c);
    assert(c.push(a).push(b).subrange(0, c.len() as int) =~= c);
    assert(c.push(a).push(b).push(d).subrange(0, c.len() as int) =~= c);
    assert(c.push(a).push(b).push(d).push(e).subrange(0, c.len() as int) =~= c);
    assert(c.push(a).push(b).push(d).push(e).push(f).subrange(0, c.len() as int) =~= c);
}

#[verifier::rlimit(60)]
#[verifier::spinoff_prover]
proof fn lemma_stmt_extends(st: SpecStmt, env: SpecEnv, c: Seq<SpecInstr>)
    ensures
        extends(stmt_code(st, env, c).1, c),
    decreases st, 0int,
{
    let z = SpecInstr::NewBlock;
    match st {
        SpecStmt::Define(names, t) => lemma_define_extends(names, 0, t, env, c),
        SpecStmt::Assign(target, value) => {
            lemma_expr_extends(value, env, c);
            let (c1, v, t) = expr_code(value, env, c);
            let (env1, c2, var, k) = ensure_var(env, c1, target, t);
            assert(c2.subrange(0, c1.len() as int) =~= c1);
            lemma_small_helpers_extend(c2, env, BinaryOp::Add, UnaryOp::Neg, v, v, t, t, Seq::empty(), Seq::empty(), false, kind_of(t), k);
            let (c3, x) = convert_code(c2, v, kind_of(t), k);
            lemma_extends_push(c3, SpecInstr::DefVar(var, x));
            lemma_extends_trans(c, c1, c2);
            lemma_extends_trans(c, c2, c3);
            lemma_extends_trans(c, c3, c3.push(SpecInstr::DefVar(var, x)));
        },
        SpecStmt::Dimension(name, sizes) => {
            lemma_exprs_extends(sizes, 0, env, c, Seq::empty());
            let (c1, ids) = exprs_code(sizes, 0, env, c, Seq::empty());
            let (c2, total) = if ids.len() == 0 {
                emit_spec(c1, SpecInstr::IConst(0))
            } else {
                prod_code(c1, ids, 1, ids[0])
            };
            if ids.len() == 0 {
                lemma_extends_push(c1, SpecInstr::IConst(0));
            } else {
                lemma_prod_extends(c1, ids, 1, ids[0]);
            }
            let env1 = SpecEnv { array_dims: env.array_dims.insert(lowercase(name), ids), ..env };
            let (c3, ptr) = emit_spec(c2, SpecInstr::CallRuntime("builtin_alloc_array"@, seq![MKind::Int], Some(MKind::Int), seq![total]));
            let (env2, c4, var, _) = ensure_var(env1, c3, name, SpecType::Integer);
            let c5 = c4.push(SpecInstr::DefVar(var, ptr));
            assert(c5.subrange(0, c2.len() as int) =~= c2);
            lemma_extends_trans(c, c1, c2);
            lemma_extends_trans(c, c2, c5);
        },
        SpecStmt::IndexAssign(a, idx, value) => {
            let key = lowercase(a);
            lemma_small_helpers_extend(c, env, BinaryOp::Add, UnaryOp::Neg, 0, 0, SpecType::Integer, SpecType::Integer, Seq::empty(), a, false, MKind::Int, MKind::Int);
            let (c1, base) = base_code(c, env, a);
            lemma_exprs_extends(idx, 0, env, c1, Seq::empty());
            let (c2, ids) = exprs_code(idx, 0, env, c1, Seq::empty());
            lemma_addr_load_extends(c2, env, key, base, ids);
            let (c3, addr) = addr_code(c2, env, key, base, ids);
            lemma_expr_extends(value, env, c3);
            let (c4, v, t) = expr_code(value, env, c3);
            let (c5, x) = if t == SpecType::Real {
                emit_spec(c4, SpecInstr::IntBits(v))
            } else {
                (c4, v)
            };
            let c6 = c5.push(SpecInstr::Store(x, addr));
            assert(c6.subrange(0, c4.len() as int) =~= c4);
            lemma_extends_trans(c, c1, c2);
            lemma_extends_trans(c, c2, c3);
            lemma_extends_trans(c, c3, c4);
            lemma_extends_trans(c, c4, c6);
        },
        SpecStmt::Read(ts) => lemma_read_extends(ts, 0, env, c),
        SpecStmt::Write(es, nl) => {
            lemma_write_extends(es, 0, env, c);
            let c1 = write_code(es, 0, env, c);
            let c2 = runtime0(c1, if nl { "print_newline"@ } else { "flush_stdout"@ });
            assert(c2.subrange(0, c1.len() as int) =~= c1);
            lemma_extends_trans(c, c1, c2);
        },
        SpecStmt::If(cond, tb, eb) => {
            lemma_expr_extends(cond, env, c);
            let (c1, cv, _) = expr_code(cond, env, c);
            let (c2, bt) = emit_spec(c1, SpecInstr::NewBlock);
            let (c3, be) = emit_spec(c2, SpecInstr::NewBlock);
            let (c4, bm) = emit_spec(c3, SpecInstr::NewBlock);
            let c5 = c4.push(SpecInstr::Brif(cv, bt, be)).push(SpecInstr::SwitchTo(bt)).push(SpecInstr::Seal(bt));
            assert(c5.subrange(0, c1.len() as int) =~= c1);
            lemma_stmts_extends(tb, 0, env, c5);
            let (env1, c6) = stmts_code(tb, 0, env, c5);
            let c7 = c6.push(SpecInstr::Jump(bm)).push(SpecInstr::SwitchTo(be)).push(SpecInstr::Seal(be));
            lemma_tail_extends(c6, SpecInstr::Jump(bm), SpecInstr::SwitchTo(be), SpecInstr::Seal(be), z, z);
            let (env2, c8) = match eb {
                Some(b) => stmts_code(b, 0, env1, c7),
                None => (env1, c7),
            };
            match eb {
                Some(b) => lemma_stmts_extends(b, 0, env1, c7),
                None => lemma_extends_refl(c7),
            }
            lemma_tail_extends(c8, SpecInstr::Jump(bm), SpecInstr::SwitchTo(bm), SpecInstr::Seal(bm), z, z);
            lemma_extends_trans(c, c1, c5);
            lemma_extends_trans(c, c5, c6);
            lemma_extends_trans(c, c6, c7);
            lemma_extends_trans(c, c7, c8);
            lemma_extends_trans(c, c8, stmt_code(st, env, c).1);
        },
        SpecStmt::While(cond, body) => {
            let c4 = c.push(z).push(z).push(z).push(SpecInstr::Jump(c.len() as usize)).push(SpecInstr::SwitchTo(c.len() as usize));
            lemma_tail_extends(c, z, z, z, SpecInstr::Jump(c.len() as usize), SpecInstr::SwitchTo(c.len() as usize));
            lemma_expr_extends(cond, env, c4);
            let (c5, cv, _) = expr_code(cond, env, c4);
            let bb = (c.len() + 1) as usize;
            let bx = (c.len() + 2) as usize;
            let c6 = c5.push(SpecInstr::Brif(cv, bb, bx)).push(SpecInstr::SwitchTo(bb)).push(SpecInstr::Seal(bb));
            lemma_tail_extends(c5, SpecInstr::Brif(cv, bb, bx), SpecInstr::SwitchTo(bb), SpecInstr::Seal(bb), z, z);
            lemma_stmts_extends(body, 0, env, c6);
            let (env1, c7) = stmts_code(body, 0, env, c6);
            let bh = c.len() as usize;
            lemma_tail_extends(c7, SpecInstr::Jump(bh), SpecInstr::Seal(bh), SpecInstr::SwitchTo(bx), SpecInstr::Seal(bx), z);
            lemma_extends_trans(c, c4, c5);
            lemma_extends_trans(c, c5, c6);
            lemma_extends_trans(c, c6, c7);
            lemma_extends_trans(c, c7, stmt_code(st, env, c).1);
        },
        SpecStmt::Repeat(body, until) => {
            let bb = c.len() as usize;
            let c3 = c.push(z).push(z).push(SpecInstr::Jump(bb)).push(SpecInstr::SwitchTo(bb));
            lemma_tail_extends(c, z, z, SpecInstr::Jump(bb), SpecInstr::SwitchTo(bb), z);
            lemma_stmts_extends(body, 0, env, c3);
            let (env1, c4) = stmts_code(body, 0, env, c3);
            lemma_expr_extends(until, env1, c4);
            let (c5, cv, _) = expr_code(until, env1, c4);
            let bx = (c.len() + 1) as usize;
            lemma_tail_extends(c5, SpecInstr::Brif(cv, bx, bb), SpecInstr::Seal(bb), SpecInstr::SwitchTo(bx), SpecInstr::Seal(bx), z);
            lemma_extends_trans(c, c3, c4);
            lemma_extends_trans(c, c4, c5);
            lemma_extends_trans(c, c5, stmt_code(st, env, c).1);
        },
        SpecStmt::For(var, start, end, step, body) => {
            lemma_for_extends(var, start, end, step, body, env, c);
        },
        SpecStmt::Call(f, args) => lemma_call_extends(f, args, env, c),
        SpecStmt::ClearScreen | SpecStmt::WaitKey => {
            assert(stmt_code(st, env, c).1.subrange(0, c.len() as int) =~= c);
        },
        SpecStmt::Wait(d, ms) => {
            lemma_expr_extends(d, env, c);
            let (c1, v, _) = expr_code(d, env, c);
            assert(stmt_code(st, env, c).1.subrange(0, c1.len() as int) =~= c1);
            lemma_extends_trans(c, c1, stmt_code(st, env, c).1);
        },
        SpecStmt::Match(x, cases, d) => {
            lemma_expr_extends(x, env, c);
            let (c1, xv, xt) = expr_code(x, env, c);
            let (c2, bm) = emit_spec(c1, SpecInstr::NewBlock);
            lemma_extends_push(c1, SpecInstr::NewBlock);
            lemma_cases_extends(cases, 0, env, c2, xv, xt, bm);
            let (env1, c3) = cases_code(cases, 0, env, c2, xv, xt, bm);
            let (env2, c4) = match d {
                Some(b) => stmts_code(b, 0, env1, c3),
                None => (env1, c3),
            };
            match d {
                Some(b) => lemma_stmts_extends(b, 0, env1, c3),
                None => lemma_extends_refl(c3),
            }
            lemma_tail_extends(c4, SpecInstr::Jump(bm), SpecInstr::SwitchTo(bm), SpecInstr::Seal(bm), z, z);
            lemma_extends_trans(c, c1, c2);
            lemma_extends_trans(c, c2, c3);
            lemma_extends_trans(c, c3, c4);
            lemma_extends_trans(c, c4, stmt_code(st, env, c).1);
        },
        _ => lemma_extends_refl(c),
    }
}

#[verifier::rlimit(60)]
#[verifier::spinoff_prover]
proof fn lemma_for_extends(var: Seq<char>, start: SpecExpr, end: SpecExpr, step: Option<SpecExpr>, body: Seq<SpecStmt>, env: SpecEnv, c: Seq<SpecInstr>)
    ensures
        extends(stmt_code(SpecStmt::For(var, start, end, step, body), env, c).1, c),
    decreases body, body.len() + 1,
{
    let z = SpecInstr::NewBlock;
    lemma_expr_extends(start, env, c);
    let (c1, sv, st) = expr_code(start, env, c);
    let (env1, c2, lv, lk) = ensure_var(env, c1, var, st);
    assert(c2.subrange(0, c1.len() as int) =~= c1);
    lemma_small_helpers_extend(c2, env, BinaryOp::Add, UnaryOp::Neg, sv, sv, st, st, Seq::empty(), Seq::empty(), false, kind_of(st), lk);
    let (c3, sv2) = convert_code(c2, sv, kind_of(st), lk);
    let c4 = c3.push(SpecInstr::DefVar(lv, sv2));
    lemma_extends_push(c3, SpecInstr::DefVar(lv, sv2));
    let is_real = lk == MKind::Float;
    let want = if is_real { MKind::Float } else { MKind::Int };
    let (c5, stepv) = match step {
        Some(e) => {
            let (ca, x, t) = expr_code(e, env1, c4);
            convert_code(ca, x, kind_of(t), want)
        },
        None => if is_real {
            emit_spec(c4, SpecInstr::FConst("1.0"@))
        } else {
            emit_spec(c4, SpecInstr::IConst(1))
        },
    };
    match step {
        Some(e) => {
            lemma_expr_extends(e, env1, c4);
            let (ca, x, t) = expr_code(e, env1, c4);
            lemma_small_helpers_extend(ca, env, BinaryOp::Add, UnaryOp::Neg, x, x, t, t, Seq::empty(), Seq::empty(), false, kind_of(t), want);
            lemma_extends_trans(c4, ca, c5);
        },
        None => {
            assert(c5.subrange(0, c4.len() as int) =~= c4);
        },
    }
    let bh = c5.len() as usize;
    let bb = (c5.len() + 1) as usize;
    let bx = (c5.len() + 2) as usize;
    let c9 = c5.push(z).push(z).push(z).push(SpecInstr::Jump(bh)).push(SpecInstr::SwitchTo(bh));
    lemma_tail_extends(c5, z, z, z, SpecInstr::Jump(bh), SpecInstr::SwitchTo(bh));
    let (c10, cur) = emit_spec(c9, SpecInstr::UseVar(lv, lk));
    lemma_extends_push(c9, SpecInstr::UseVar(lv, lk));
    lemma_expr_extends(end, env1, c10);
    let (c11, ev, et) = expr_code(end, env1, c10);
    lemma_small_helpers_extend(c11, env, BinaryOp::Add, UnaryOp::Neg, ev, ev, et, et, Seq::empty(), Seq::empty(), false, kind_of(et), want);
    let (c12, ev2) = convert_code(c11, ev, kind_of(et), want);
    let (c13, cond) = if is_real {
        emit_spec(c12, SpecInstr::FCmp(Cond::Le, cur, ev2))
    } else {
        let (ca, zz) = emit_spec(c12, SpecInstr::IConst(0));
        let (cb, sp) = emit_spec(ca, SpecInstr::ICmp(Cond::Gt, stepv, zz));
        let (cc, le) = emit_spec(cb, SpecInstr::ICmp(Cond::Le, cur, ev2));
        let (cd, ge) = emit_spec(cc, SpecInstr::ICmp(Cond::Ge, cur, ev2));
        emit_spec(cd, SpecInstr::Select(sp, le, ge))
    };
    assert(c13.subrange(0, c12.len() as int) =~= c12);
    let c14 = c13.push(SpecInstr::Brif(cond, bb, bx)).push(SpecInstr::SwitchTo(bb)).push(SpecInstr::Seal(bb));
    lemma_tail_extends(c13, SpecInstr::Brif(cond, bb, bx), SpecInstr::SwitchTo(bb), SpecInstr::Seal(bb), z, z);
    lemma_stmts_extends(body, 0, env1, c14);
    let (env2, c15) = stmts_code(body, 0, env1, c14);
    let c_end = stmt_code(SpecStmt::For(var, start, end, step, body), env, c).1;
    assert(c_end.subrange(0, c15.len() as int) =~= c15);
    lemma_extends_trans(c, c1, c2);
    lemma_extends_trans(c, c2, c3);
    lemma_extends_trans(c, c3, c4);
    lemma_extends_trans(c, c4, c5);
    lemma_extends_trans(c, c5, c9);
    lemma_extends_trans(c, c9, c10);
    lemma_extends_trans(c, c10, c11);
    lemma_extends_trans(c, c11, c12);
    lemma_extends_trans(c, c12, c13);
    lemma_extends_trans(c, c13, c14);
    lemma_extends_trans(c, c14, c15);
    lemma_extends_trans(c, c15, c_end);
}

proof fn lemma_cases_extends(
    cases: Seq<(SpecExpr, Seq<SpecStmt>)>,
    i: int,
    env: SpecEnv,
    c: Seq<SpecInstr>,
    xv: usize,
    xt: SpecType,
    bm: usize,
)
    ensures
        extends(cases_code(cases, i, env, c, xv, xt, bm).1, c),
    decreases cases, cases.len() - i,
{
    if i < 0 || i >= cases.len() {
        lemma_extends_refl(c);
    } else {
        let z = SpecInstr::NewBlock;
        lemma_expr_extends(cases[i].0, env, c);
        let (c1, cv, ct) = expr_code(cases[i].0, env, c);
        lemma_small_helpers_extend(c1, env, BinaryOp::Add, UnaryOp::Neg, xv, cv, xt, ct, Seq::empty(), Seq::empty(), false, MKind::Int, MKind::Int);
        let (c2, f) = case_test_code(c1, xv, xt, cv, ct);
        let bc = c2.len() as usize;
        let bn = (c2.len() + 1) as usize;
        let c5 = c2.push(z).push(z).push(SpecInstr::Brif(f, bc, bn)).push(SpecInstr::SwitchTo(bc)).push(SpecInstr::Seal(bc));
        lemma_tail_extends(c2, z, z, SpecInstr::Brif(f, bc, bn), SpecInstr::SwitchTo(bc), SpecInstr::Seal(bc));
        lemma_stmts_extends(cases[i].1, 0, env, c5);
        let (env1, c6) = stmts_code(cases[i].1, 0, env, c5);
        let c7 = c6.push(SpecInstr::Jump(bm)).push(SpecInstr::SwitchTo(bn)).push(SpecInstr::Seal(bn));
        lemma_tail_extends(c6, SpecInstr::Jump(bm), SpecInstr::SwitchTo(bn), SpecInstr::Seal(bn), z, z);
        lemma_cases_extends(cases, i + 1, env1, c7, xv, xt, bm);
        lemma_extends_trans(c, c1, c2);
        lemma_extends_trans(c, c2, c5);
        lemma_extends_trans(c, c5, c6);
        lemma_extends_trans(c, c6, c7);
        lemma_extends_trans(c, c7, cases_code(cases, i, env, c, xv, xt, bm).1);
    }
}

proof fn lemma_stmts_extends(ss: Seq<SpecStmt>, i: int, env: SpecEnv, c: Seq<SpecInstr>)
    ensures
        extends(stmts_code(ss, i, env, c).1, c),
    decreases ss, ss.len() - i,
{
    if i < 0 || i >= ss.len() {
        lemma_extends_refl(c);
    } else {
        lemma_stmt_extends(ss[i], env, c);
        let (env1, c1) = stmt_code(ss[i], env, c);
        lemma_stmts_extends(ss, i + 1, env1, c1);
        lemma_extends_trans(c, c1, stmts_code(ss, i, env, c).1);
    }
}

/// Lowering statements only appends instructions: the code emitted before
/// stays as it was.
pub proof fn law_lowering_stmts_appends(ss: Seq<SpecStmt>, env: SpecEnv, c: Seq<SpecInstr>)
    ensures
        c.len() <= stmts_code(ss, 0, env, c).1.len(),
        stmts_code(ss, 0, env, c).1.subrange(0, c.len() as int) == c,
{
    lemma_stmts_extends(ss, 0, env, c);
}

proof fn lemma_params_extends(ps: Seq<(Seq<char>, SpecType, bool)>, i: int, env: SpecEnv, c: Seq<SpecInstr>)
    ensures
        extends(params_code(ps, i, env, c).1, c),
    decreases ps.len() - i,
{
    if i < 0 || i >= ps.len() {
        lemma_extends_refl(c);
    } else {
        let v = env.nvars as usize;
        let c1 = c.push(SpecInstr::DeclareVar(v, kind_of(ps[i].1)));
        let (c2, p) = emit_spec(c1, SpecInstr::Param(i as usize));
        let env1 = SpecEnv { vars: env.vars.insert(ps[i].0, (v, ps[i].1)), nvars: env.nvars + 1, ..env };
        let c3 = c2.push(SpecInstr::DefVar(v, p));
        assert(c3.subrange(0, c.len() as int) =~= c);
        lemma_params_extends(ps, i + 1, env1, c3);
        lemma_extends_trans(c, c3, params_code(ps, i, env, c).1);
    }
}

proof fn lemma_param_ids_extends(c: Seq<SpecInstr>, first: usize, n: nat, ids: Seq<usize>)
    ensures
        extends(param_ids(c, first, n, ids).0, c),
    decreases n,
{
    if n == 0 {
        lemma_extends_refl(c);
    } else {
        let x = SpecInstr::Param(first);
        let nf = if first < usize::MAX { (first + 1) as usize } else { 0 };
        lemma_param_ids_extends(c.push(x), nf, (n - 1) as nat, ids.push(c.len() as usize));
        lemma_extends_push(c, x);
        lemma_extends_trans(c, c.push(x), param_ids(c, first, n, ids).0);
    }
}

proof fn lemma_hidden_params_extends(aps: Seq<(usize, usize)>, k: int, ps: Seq<(Seq<char>, SpecType, bool)>, next: usize, env: SpecEnv, c: Seq<SpecInstr>)
    ensures
        extends(hidden_params_code(aps, k, ps, next, env, c).1, c),
    decreases aps.len() - k,
{
    if k < 0 || k >= aps.len() {
        lemma_extends_refl(c);
    } else if (aps[k].0 as int) < ps.len() {
        lemma_param_ids_extends(c, next, aps[k].1 as nat, Seq::empty());
        let (c1, ids) = param_ids(c, next, aps[k].1 as nat, Seq::empty());
        let env1 = SpecEnv { array_dims: env.array_dims.insert(lowercase(ps[aps[k].0 as int].0), ids), ..env };
        lemma_hidden_params_extends(aps, k + 1, ps, next_param(next, aps[k].1), env1, c1);
        lemma_extends_trans(c, c1, hidden_params_code(aps, k, ps, next, env, c).1);
    } else {
        lemma_hidden_params_extends(aps, k + 1, ps, next, env, c);
    }
}

proof fn lemma_byref_returns_extends(ps: Seq<(Seq<char>, SpecType, bool)>, j: int, env: SpecEnv, c: Seq<SpecInstr>, vals: Seq<usize>)
    ensures
        extends(byref_returns_code(ps, j, env, c, vals).0, c),
    decreases ps.len() - j,
{
    if j < 0 || j >= ps.len() {
        lemma_extends_refl(c);
    } else if ps[j].2 && env.vars.contains_key(ps[j].0) {
        let vt = env.vars[ps[j].0];
        let x = SpecInstr::UseVar(vt.0, kind_of(vt.1));
        lemma_byref_returns_extends(ps, j + 1, env, c.push(x), vals.push(c.len() as usize));
        lemma_extends_push(c, x);
        lemma_extends_trans(c, c.push(x), byref_returns_code(ps, j, env, c, vals).0);
    } else {
        lemma_byref_returns_extends(ps, j + 1, env, c, vals);
    }
}

/// Lowering a function only appends instructions: the code emitted before
/// stays as it was.
pub proof fn law_lowering_function_appends(f: SpecFunction, env: SpecEnv, c: Seq<SpecInstr>)
    ensures
        c.len() <= function_code(f, env, c).1.len(),
        function_code(f, env, c).1.subrange(0, c.len() as int) == c,
{
    let c1 = c.push(SpecInstr::EntryBlock);
    lemma_extends_push(c, SpecInstr::EntryBlock);
    lemma_params_extends(f.params, 0, env, c1);
    let (env1, c2) = params_code(f.params, 0, env, c1);
    let (env2, c3) = match f.return_var {
        Some(rv) => {
            let v = env1.nvars as usize;
            let t = spec_ret_type(f.return_type);
            let ca = c2.push(SpecInstr::DeclareVar(v, kind_of(t)));
            let (cb, z) = if t == SpecType::Real {
                emit_spec(ca, SpecInstr::FConst("0.0"@))
            } else {
                emit_spec(ca, SpecInstr::IConst(0))
            };
            (SpecEnv { vars: env1.vars.insert(rv, (v, t)), nvars: env1.nvars + 1, ..env1 }, cb.push(SpecInstr::DefVar(v, z)))
        },
        None => (env1, c2),
    };
    assert(c3.subrange(0, c2.len() as int) =~= c2);
    let key = lowercase(f.name);
    let aps = if env2.array_params.contains_key(key) {
        env2.array_params[key]
    } else {
        Seq::empty()
    };
    lemma_hidden_params_extends(aps, 0, f.params, f.params.len() as usize, env2, c3);
    let (env3, c4) = hidden_params_code(aps, 0, f.params, f.params.len() as usize, env2, c3);
    lemma_stmts_extends(f.body, 0, env3, c4);
    let (env4, c5) = stmts_code(f.body, 0, env3, c4);
    let (c6, vals) = match f.return_var {
        Some(rv) => if env4.vars.contains_key(rv) {
            emit_spec(c5, SpecInstr::UseVar(env4.vars[rv].0, kind_of(env4.vars[rv].1)))
        } else {
            (c5, 0)
        },
        None => (c5, 0),
    };
    assert(c6.subrange(0, c5.len() as int) =~= c5);
    let vals0 = match f.return_var {
        Some(rv) => if env4.vars.contains_key(rv) {
            seq![vals]
        } else {
            Seq::empty()
        },
        None => Seq::empty(),
    };
    lemma_byref_returns_extends(f.params, 0, env4, c6, vals0);
    let (c7, vals2) = byref_returns_code(f.params, 0, env4, c6, vals0);
    lemma_extends_push(c7, SpecInstr::Return(vals2));
    lemma_extends_trans(c, c1, c2);
    lemma_extends_trans(c, c2, c3);
    lemma_extends_trans(c, c3, c4);
    lemma_extends_trans(c, c4, c5);
    lemma_extends_trans(c, c5, c6);
    lemma_extends_trans(c, c6, c7);
    lemma_extends_trans(c, c7, c7.push(SpecInstr::Return(vals2)));
}

// ---------------------------------------------------------------------
// The kind of a lowered value
// ---------------------------------------------------------------------
/// The machine kind of the value `v`, when the instruction that defines it
/// gives one.
pub open spec fn kind_at(c: Seq<SpecInstr>, v: int) -> Option<MKind>
    decreases v,
{
    if v < 0 || v >= c.len() {
        None
    } else {
        match c[v] {
            SpecInstr::IConst(_) | SpecInstr::StrConst(_) | SpecInstr::IAdd(_, _) | SpecInstr::ISub(_, _)
            | SpecInstr::IMul(_, _) | SpecInstr::SDiv(_, _) | SpecInstr::SRem(_, _) | SpecInstr::BAnd(_, _)
            | SpecInstr::BOr(_, _) | SpecInstr::ToIntSat(_) | SpecInstr::IntBits(_) | SpecInstr::Load(_) => Some(MKind::Int),
            SpecInstr::FConst(_) | SpecInstr::FAdd(_, _) | SpecInstr::FSub(_, _) | SpecInstr::FMul(_, _)
            | SpecInstr::FDiv(_, _) | SpecInstr::FNeg(_) | SpecInstr::FromInt(_) | SpecInstr::FloatBits(_) => Some(MKind::Float),
            SpecInstr::ICmp(_, _, _) | SpecInstr::FCmp(_, _, _) => Some(MKind::Flag),
            SpecInstr::UseVar(_, k) => Some(k),
            SpecInstr::Select(_, a, _) => if a < v {
                kind_at(c, a as int)
            } else {
                None
            },
            SpecInstr::CallRuntime(_, _, r, _) => r,
            SpecInstr::CallResult(call, j) => if call < v {
                match c[call as int] {
                    SpecInstr::CallUser(_, _, rets) => if j < rets.len() {
                        Some(rets[j as int])
                    } else {
                        None
                    },
                    _ => None,
                }
            } else {
                None
            },
            _ => None,
        }
    }
}

proof fn lemma_kind_stable(c: Seq<SpecInstr>, c2: Seq<SpecInstr>, v: int)
    requires
        extends(c2, c),
        0 <= v < c.len(),
    ensures
        kind_at(c2, v) == kind_at(c, v),
    decreases v,
{
    assert(c2[v] == c2.subrange(0, c.len() as int)[v]);
    match c[v] {
        SpecInstr::Select(_, a, _) => if a < v {
            lemma_kind_stable(c, c2, a as int);
        },
        SpecInstr::CallResult(call, _) => if call < v {
            assert(c2[call as int] == c2.subrange(0, c.len() as int)[call as int]);
        },
        _ => {},
    }
}

pub open spec fn builtin_kinds_agree(name: Seq<char>) -> bool {
    builtin_table(name) matches Some(b) ==> mkind(b.2) == kind_of(b.3)
}

proof fn lemma_builtin_kinds(name: Seq<char>)
    ensures
        builtin_kinds_agree(name),
{
}

proof fn lemma_float_op_kind(c: Seq<SpecInstr>, op: BinaryOp, a: usize, b: usize)
    requires
        float_op_code(c, op, a, b).0.len() <= usize::MAX,
    ensures
        kind_at(float_op_code(c, op, a, b).0, float_op_code(c, op, a, b).1 as int) == Some(kind_of(float_op_code(c, op, a, b).2)),
{
    reveal_with_fuel(kind_at, 2);
    let r = float_op_code(c, op, a, b);
    let n = r.0.len();
    assert(r.1 as int == n - 1);
    match op {
        BinaryOp::Add | BinaryOp::Sub | BinaryOp::Mul | BinaryOp::Div | BinaryOp::Power | BinaryOp::Mod
        | BinaryOp::And | BinaryOp::Or => {},
        _ => {
            assert(r.0[n - 3] == SpecInstr::IConst(1));
        },
    }
}

proof fn lemma_int_op_kind(c: Seq<SpecInstr>, op: BinaryOp, a: usize, b: usize)
    requires
        int_op_code(c, op, a, b).0.len() <= usize::MAX,
    ensures
        kind_at(int_op_code(c, op, a, b).0, int_op_code(c, op, a, b).1 as int) == Some(kind_of(int_op_code(c, op, a, b).2)),
{
    reveal_with_fuel(kind_at, 2);
    let r = int_op_code(c, op, a, b);
    let n = r.0.len();
    assert(r.1 as int == n - 1);
    match op {
        BinaryOp::Div | BinaryOp::Mod => {
            assert(r.0[n - 6] == SpecInstr::IConst(0));
        },
        BinaryOp::Add | BinaryOp::Sub | BinaryOp::Mul | BinaryOp::And | BinaryOp::Or => {},
        _ => {
            assert(r.0[n - 3] == SpecInstr::IConst(1));
        },
    }
}

proof fn lemma_binary_kind(c: Seq<SpecInstr>, op: BinaryOp, lv: usize, lt: SpecType, rv: usize, rt: SpecType)
    requires
        binary_code(c, op, lv, lt, rv, rt).0.len() <= usize::MAX,
    ensures
        kind_at(binary_code(c, op, lv, lt, rv, rt).0, binary_code(c, op, lv, lt, rv, rt).1 as int)
            == Some(kind_of(binary_code(c, op, lv, lt, rv, rt).2)),
{
    let r = binary_code(c, op, lv, lt, rv, rt);
    if op == BinaryOp::Add && (lt == SpecType::Str || rt == SpecType::Str) {
        assert(r.1 as int == r.0.len() - 1);
    } else {
        let fl = lt == SpecType::Real || rt == SpecType::Real || op == BinaryOp::Div || op == BinaryOp::Power;
        let (c1, a) = if lt == SpecType::Integer && fl {
            emit_spec(c, SpecInstr::FromInt(lv))
        } else {
            (c, lv)
        };
        let (c2, b) = if rt == SpecType::Integer && fl {
            emit_spec(c1, SpecInstr::FromInt(rv))
        } else {
            (c1, rv)
        };
        if fl {
            lemma_float_op_kind(c2, op, a, b);
        } else {
            lemma_int_op_kind(c2, op, a, b);
        }
    }
}

proof fn lemma_unary_kind(c: Seq<SpecInstr>, op: UnaryOp, v: usize, t: SpecType)
    requires
        unary_code(c, op, v, t).0.len() <= usize::MAX,
    ensures
        kind_at(unary_code(c, op, v, t).0, unary_code(c, op, v, t).1 as int) == Some(kind_of(unary_code(c, op, v, t).2)),
{
    reveal_with_fuel(kind_at, 2);
    let r = unary_code(c, op, v, t);
    let n = r.0.len();
    assert(r.1 as int == n - 1);
    match op {
        UnaryOp::Not => {
            assert(r.0[n - 3] == SpecInstr::IConst(1));
        },
        _ => {},
    }
}

proof fn lemma_index_kind(a: Seq<char>, idx: Seq<SpecExpr>, env: SpecEnv, c: Seq<SpecInstr>)
    requires
        index_code(a, idx, env, c).0.len() <= usize::MAX,
    ensures
        kind_at(index_code(a, idx, env, c).0, index_code(a, idx, env, c).2 as int) == Some(kind_of(index_code(a, idx, env, c).3)),
{
    let r = index_code(a, idx, env, c);
    assert(r.2 as int == r.0.len() - 1);
}

proof fn lemma_call_kind(f: Seq<char>, args: Seq<SpecExpr>, env: SpecEnv, c: Seq<SpecInstr>)
    requires
        call_code(f, args, env, c).0.len() <= usize::MAX,
    ensures
        kind_at(call_code(f, args, env, c).0, call_code(f, args, env, c).1 as int) == Some(kind_of(call_code(f, args, env, c).2)),
{
    let key = lowercase(f);
    let r = call_code(f, args, env, c);
    match builtin_table(key) {
        Some(b) => {
            lemma_builtin_kinds(key);
            assert(r.1 as int == r.0.len() - 1);
        },
        None => if env.functions.contains_key(key) {
            let info = env.functions[key];
            let (c1, vals, addrs) = user_args_code(args, 0, info.0, env, c, Seq::empty(), Seq::empty());
            let aps = if env.array_params.contains_key(key) {
                env.array_params[key]
            } else {
                Seq::empty()
            };
            let (c2, vals2) = hidden_code(aps, 0, args, env, c1, vals);
            let rets = result_kinds(info.0, info.1, info.2);
            let (c3, call) = emit_spec(c2, SpecInstr::CallUser(key, vals2, rets));
            let (c4, rv, rt) = if info.2 {
                (c3.push(SpecInstr::CallResult(call, 0)), c3.len() as usize, ret_type(info.1))
            } else {
                (c3.push(SpecInstr::IConst(0)), c3.len() as usize, SpecType::Integer)
            };
            lemma_writeback_extends(info.0, 0, if info.2 { 1 } else { 0 }, args, addrs, env, call, c4);
            assert(rv as int == c3.len());
            lemma_kind_stable(c4, r.0, rv as int);
            if info.2 {
                assert(rets[0] == kind_of(ret_type(info.1)));
                assert(c4[call as int] == SpecInstr::CallUser(key, vals2, rets));
            }
        } else {
            assert(r.1 as int == r.0.len() - 1);
        },
    }
}

/// The value that holds an expression's result has the machine kind of
/// the expression's type: a float for a real, a 64-bit integer for every
/// other type.
pub proof fn law_lowered_result_kind(e: SpecExpr, env: SpecEnv, c: Seq<SpecInstr>)
    requires
        expr_code(e, env, c).0.len() <= usize::MAX,
    ensures
        kind_at(expr_code(e, env, c).0, expr_code(e, env, c).1 as int) == Some(kind_of(expr_code(e, env, c).2)),
{
    let r = expr_code(e, env, c);
    match e {
        SpecExpr::Lit(_) | SpecExpr::Var(_) => {
            assert(r.1 as int == r.0.len() - 1);
        },
        SpecExpr::Binary(l, op, rr) => {
            let (c1, lv, lt) = expr_code(*l, env, c);
            let (c2, rv, rt) = expr_code(*rr, env, c1);
            lemma_binary_kind(c2, op, lv, lt, rv, rt);
        },
        SpecExpr::Unary(op, x) => {
            let (c1, v, t) = expr_code(*x, env, c);
            lemma_unary_kind(c1, op, v, t);
        },
        SpecExpr::Index(a, idx) => lemma_index_kind(a, idx, env, c),
        SpecExpr::Call(f, args) => lemma_call_kind(f, args, env, c),
    }
}

// ---------------------------------------------------------------------
// The signature of a function of the program
// ---------------------------------------------------------------------
pub open spec fn param_kinds(ps: Seq<(String, Type, bool)>) -> Seq<MKind> {
    ps.map_values(|p: (String, Type, bool)| kind_of(p.1@))
}

/// One integer parameter per dimension of each array parameter from `k`
/// on (those naming a declared parameter, as [`hidden_params_code`] reads
/// them).
pub open spec fn hidden_kinds(aps: Seq<(usize, usize)>, n: nat, k: int) -> Seq<MKind>
    decreases aps.len() - k,
{
    if k < 0 || k >= aps.len() {
        Seq::empty()
    } else {
        (if (aps[k].0 as nat) < n {
            Seq::new(aps[k].1 as nat, |_i: int| MKind::Int)
        } else {
            Seq::empty()
        }) + hidden_kinds(aps, n, k + 1)
    }
}

/// The signature of a function of the program, as kinds: its parameters
/// (each of the kind of its type), then the dimensions of its array
/// parameters `aps`; and as results its return value, if any, then each
/// parameter passed by reference — the order in which [`lower_function`]
/// reads its parameters and returns, and in which a call passes arguments
/// and reads results.
pub fn signature(f: &Function, aps: &Vec<(usize, usize)>) -> (r: (Vec<MKind>, Vec<MKind>))
    ensures
        r.0@ == param_kinds(f.params@) + hidden_kinds(aps@, f.params@.len(), 0),
        r.1@ == result_kinds(f.params@, f.return_type, f.return_var is Some),
{
    let mut ps: Vec<MKind> = Vec::new();
    let mut i: usize = 0;
    while i < f.params.len()
        invariant
            i <= f.params@.len(),
            ps@ == param_kinds(f.params@.subrange(0, i as int)),
        decreases f.params@.len() - i,
    {
        ps.push(kind_of_type(&f.params[i].1));
        assert(param_kinds(f.params@.subrange(0, i + 1)) =~= param_kinds(f.params@.subrange(0, i as int)).push(kind_of(f.params@[i as int].1@)));
        i += 1;
    }
    assert(f.params@.subrange(0, i as int) =~= f.params@);
    let ghost target = ps@ + hidden_kinds(aps@, f.params@.len(), 0);
    let mut k: usize = 0;
    assert(ps@ + hidden_kinds(aps@, f.params@.len(), 0) == target);
    while k < aps.len()
        invariant
            k <= aps@.len(),
            ps@ + hidden_kinds(aps@, f.params@.len(), k as int) == target,
        decreases aps@.len() - k,
    {
        let ghost before = ps@;
        let (pi, cnt) = aps[k];
        if pi < f.params.len() {
            let mut m: usize = 0;
            while m < cnt
                invariant
                    m <= cnt,
                    ps@ == before + Seq::new(m as nat, |_i: int| MKind::Int),
                decreases cnt - m,
            {
                ps.push(MKind::Int);
                assert(before + Seq::new((m + 1) as nat, |_i: int| MKind::Int) =~= (before + Seq::new(m as nat, |_i: int| MKind::Int)).push(MKind::Int));
                m += 1;
            }
            assert(before + hidden_kinds(aps@, f.params@.len(), k as int) =~= ps@ + hidden_kinds(aps@, f.params@.len(), k + 1));
        } else {
            assert(before + hidden_kinds(aps@, f.params@.len(), k as int) =~= ps@ + hidden_kinds(aps@, f.params@.len(), k + 1));
        }
        k += 1;
    }
    assert(ps@ + hidden_kinds(aps@, f.params@.len(), k as int) =~= ps@);
    (ps, result_kinds_exec(&f.params, &f.return_type, f.return_var.is_some()))
}

proof fn lemma_wrap_ops(x: i64, y: i64)
    ensures
        (x + y) as i64 == x.wrapping_add(y),
        (x - y) as i64 == x.wrapping_sub(y),
        (x * y) as i64 == x.wrapping_mul(y),
{
    assert((x + y) as i64 == x.wrapping_add(y)) by (bit_vector);
    assert((x - y) as i64 == x.wrapping_sub(y)) by (bit_vector);
    assert((x * y) as i64 == x.wrapping_mul(y)) by (bit_vector);
}

// ---------------------------------------------------------------------
// What lowered integer and logical expressions compute
// ---------------------------------------------------------------------
/// A value as the machine holds it: the integer, or 1 / 0 for a logical
/// value.
pub open spec fn num(v: Value) -> i64 {
    match v {
        Value::Int(n) => n,
        Value::Bool(b) => if b {
            1
        } else {
            0
        },
    }
}

/// The type the lowering gives a value of that kind: an integer is typed
/// Entero; a logical value Logico, or Entero when `Y`/`O` computed it.
pub open spec fn fits_value(v: Value, t: SpecType) -> bool {
    match v {
        Value::Int(_) => t == SpecType::Integer,
        Value::Bool(_) => t == SpecType::Boolean || t == SpecType::Integer,
    }
}

/// Every variable with a value is known to the lowering, with the type of
/// its value.
pub open spec fn vars_agree(env: SpecEnv, vals: Map<Seq<char>, Value>) -> bool {
    forall|x: Seq<char>| #[trigger] vals.contains_key(x) ==> env.vars.contains_key(x) && match vals[x] {
        Value::Int(_) => env.vars[x].1 == SpecType::Integer,
        Value::Bool(_) => env.vars[x].1 == SpecType::Boolean,
    }
}

/// Each read of a variable in the code gives the variable's value.
pub open spec fn reads_agree(c: Seq<SpecInstr>, env: SpecEnv, vals: Map<Seq<char>, Value>, ext: spec_fn(int) -> i64) -> bool {
    forall|p: int, x: Seq<char>|
        #![trigger c[p], vals[x]]
        0 <= p < c.len() && vals.contains_key(x) && c[p] == SpecInstr::UseVar(env.vars[x].0, kind_of(env.vars[x].1))
            ==> ext(p) == num(vals[x])
}

proof fn lemma_reads_prefix(small: Seq<SpecInstr>, big: Seq<SpecInstr>, env: SpecEnv, vals: Map<Seq<char>, Value>, ext: spec_fn(int) -> i64)
    requires
        extends(big, small),
        reads_agree(big, env, vals, ext),
    ensures
        reads_agree(small, env, vals, ext),
{
    assert forall|p: int, x: Seq<char>|
        #![trigger small[p], vals[x]]
        0 <= p < small.len() && vals.contains_key(x) && small[p] == SpecInstr::UseVar(env.vars[x].0, kind_of(env.vars[x].1))
            implies ext(p) == num(vals[x]) by {
        assert(big[p] == big.subrange(0, small.len() as int)[p]);
        assert(big[p] == small[p]);
    }
}

proof fn lemma_bits01(a: i64, b: i64)
    requires
        a == 0 || a == 1,
        b == 0 || b == 1,
    ensures
        a & b == (if a == 1 && b == 1 { 1i64 } else { 0i64 }),
        a | b == (if a == 1 || b == 1 { 1i64 } else { 0i64 }),
{
    assert(a & b == (if a == 1 && b == 1 { 1i64 } else { 0i64 })) by (bit_vector)
        requires
            a == 0 || a == 1,
            b == 0 || b == 1,
    ;
    assert(a | b == (if a == 1 || b == 1 { 1i64 } else { 0i64 })) by (bit_vector)
        requires
            a == 0 || a == 1,
            b == 0 || b == 1,
    ;
}

proof fn lemma_flag_value(c: Seq<SpecInstr>, f: usize, ext: spec_fn(int) -> i64)
    requires
        f < c.len(),
        c.len() + 3 <= usize::MAX,
    ensures
        extends(flag_code(c, f).0, c),
        flag_code(c, f).1 == c.len() + 2,
        flag_code(c, f).0.len() == c.len() + 3,
        int_value(flag_code(c, f).0, flag_code(c, f).1 as int, ext) == (if int_value(c, f as int, ext) != 0 { 1i64 } else { 0i64 }),
{
    let r = flag_code(c, f).0;
    assert(r.subrange(0, c.len() as int) =~= c);
    lemma_value_stable(c, r, f as int, ext);
    assert(int_value(r, c.len() as int, ext) == 1);
    assert(int_value(r, c.len() as int + 1, ext) == 0);
}

#[verifier::rlimit(60)]
#[verifier::spinoff_prover]
proof fn lemma_int_op_value(c: Seq<SpecInstr>, op: BinaryOp, lv: usize, rv: usize, a: Value, b: Value, ext: spec_fn(int) -> i64)
    requires
        lv < c.len(),
        rv < c.len(),
        int_value(c, lv as int, ext) == num(a),
        int_value(c, rv as int, ext) == num(b),
        apply(op, a, b) is Some,
        int_op_code(c, op, lv, rv).0.len() <= usize::MAX,
    ensures
        int_op_code(c, op, lv, rv).1 < int_op_code(c, op, lv, rv).0.len(),
        int_value(int_op_code(c, op, lv, rv).0, int_op_code(c, op, lv, rv).1 as int, ext) == num(apply(op, a, b)->0),
        fits_value(apply(op, a, b)->0, int_op_code(c, op, lv, rv).2),
{
    let r = int_op_code(c, op, lv, rv);
    assert(r.0.subrange(0, c.len() as int) =~= c);
    lemma_value_stable(c, r.0, lv as int, ext);
    lemma_value_stable(c, r.0, rv as int, ext);
    match (a, b) {
        (Value::Int(x), Value::Int(y)) => {
            lemma_wrap_ops(x, y);
            match op {
                BinaryOp::Add | BinaryOp::Sub | BinaryOp::Mul => {},
                BinaryOp::Mod => {
                    let n = c.len() as int;
                    assert(int_value(r.0, n, ext) == 0);
                    assert(int_value(r.0, n + 1, ext) == 1);
                    assert(y != 0);
                    assert(int_value(r.0, n + 2, ext) == 0);
                    assert(int_value(r.0, n + 3, ext) == y);
                    assert(int_value(r.0, n + 4, ext) == x.checked_rem(y)->0);
                },
                _ => {
                    let (c1, f) = emit_spec(c, SpecInstr::ICmp(cond_of(op), lv, rv));
                    lemma_push_stable(c, SpecInstr::ICmp(cond_of(op), lv, rv), lv as int, ext);
                    lemma_push_stable(c, SpecInstr::ICmp(cond_of(op), lv, rv), rv as int, ext);
                    assert(holds(cond_of(op), x as int, y as int) == compare_ints(op, x, y));
                    lemma_flag_value(c1, f, ext);
                },
            }
        },
        (Value::Bool(x), Value::Bool(y)) => {
            match op {
                BinaryOp::And | BinaryOp::Or => {
                    lemma_bits01(num(a), num(b));
                },
                _ => {
                    let (c1, f) = emit_spec(c, SpecInstr::ICmp(cond_of(op), lv, rv));
                    lemma_push_stable(c, SpecInstr::ICmp(cond_of(op), lv, rv), lv as int, ext);
                    lemma_push_stable(c, SpecInstr::ICmp(cond_of(op), lv, rv), rv as int, ext);
                    lemma_flag_value(c1, f, ext);
                },
            }
        },
        _ => {},
    }
}

proof fn lemma_value_of_lowered(e: SpecExpr, env: SpecEnv, c: Seq<SpecInstr>, vals: Map<Seq<char>, Value>, ext: spec_fn(int) -> i64)
    requires
        vars_agree(env, vals),
        reads_agree(expr_code(e, env, c).0, env, vals, ext),
        expr_code(e, env, c).0.len() <= usize::MAX,
    ensures
        eval(e, vals) matches Some(v) ==> {
            let r = expr_code(e, env, c);
            &&& r.1 < r.0.len()
            &&& int_value(r.0, r.1 as int, ext) == num(v)
            &&& fits_value(v, r.2)
        },
    decreases e,
{
    let r = expr_code(e, env, c);
    match e {
        SpecExpr::Lit(l) => {
            assert(r.1 as int == c.len());
            match l {
                SpecLit::Int(n) => {
                    assert(r.0[c.len() as int] == SpecInstr::IConst(n));
                    assert(int_value(r.0, r.1 as int, ext) == n);
                },
                SpecLit::Bool(b) => {
                    assert(r.0[c.len() as int] == SpecInstr::IConst(if b { 1 } else { 0 }));
                },
                _ => {},
            }
        },
        SpecExpr::Var(x) => {
            if vals.contains_key(x) {
                assert(r.0[r.1 as int] == SpecInstr::UseVar(env.vars[x].0, kind_of(env.vars[x].1)));
                let _v = vals[x];
                assert(int_value(r.0, r.1 as int, ext) == num(vals[x]));
            }
        },
        SpecExpr::Unary(op, x) => {
            lemma_expr_extends(*x, env, c);
            let (c1, v, t) = expr_code(*x, env, c);
            lemma_small_helpers_extend(c1, env, BinaryOp::Add, op, v, v, t, t, Seq::empty(), Seq::empty(), false, MKind::Int, MKind::Int);
            lemma_reads_prefix(c1, r.0, env, vals, ext);
            lemma_value_of_lowered(*x, env, c, vals, ext);
            if eval(e, vals) is Some {
                lemma_value_stable(c1, r.0, v as int, ext);
                match op {
                    UnaryOp::Neg => {
                        let n = num(eval(*x, vals)->0);
                        lemma_wrap_ops(0, n);
                        assert(int_value(r.0, c1.len() as int, ext) == 0);
                        assert(r.1 as int == c1.len() + 1);
                        assert(int_value(r.0, c1.len() as int + 1, ext) == 0i64.wrapping_sub(n));
                    },
                    UnaryOp::Not => {
                        let n1 = c1.len() as int;
                        let xv = int_value(c1, v as int, ext);
                        assert(xv == 0 || xv == 1);
                        assert(int_value(r.0, n1, ext) == 0);
                        assert(int_value(r.0, n1 + 1, ext) == (if xv == 0 { 1i64 } else { 0i64 }));
                        assert(int_value(r.0, n1 + 2, ext) == 1);
                        assert(int_value(r.0, n1 + 3, ext) == 0);
                        assert(r.1 as int == n1 + 4);
                        assert(int_value(r.0, n1 + 4, ext) == (if xv == 0 { 1i64 } else { 0i64 }));
                    },
                }
            }
        },
        SpecExpr::Binary(l, op, rr) => {
            lemma_expr_extends(*l, env, c);
            let (c1, lv, lt) = expr_code(*l, env, c);
            lemma_expr_extends(*rr, env, c1);
            let (c2, rv, rt) = expr_code(*rr, env, c1);
            lemma_binary_extends(c2, op, lv, lt, rv, rt);
            lemma_extends_trans(c1, c2, r.0);
            lemma_reads_prefix(c2, r.0, env, vals, ext);
            lemma_reads_prefix(c1, c2, env, vals, ext);
            lemma_value_of_lowered(*l, env, c, vals, ext);
            lemma_value_of_lowered(*rr, env, c1, vals, ext);
            if eval(e, vals) is Some {
                let a = eval(*l, vals)->0;
                let b = eval(*rr, vals)->0;
                lemma_value_stable(c1, c2, lv as int, ext);
                assert(lt != SpecType::Str && lt != SpecType::Real);
                assert(rt != SpecType::Str && rt != SpecType::Real);
                assert(op != BinaryOp::Div && op != BinaryOp::Power);
                assert(binary_code(c2, op, lv, lt, rv, rt) == int_op_code(c2, op, lv, rv));
                lemma_int_op_value(c2, op, lv, rv, a, b, ext);
            }
        },
        _ => {},
    }
}

/// A lowered integer or logical expression computes its value: for every
/// assignment `vals` of values to variables that the lowering knows with
/// the matching types, when each read of a variable gives its value and
/// the expression has a value (integer arithmetic wrapping around, no
/// remainder by 0), the instructions compute it — the integer, or 1 / 0
/// for a logical value.
pub proof fn law_lowered_value(e: SpecExpr, env: SpecEnv, c: Seq<SpecInstr>, vals: Map<Seq<char>, Value>, ext: spec_fn(int) -> i64)
    requires
        vars_agree(env, vals),
        reads_agree(expr_code(e, env, c).0, env, vals, ext),
        expr_code(e, env, c).0.len() <= usize::MAX,
    ensures
        eval(e, vals) matches Some(v) ==> int_value(expr_code(e, env, c).0, expr_code(e, env, c).1 as int, ext) == num(v),
{
    lemma_value_of_lowered(e, env, c, vals, ext);
}

} // verus!

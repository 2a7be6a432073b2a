//! Abstract syntax of PSeInt programs, with a mathematical model (`Spec*`
//! types) that every contract of the library is stated over.
use vstd::prelude::*;

verus! {

broadcast use vstd::std_specs::vec::group_vec_axioms;

/// Binary operators of the expression language.
#[derive(Debug, Clone, Copy, PartialEq, Eq, Structural)]
pub enum BinaryOp {
    Add,
    Sub,
    Mul,
    Div,
    Mod,
    Power,
    Eq,
    Ne,
    Lt,
    Le,
    Gt,
    Ge,
    And,
    Or,
}

/// Unary operators: arithmetic negation and logical `NO`.
#[derive(Debug, Clone, Copy, PartialEq, Eq, Structural)]
pub enum UnaryOp {
    Neg,
    Not,
}

/// Types of PSeInt values. `Array` carries the element type and the
/// dimension sizes; `Void` is the "type" of a sub-process.
#[derive(Debug)]
pub enum Type {
    Integer,
    Real,
    Boolean,
    String,
    Array(Box<Type>, Vec<usize>),
    Void,
}

/// A literal. A real literal is kept as the decimal text that denotes the
/// `f64` value (the text a program wrote, or the shortest text that reads
/// back as the computed value).
#[derive(Debug)]
pub enum Literal {
    Integer(i64),
    Real(String),
    String(String),
    Boolean(bool),
}

#[derive(Debug)]
pub enum Expression {
    Binary { left: Box<Expression>, op: BinaryOp, right: Box<Expression> },
    Unary { op: UnaryOp, expr: Box<Expression> },
    Literal(Literal),
    Variable(String),
    Index { array: String, indices: Vec<Expression> },
    Call { function: String, args: Vec<Expression> },
}

#[derive(Debug)]
pub enum Statement {
    Define { vars: Vec<String>, ty: Type },
    Assign { target: String, value: Expression },
    Dimension { name: String, sizes: Vec<Expression> },
    IndexAssign { array: String, indices: Vec<Expression>, value: Expression },
    If { condition: Expression, then_branch: Vec<Statement>, else_branch: Option<Vec<Statement>> },
    While { condition: Expression, body: Vec<Statement> },
    Repeat { body: Vec<Statement>, until: Expression },
    For {
        var: String,
        start: Expression,
        end: Expression,
        step: Option<Expression>,
        body: Vec<Statement>,
    },
    Match {
        expression: Expression,
        cases: Vec<(Expression, Vec<Statement>)>,
        default: Option<Vec<Statement>>,
    },
    Call { function: String, args: Vec<Expression> },
    Read(Vec<Expression>),
    Write(Vec<Expression>, bool),
    ClearScreen,
    Wait { duration: Expression, milliseconds: bool },
    WaitKey,
    Return(Option<Expression>),
}

/// A user function or sub-process. `params` holds (name, type, by reference).
#[derive(Debug)]
pub struct Function {
    pub name: String,
    pub params: Vec<(String, Type, bool)>,
    pub return_type: Option<Type>,
    pub return_var: Option<String>,
    pub body: Vec<Statement>,
}

/// A whole program: its functions and the body of its `Algoritmo`.
#[derive(Debug)]
pub struct Program {
    pub name: String,
    pub functions: Vec<Function>,
    pub main_body: Vec<Statement>,
}

// ---------------------------------------------------------------------
// The mathematical model
// ---------------------------------------------------------------------
pub enum SpecType {
    Integer,
    Real,
    Boolean,
    Str,
    Array(Box<SpecType>, Seq<usize>),
    Void,
}

pub enum SpecLit {
    Int(i64),
    Real(Seq<char>),
    Str(Seq<char>),
    Bool(bool),
}

pub enum SpecExpr {
    Binary(Box<SpecExpr>, BinaryOp, Box<SpecExpr>),
    Unary(UnaryOp, Box<SpecExpr>),
    Lit(SpecLit),
    Var(Seq<char>),
    Index(Seq<char>, Seq<SpecExpr>),
    Call(Seq<char>, Seq<SpecExpr>),
}

pub enum SpecStmt {
    Define(Seq<Seq<char>>, SpecType),
    Assign(Seq<char>, SpecExpr),
    Dimension(Seq<char>, Seq<SpecExpr>),
    IndexAssign(Seq<char>, Seq<SpecExpr>, SpecExpr),
    If(SpecExpr, Seq<SpecStmt>, Option<Seq<SpecStmt>>),
    While(SpecExpr, Seq<SpecStmt>),
    Repeat(Seq<SpecStmt>, SpecExpr),
    For(Seq<char>, SpecExpr, SpecExpr, Option<SpecExpr>, Seq<SpecStmt>),
    Match(SpecExpr, Seq<(SpecExpr, Seq<SpecStmt>)>, Option<Seq<SpecStmt>>),
    Call(Seq<char>, Seq<SpecExpr>),
    Read(Seq<SpecExpr>),
    Write(Seq<SpecExpr>, bool),
    ClearScreen,
    Wait(SpecExpr, bool),
    WaitKey,
    Return(Option<SpecExpr>),
}

pub struct SpecFunction {
    pub name: Seq<char>,
    pub params: Seq<(Seq<char>, SpecType, bool)>,
    pub return_type: Option<SpecType>,
    pub return_var: Option<Seq<char>>,
    pub body: Seq<SpecStmt>,
}

pub struct SpecProgram {
    pub name: Seq<char>,
    pub functions: Seq<SpecFunction>,
    pub main_body: Seq<SpecStmt>,
}

pub open spec fn type_view(t: Type) -> SpecType
    decreases t,
{
    match t {
        Type::Integer => SpecType::Integer,
        Type::Real => SpecType::Real,
        Type::Boolean => SpecType::Boolean,
        Type::String => SpecType::Str,
        Type::Array(elem, dims) => SpecType::Array(Box::new(type_view(*elem)), dims@),
        Type::Void => SpecType::Void,
    }
}

impl View for Type {
    type V = SpecType;

    open spec fn view(&self) -> SpecType {
        type_view(*self)
    }
}

impl View for Literal {
    type V = SpecLit;

    open spec fn view(&self) -> SpecLit {
        match *self {
            Literal::Integer(n) => SpecLit::Int(n),
            Literal::Real(t) => SpecLit::Real(t@),
            Literal::String(t) => SpecLit::Str(t@),
            Literal::Boolean(b) => SpecLit::Bool(b),
        }
    }
}

pub open spec fn expr_view(e: Expression) -> SpecExpr
    decreases e,
{
    match e {
        Expression::Binary { left, op, right } => SpecExpr::Binary(
            Box::new(expr_view(*left)),
            op,
            Box::new(expr_view(*right)),
        ),
        Expression::Unary { op, expr } => SpecExpr::Unary(op, Box::new(expr_view(*expr))),
        Expression::Literal(l) => SpecExpr::Lit(l@),
        Expression::Variable(n) => SpecExpr::Var(n@),
        Expression::Index { array, indices } => SpecExpr::Index(array@, exprs_view(indices@)),
        Expression::Call { function, args } => SpecExpr::Call(function@, exprs_view(args@)),
    }
}

pub open spec fn exprs_view(s: Seq<Expression>) -> Seq<SpecExpr>
    decreases s,
{
    if s.len() == 0 {
        Seq::empty()
    } else {
        exprs_view(s.drop_last()).push(expr_view(s.last()))
    }
}

impl View for Expression {
    type V = SpecExpr;

    open spec fn view(&self) -> SpecExpr {
        expr_view(*self)
    }
}

pub open spec fn strings_view(s: Seq<String>) -> Seq<Seq<char>> {
    s.map_values(|x: String| x@)
}

pub open spec fn opt_expr_view(o: Option<Expression>) -> Option<SpecExpr> {
    match o {
        Some(e) => Some(expr_view(e)),
        None => None,
    }
}

pub open spec fn stmt_view(s: Statement) -> SpecStmt
    decreases s,
{
    match s {
        Statement::Define { vars, ty } => SpecStmt::Define(strings_view(vars@), ty@),
        Statement::Assign { target, value } => SpecStmt::Assign(target@, value@),
        Statement::Dimension { name, sizes } => SpecStmt::Dimension(name@, exprs_view(sizes@)),
        Statement::IndexAssign { array, indices, value } => SpecStmt::IndexAssign(
            array@,
            exprs_view(indices@),
            value@,
        ),
        Statement::If { condition, then_branch, else_branch } => SpecStmt::If(
            condition@,
            stmts_view(then_branch@),
            match else_branch {
                Some(b) => Some(stmts_view(b@)),
                None => None,
            },
        ),
        Statement::While { condition, body } => SpecStmt::While(condition@, stmts_view(body@)),
        Statement::Repeat { body, until } => SpecStmt::Repeat(stmts_view(body@), until@),
        Statement::For { var, start, end, step, body } => SpecStmt::For(
            var@,
            start@,
            end@,
            opt_expr_view(step),
            stmts_view(body@),
        ),
        Statement::Match { expression, cases, default } => SpecStmt::Match(
            expression@,
            cases_view(cases@),
            match default {
                Some(b) => Some(stmts_view(b@)),
                None => None,
            },
        ),
        Statement::Call { function, args } => SpecStmt::Call(function@, exprs_view(args@)),
        Statement::Read(targets) => SpecStmt::Read(exprs_view(targets@)),
        Statement::Write(exprs, nl) => SpecStmt::Write(exprs_view(exprs@), nl),
        Statement::ClearScreen => SpecStmt::ClearScreen,
        Statement::Wait { duration, milliseconds } => SpecStmt::Wait(duration@, milliseconds),
        Statement::WaitKey => SpecStmt::WaitKey,
        Statement::Return(e) => SpecStmt::Return(opt_expr_view(e)),
    }
}

pub open spec fn stmts_view(s: Seq<Statement>) -> Seq<SpecStmt>
    decreases s,
{
    if s.len() == 0 {
        Seq::empty()
    } else {
        stmts_view(s.drop_last()).push(stmt_view(s.last()))
    }
}

pub open spec fn cases_view(s: Seq<(Expression, Vec<Statement>)>) -> Seq<(SpecExpr, Seq<SpecStmt>)>
    decreases s,
{
    if s.len() == 0 {
        Seq::empty()
    } else {
        cases_view(s.drop_last()).push((expr_view(s.last().0), stmts_view(s.last().1@)))
    }
}

impl View for Statement {
    type V = SpecStmt;

    open spec fn view(&self) -> SpecStmt {
        stmt_view(*self)
    }
}

pub open spec fn params_view(s: Seq<(String, Type, bool)>) -> Seq<(Seq<char>, SpecType, bool)> {
    s.map_values(|p: (String, Type, bool)| (p.0@, p.1@, p.2))
}

pub open spec fn opt_type_view(o: Option<Type>) -> Option<SpecType> {
    match o {
        Some(t) => Some(t@),
        None => None,
    }
}

pub open spec fn opt_string_view(o: Option<String>) -> Option<Seq<char>> {
    match o {
        Some(t) => Some(t@),
        None => None,
    }
}

impl View for Function {
    type V = SpecFunction;

    open spec fn view(&self) -> SpecFunction {
        SpecFunction {
            name: self.name@,
            params: params_view(self.params@),
            return_type: opt_type_view(self.return_type),
            return_var: opt_string_view(self.return_var),
            body: stmts_view(self.body@),
        }
    }
}

pub open spec fn functions_view(s: Seq<Function>) -> Seq<SpecFunction> {
    s.map_values(|f: Function| f@)
}

impl View for Program {
    type V = SpecProgram;

    open spec fn view(&self) -> SpecProgram {
        SpecProgram {
            name: self.name@,
            functions: functions_view(self.functions@),
            main_body: stmts_view(self.main_body@),
        }
    }
}

// ---------------------------------------------------------------------
// Facts about the sequence views
// ---------------------------------------------------------------------
pub proof fn lemma_exprs_view(s: Seq<Expression>)
    ensures
        exprs_view(s).len() == s.len(),
        forall|i: int| 0 <= i < s.len() ==> #[trigger] exprs_view(s)[i] == expr_view(s[i]),
    decreases s.len(),
{
    if s.len() > 0 {
        lemma_exprs_view(s.drop_last());
    }
}

pub proof fn lemma_stmts_view(s: Seq<Statement>)
    ensures
        stmts_view(s).len() == s.len(),
        forall|i: int| 0 <= i < s.len() ==> #[trigger] stmts_view(s)[i] == stmt_view(s[i]),
    decreases s.len(),
{
    if s.len() > 0 {
        lemma_stmts_view(s.drop_last());
    }
}

pub proof fn lemma_cases_view(s: Seq<(Expression, Vec<Statement>)>)
    ensures
        cases_view(s).len() == s.len(),
        forall|i: int|
            0 <= i < s.len() ==> #[trigger] cases_view(s)[i] == (
            expr_view(s[i].0),
            stmts_view(s[i].1@),
        ),
    decreases s.len(),
{
    if s.len() > 0 {
        lemma_cases_view(s.drop_last());
    }
}

/// Two sequences of expressions with pointwise equal views have equal views.
pub proof fn lemma_exprs_view_ext(a: Seq<Expression>, b: Seq<Expression>)
    requires
        a.len() == b.len(),
        forall|i: int| 0 <= i < a.len() ==> #[trigger] expr_view(a[i]) == expr_view(b[i]),
    ensures
        exprs_view(a) == exprs_view(b),
{
    lemma_exprs_view(a);
    lemma_exprs_view(b);
    assert(exprs_view(a) =~= exprs_view(b));
}

pub proof fn lemma_stmts_view_ext(a: Seq<Statement>, b: Seq<Statement>)
    requires
        a.len() == b.len(),
        forall|i: int| 0 <= i < a.len() ==> #[trigger] stmt_view(a[i]) == stmt_view(b[i]),
    ensures
        stmts_view(a) == stmts_view(b),
{
    lemma_stmts_view(a);
    lemma_stmts_view(b);
    assert(stmts_view(a) =~= stmts_view(b));
}

pub proof fn lemma_exprs_view_push(s: Seq<Expression>, e: Expression)
    ensures
        exprs_view(s.push(e)) == exprs_view(s).push(expr_view(e)),
{
    assert(s.push(e).drop_last() =~= s);
}

pub proof fn lemma_stmts_view_push(s: Seq<Statement>, e: Statement)
    ensures
        stmts_view(s.push(e)) == stmts_view(s).push(stmt_view(e)),
{
    assert(s.push(e).drop_last() =~= s);
}

pub proof fn lemma_cases_view_push(s: Seq<(Expression, Vec<Statement>)>, c: (Expression, Vec<Statement>))
    ensures
        cases_view(s.push(c)) == cases_view(s).push((expr_view(c.0), stmts_view(c.1@))),
{
    assert(s.push(c).drop_last() =~= s);
}

// ---------------------------------------------------------------------
// Copies with the same view as what they copy
// ---------------------------------------------------------------------
pub fn copy_string(s: &String) -> (r: String)
    ensures
        r@ == s@,
{
    s.clone()
}

impl Type {
    pub fn copy(&self) -> (r: Type)
        ensures
            r@ == self@,
        decreases self,
    {
        match self {
            Type::Integer => Type::Integer,
            Type::Real => Type::Real,
            Type::Boolean => Type::Boolean,
            Type::String => Type::String,
            Type::Void => Type::Void,
            Type::Array(elem, dims) => {
                let mut d: Vec<usize> = Vec::new();
                let mut i: usize = 0;
                while i < dims.len()
                    invariant
                        i <= dims@.len(),
                        d@ == dims@.subrange(0, i as int),
                    decreases dims@.len() - i,
                {
                    d.push(dims[i]);
                    i += 1;
                    assert(d@ =~= dims@.subrange(0, i as int));
                }
                assert(d@ =~= dims@);
                Type::Array(Box::new(elem.copy()), d)
            },
        }
    }

    /// Equality of types by their models.
    pub fn equals(&self, other: &Type) -> (r: bool)
        ensures
            r == (self@ == other@),
        decreases self,
    {
        match (self, other) {
            (Type::Integer, Type::Integer) => true,
            (Type::Real, Type::Real) => true,
            (Type::Boolean, Type::Boolean) => true,
            (Type::String, Type::String) => true,
            (Type::Void, Type::Void) => true,
            (Type::Array(e1, d1), Type::Array(e2, d2)) => {
                if !e1.equals(e2) {
                    return false;
                }
                if d1.len() != d2.len() {
                    return false;
                }
                let mut i: usize = 0;
                let mut same = true;
                while i < d1.len() && same
                    invariant
                        i <= d1@.len(),
                        d1@.len() == d2@.len(),
                        same ==> forall|j: int| 0 <= j < i ==> d1@[j] == d2@[j],
                        !same ==> d1@ != d2@,
                    decreases d1@.len() - i + (if same { 1int } else { 0int }),
                {
                    if d1[i] != d2[i] {
                        assert(d1@[i as int] != d2@[i as int]);
                        same = false;
                    } else {
                        i += 1;
                    }
                }
                if same {
                    assert(d1@ =~= d2@);
                }
                same
            },
            _ => false,
        }
    }

    pub fn is_integer(&self) -> (r: bool)
        ensures
            r == (self@ == SpecType::Integer),
    {
        matches!(self, Type::Integer)
    }

    pub fn is_real(&self) -> (r: bool)
        ensures
            r == (self@ == SpecType::Real),
    {
        matches!(self, Type::Real)
    }

    pub fn is_boolean(&self) -> (r: bool)
        ensures
            r == (self@ == SpecType::Boolean),
    {
        matches!(self, Type::Boolean)
    }

    pub fn is_string(&self) -> (r: bool)
        ensures
            r == (self@ == SpecType::Str),
    {
        matches!(self, Type::String)
    }

    pub fn is_void(&self) -> (r: bool)
        ensures
            r == (self@ == SpecType::Void),
    {
        matches!(self, Type::Void)
    }
}

pub open spec fn spec_type_name(t: SpecType) -> Seq<char> {
    match t {
        SpecType::Integer => "Entero"@,
        SpecType::Real => "Real"@,
        SpecType::Boolean => "Logico"@,
        SpecType::Str => "Caracter"@,
        SpecType::Void => "Void"@,
        SpecType::Array(_, _) => "Arreglo"@,
    }
}

impl Type {
    /// The name under which the type is shown to the user.
    pub fn name(&self) -> (r: String)
        ensures
            r@ == spec_type_name(self@),
    {
        match self {
            Type::Integer => String::from_str("Entero"),
            Type::Real => String::from_str("Real"),
            Type::Boolean => String::from_str("Logico"),
            Type::String => String::from_str("Caracter"),
            Type::Void => String::from_str("Void"),
            Type::Array(_, _) => String::from_str("Arreglo"),
        }
    }
}

impl Literal {
    pub fn copy(&self) -> (r: Literal)
        ensures
            r@ == self@,
    {
        match self {
            Literal::Integer(n) => Literal::Integer(*n),
            Literal::Real(t) => Literal::Real(t.clone()),
            Literal::String(t) => Literal::String(t.clone()),
            Literal::Boolean(b) => Literal::Boolean(*b),
        }
    }
}

pub fn copy_exprs(v: &Vec<Expression>) -> (r: Vec<Expression>)
    ensures
        exprs_view(r@) == exprs_view(v@),
        r@.len() == v@.len(),
    decreases v,
{
    let mut out: Vec<Expression> = Vec::new();
    let mut i: usize = 0;
    while i < v.len()
        invariant
            i <= v@.len(),
            out@.len() == i,
            forall|j: int| 0 <= j < i ==> #[trigger] expr_view(out@[j]) == expr_view(v@[j]),
            forall|k: int| 0 <= k < v@.len() ==> decreases_to!(*v => #[trigger] v@[k]),
        decreases v@.len() - i,
    {
        out.push(v[i].copy());
        i += 1;
    }
    proof {
        lemma_exprs_view_ext(out@, v@);
    }
    out
}

impl Expression {
    pub fn copy(&self) -> (r: Expression)
        ensures
            r@ == self@,
        decreases self,
    {
        match self {
            Expression::Binary { left, op, right } => Expression::Binary {
                left: Box::new(left.copy()),
                op: *op,
                right: Box::new(right.copy()),
            },
            Expression::Unary { op, expr } => Expression::Unary {
                op: *op,
                expr: Box::new(expr.copy()),
            },
            Expression::Literal(l) => Expression::Literal(l.copy()),
            Expression::Variable(n) => Expression::Variable(n.clone()),
            Expression::Index { array, indices } => {
                proof {
                    assert(decreases_to!(*self => *indices));
                }
                Expression::Index { array: array.clone(), indices: copy_exprs(indices) }
            },
            Expression::Call { function, args } => {
                proof {
                    assert(decreases_to!(*self => *args));
                }
                Expression::Call { function: function.clone(), args: copy_exprs(args) }
            },
        }
    }
}

pub fn copy_strings(v: &Vec<String>) -> (r: Vec<String>)
    ensures
        strings_view(r@) == strings_view(v@),
{
    let mut out: Vec<String> = Vec::new();
    let mut i: usize = 0;
    while i < v.len()
        invariant
            i <= v@.len(),
            out@.len() == i,
            forall|j: int| 0 <= j < i ==> #[trigger] out@[j]@ == v@[j]@,
        decreases v@.len() - i,
    {
        out.push(v[i].clone());
        i += 1;
    }
    assert(strings_view(out@) =~= strings_view(v@));
    out
}

pub fn copy_opt_expr(o: &Option<Expression>) -> (r: Option<Expression>)
    ensures
        opt_expr_view(r) == opt_expr_view(*o),
{
    match o {
        Some(e) => Some(e.copy()),
        None => None,
    }
}

pub open spec fn opt_stmts_view(o: Option<Vec<Statement>>) -> Option<Seq<SpecStmt>> {
    match o {
        Some(b) => Some(stmts_view(b@)),
        None => None,
    }
}

pub fn copy_opt_stmts(o: &Option<Vec<Statement>>) -> (r: Option<Vec<Statement>>)
    ensures
        opt_stmts_view(r) == opt_stmts_view(*o),
    decreases o,
{
    match o {
        Some(b) => {
            proof {
                assert(decreases_to!(*o => *b));
            }
            Some(copy_stmts(b))
        },
        None => None,
    }
}

pub fn copy_cases(v: &Vec<(Expression, Vec<Statement>)>) -> (r: Vec<(Expression, Vec<Statement>)>)
    ensures
        cases_view(r@) == cases_view(v@),
    decreases v,
{
    let mut out: Vec<(Expression, Vec<Statement>)> = Vec::new();
    let mut i: usize = 0;
    proof {
        lemma_cases_view(v@);
    }
    while i < v.len()
        invariant
            i <= v@.len(),
            cases_view(out@) == cases_view(v@).subrange(0, i as int),
            cases_view(v@).len() == v@.len(),
            forall|j: int| 0 <= j < v@.len() ==> #[trigger] cases_view(v@)[j] == (expr_view(v@[j].0), stmts_view(v@[j].1@)),
            forall|k: int| 0 <= k < v@.len() ==> decreases_to!(*v => #[trigger] v@[k].1),
        decreases v@.len() - i,
    {
        let c = (v[i].0.copy(), copy_stmts(&v[i].1));
        let ghost before = out@;
        out.push(c);
        proof {
            lemma_cases_view_push(before, c);
            assert(cases_view(v@).subrange(0, i + 1) =~= cases_view(v@).subrange(0, i as int).push(cases_view(v@)[i as int]));
        }
        i += 1;
    }
    assert(cases_view(v@).subrange(0, v@.len() as int) =~= cases_view(v@));
    out
}

pub fn copy_stmts(v: &Vec<Statement>) -> (r: Vec<Statement>)
    ensures
        stmts_view(r@) == stmts_view(v@),
    decreases v,
{
    let mut out: Vec<Statement> = Vec::new();
    let mut i: usize = 0;
    while i < v.len()
        invariant
            i <= v@.len(),
            out@.len() == i,
            forall|j: int| 0 <= j < i ==> #[trigger] stmt_view(out@[j]) == stmt_view(v@[j]),
            forall|k: int| 0 <= k < v@.len() ==> decreases_to!(*v => #[trigger] v@[k]),
        decreases v@.len() - i,
    {
        out.push(v[i].copy());
        i += 1;
    }
    proof {
        lemma_stmts_view_ext(out@, v@);
    }
    out
}

impl Statement {
    pub fn copy(&self) -> (r: Statement)
        ensures
            r@ == self@,
        decreases self,
    {
        match self {
            Statement::Define { vars, ty } => Statement::Define { vars: copy_strings(vars), ty: ty.copy() },
            Statement::Assign { target, value } => Statement::Assign {
                target: target.clone(),
                value: value.copy(),
            },
            Statement::Dimension { name, sizes } => Statement::Dimension {
                name: name.clone(),
                sizes: copy_exprs(sizes),
            },
            Statement::IndexAssign { array, indices, value } => Statement::IndexAssign {
                array: array.clone(),
                indices: copy_exprs(indices),
                value: value.copy(),
            },
            Statement::If { condition, then_branch, else_branch } => {
                proof {
                    assert(decreases_to!(*self => *then_branch));
                    assert(decreases_to!(*self => *else_branch));
                }
                let r = Statement::If {
                    condition: condition.copy(),
                    then_branch: copy_stmts(then_branch),
                    else_branch: copy_opt_stmts(else_branch),
                };
                r
            },
            Statement::While { condition, body } => {
                proof {
                    assert(decreases_to!(*self => *body));
                }
                Statement::While { condition: condition.copy(), body: copy_stmts(body) }
            },
            Statement::Repeat { body, until } => {
                proof {
                    assert(decreases_to!(*self => *body));
                }
                Statement::Repeat { body: copy_stmts(body), until: until.copy() }
            },
            Statement::For { var, start, end, step, body } => {
                proof {
                    assert(decreases_to!(*self => *body));
                }
                Statement::For {
                    var: var.clone(),
                    start: start.copy(),
                    end: end.copy(),
                    step: copy_opt_expr(step),
                    body: copy_stmts(body),
                }
            },
            Statement::Match { expression, cases, default } => {
                proof {
                    assert(decreases_to!(*self => *cases));
                    assert(decreases_to!(*self => *default));
                }
                Statement::Match {
                    expression: expression.copy(),
                    cases: copy_cases(cases),
                    default: copy_opt_stmts(default),
                }
            },
            Statement::Call { function, args } => Statement::Call {
                function: function.clone(),
                args: copy_exprs(args),
            },
            Statement::Read(targets) => Statement::Read(copy_exprs(targets)),
            Statement::Write(exprs, nl) => Statement::Write(copy_exprs(exprs), *nl),
            Statement::ClearScreen => Statement::ClearScreen,
            Statement::Wait { duration, milliseconds } => Statement::Wait {
                duration: duration.copy(),
                milliseconds: *milliseconds,
            },
            Statement::WaitKey => Statement::WaitKey,
            Statement::Return(e) => Statement::Return(copy_opt_expr(e)),
        }
    }
}

pub fn copy_params(v: &Vec<(String, Type, bool)>) -> (r: Vec<(String, Type, bool)>)
    ensures
        params_view(r@) == params_view(v@),
{
    let mut out: Vec<(String, Type, bool)> = Vec::new();
    let mut i: usize = 0;
    while i < v.len()
        invariant
            i <= v@.len(),
            out@.len() == i,
            forall|j: int| 0 <= j < i ==> #[trigger] out@[j].0@ == v@[j].0@ && out@[j].1@ == v@[j].1@ && out@[j].2 == v@[j].2,
        decreases v@.len() - i,
    {
        out.push((v[i].0.clone(), v[i].1.copy(), v[i].2));
        i += 1;
    }
    assert(params_view(out@) =~= params_view(v@));
    out
}

pub fn copy_opt_string(o: &Option<String>) -> (r: Option<String>)
    ensures
        opt_string_view(r) == opt_string_view(*o),
{
    match o {
        Some(x) => Some(x.clone()),
        None => None,
    }
}

pub fn copy_opt_type(o: &Option<Type>) -> (r: Option<Type>)
    ensures
        opt_type_view(r) == opt_type_view(*o),
{
    match o {
        Some(t) => Some(t.copy()),
        None => None,
    }
}

impl Function {
    /// The same function with another body.
    pub fn with_body(&self, body: Vec<Statement>) -> (r: Function)
        ensures
            r@ == (SpecFunction { body: stmts_view(body@), ..self@ }),
    {
        Function {
            name: self.name.clone(),
            params: copy_params(&self.params),
            return_type: copy_opt_type(&self.return_type),
            return_var: copy_opt_string(&self.return_var),
            body,
        }
    }
}

} // verus!

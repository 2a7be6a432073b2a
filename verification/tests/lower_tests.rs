use psc::ast::{BinaryOp, Expression, Literal, Program, Statement, Type};
use psc::lexer::tokenize;
use psc::lower::{flat_index, lower_expr, lower_function, lower_stmts, signature, Cond, Instr, LowerEnv, MKind};
use psc::parser::parser;

fn program(src: &str) -> Program {
    let l = tokenize(src);
    match parser(&l.tokens) {
        Ok(p) => p,
        Err(e) => panic!("parse error at token {}", e.position),
    }
}

fn empty_env() -> LowerEnv {
    LowerEnv {
        vars: Vec::new(),
        array_dims: Vec::new(),
        const_dims: Vec::new(),
        elem_types: Vec::new(),
        array_params: Vec::new(),
        functions: Vec::new(),
    }
}

/// Runs the integer instructions: wrapping arithmetic, 1 or 0 for a comparison.
fn eval(code: &[Instr], v: usize) -> i64 {
    match &code[v] {
        Instr::IConst(n) => *n,
        Instr::IAdd(a, b) => eval(code, *a).wrapping_add(eval(code, *b)),
        Instr::ISub(a, b) => eval(code, *a).wrapping_sub(eval(code, *b)),
        Instr::IMul(a, b) => eval(code, *a).wrapping_mul(eval(code, *b)),
        Instr::BAnd(a, b) => eval(code, *a) & eval(code, *b),
        Instr::BOr(a, b) => eval(code, *a) | eval(code, *b),
        Instr::SRem(a, b) => eval(code, *a).checked_rem(eval(code, *b)).unwrap(),
        Instr::ICmp(c, a, b) => {
            let (x, y) = (eval(code, *a), eval(code, *b));
            let r = match c {
                Cond::Eq => x == y,
                Cond::Ne => x != y,
                Cond::Lt => x < y,
                Cond::Le => x <= y,
                Cond::Gt => x > y,
                Cond::Ge => x >= y,
            };
            r as i64
        }
        Instr::Select(c, a, b) => {
            if eval(code, *c) != 0 {
                eval(code, *a)
            } else {
                eval(code, *b)
            }
        }
        other => panic!("not an integer instruction: {:?}", other),
    }
}

fn flat(dims: &[i64], idx: &[i64]) -> i64 {
    let mut code = Vec::new();
    let mut d = Vec::new();
    for x in dims {
        d.push(code.len());
        code.push(Instr::IConst(*x));
    }
    let mut i = Vec::new();
    for x in idx {
        i.push(code.len());
        code.push(Instr::IConst(*x));
    }
    let r = flat_index(&d, &i, &mut code);
    eval(&code, r)
}

#[test]
fn row_major_positions() {
    assert_eq!(flat(&[3, 4], &[1, 1]), 0);
    assert_eq!(flat(&[3, 4], &[2, 3]), 6);
    assert_eq!(flat(&[3, 4], &[3, 4]), 11);
    assert_eq!(flat(&[2, 3, 4], &[2, 3, 4]), 23);
    assert_eq!(flat(&[5], &[5]), 4);
}

#[test]
fn row_major_positions_are_clamped_inside_the_array() {
    assert_eq!(flat(&[3, 4], &[0, 0]), 0);
    assert_eq!(flat(&[3, 4], &[10, 10]), 11);
    assert_eq!(flat(&[3, 4], &[-5, 2]), 1);
    assert_eq!(flat(&[3, 4], &[i64::MIN, 1]), 8);
    for a in -2..6 {
        for b in -2..7 {
            let p = flat(&[3, 4], &[a, b]);
            assert!((0..12).contains(&p));
        }
    }
}

#[test]
fn unknown_dimensions_only_keep_indices_non_negative() {
    assert_eq!(flat(&[], &[7]), 6);
    assert_eq!(flat(&[], &[-3]), 0);
}

#[test]
fn integer_addition_lowers_to_one_instruction() {
    let e = Expression::Binary {
        left: Box::new(Expression::Literal(Literal::Integer(2))),
        op: BinaryOp::Add,
        right: Box::new(Expression::Literal(Literal::Integer(3))),
    };
    let mut code = Vec::new();
    let (v, t) = lower_expr(&e, &empty_env(), &mut code);
    assert_eq!(code.len(), 3);
    assert!(matches!(code[0], Instr::IConst(2)));
    assert!(matches!(code[1], Instr::IConst(3)));
    assert!(matches!(code[2], Instr::IAdd(0, 1)));
    assert_eq!(v, 2);
    assert!(matches!(t, Type::Integer));
    assert_eq!(eval(&code, v), 5);
}

#[test]
fn remainder_of_reals_calls_the_real_remainder() {
    let e = Expression::Binary {
        left: Box::new(Expression::Literal(Literal::Real("7.5".to_string()))),
        op: BinaryOp::Mod,
        right: Box::new(Expression::Literal(Literal::Integer(2))),
    };
    let mut code = Vec::new();
    let (v, t) = lower_expr(&e, &empty_env(), &mut code);
    assert!(matches!(t, Type::Real));
    assert!(matches!(&code[1], Instr::IConst(2)));
    assert!(matches!(&code[2], Instr::FromInt(1)));
    assert!(matches!(&code[v], Instr::CallRuntime(name, ps, Some(MKind::Float), args)
        if name == "builtin_fmod" && ps == &vec![MKind::Float, MKind::Float] && args == &vec![0, 2]));
}

#[test]
fn integer_division_by_zero_gives_zero() {
    let e = Expression::Binary {
        left: Box::new(Expression::Literal(Literal::Integer(7))),
        op: BinaryOp::Mod,
        right: Box::new(Expression::Literal(Literal::Integer(0))),
    };
    let mut code = Vec::new();
    let (v, _) = lower_expr(&e, &empty_env(), &mut code);
    assert!(code.iter().any(|i| matches!(i, Instr::SRem(..))));
    assert!(matches!(&code[v], Instr::Select(..)));
}

#[test]
fn reference_argument_in_an_array_element_is_stored_back() {
    let p = program(
        "SubProceso Doble(x Por Referencia)
            x <- x * 2
        FinSubProceso
        Algoritmo P
            Dimension v[3]
            Doble(v[2])
        FinAlgoritmo",
    );
    let mut env = empty_env();
    env.const_dims = vec![("v".to_string(), vec![3])];
    let f = &p.functions[0];
    env.functions = vec![(
        "doble".to_string(),
        (f.params.iter().map(|(n, t, r)| (n.clone(), t.copy(), *r)).collect(), None, false),
    )];
    let mut code = vec![Instr::EntryBlock];
    lower_stmts(&p.main_body, &mut env, &mut code);
    let call = code.iter().position(|i| matches!(i, Instr::CallUser(..))).unwrap();
    assert!(matches!(&code[call], Instr::CallUser(n, args, rets) if n == "doble" && args.len() == 1 && rets == &vec![MKind::Int]));
    assert!(matches!(&code[call + 2], Instr::CallResult(c, 0) if *c == call));
    assert!(matches!(&code[call + 3], Instr::Store(x, _) if *x == call + 2));
}

#[test]
fn reference_argument_in_a_variable_gets_the_result() {
    let p = program(
        "SubProceso Doble(x Por Referencia)
            x <- x * 2
        FinSubProceso
        Algoritmo P
            a <- 5
            Doble(a)
        FinAlgoritmo",
    );
    let mut env = empty_env();
    let f = &p.functions[0];
    env.functions = vec![(
        "doble".to_string(),
        (f.params.iter().map(|(n, t, r)| (n.clone(), t.copy(), *r)).collect(), None, false),
    )];
    let mut code = vec![Instr::EntryBlock];
    lower_stmts(&p.main_body, &mut env, &mut code);
    assert!(matches!(code.last().unwrap(), Instr::DefVar(0, _)));
    let mut fcode = Vec::new();
    let mut fenv = empty_env();
    lower_function(f, &mut fenv, &mut fcode);
    assert!(matches!(&fcode[0], Instr::EntryBlock));
    assert!(matches!(&fcode[1], Instr::DeclareVar(0, MKind::Int)));
    assert!(matches!(&fcode[2], Instr::Param(0)));
    assert!(matches!(fcode.last().unwrap(), Instr::Return(vs) if vs.len() == 1));
}

#[test]
fn array_parameters_take_their_dimensions_from_hidden_parameters() {
    let p = program(
        "SubProceso Poner(m, k)
            m[k, 1] <- 0
        FinSubProceso
        Algoritmo P
        FinAlgoritmo",
    );
    let mut env = empty_env();
    env.array_params = vec![("poner".to_string(), vec![(0, 2)])];
    let mut code = Vec::new();
    lower_function(&p.functions[0], &mut env, &mut code);
    let params: Vec<usize> = code
        .iter()
        .filter_map(|i| if let Instr::Param(k) = i { Some(*k) } else { None })
        .collect();
    assert_eq!(params, vec![0, 1, 2, 3]);
    assert!(env.array_dims.iter().any(|(n, d)| n == "m" && d.len() == 2));
    assert!(code.iter().any(|i| matches!(i, Instr::Store(..))));
}

#[test]
fn loops_have_their_blocks() {
    let p = program(
        "Algoritmo P
            x <- 0
            Mientras x < 3 Hacer
                x <- x + 1
            FinMientras
        FinAlgoritmo",
    );
    let mut env = empty_env();
    let mut code = vec![Instr::EntryBlock];
    lower_stmts(&p.main_body, &mut env, &mut code);
    assert_eq!(code.iter().filter(|i| matches!(i, Instr::NewBlock)).count(), 3);
    assert_eq!(code.iter().filter(|i| matches!(i, Instr::Brif(..))).count(), 1);
    assert!(matches!(code.last().unwrap(), Instr::Seal(_)));
    assert_eq!(env.vars.len(), 1);
}

#[test]
fn assigning_an_integer_to_a_real_variable_converts_it() {
    let p = program(
        "Algoritmo P
            Definir r Como Real
            r <- 3
        FinAlgoritmo",
    );
    let mut env = empty_env();
    let mut code = Vec::new();
    lower_stmts(&p.main_body, &mut env, &mut code);
    assert!(matches!(&code[0], Instr::DeclareVar(0, MKind::Float)));
    assert!(matches!(&code[1], Instr::FConst(t) if t == "0.0"));
    assert!(matches!(&code[4], Instr::FromInt(3)));
    assert!(matches!(&code[5], Instr::DefVar(0, 4)));
}

#[test]
fn case_statements_compare_each_case_value() {
    let p = program(
        "Algoritmo P
            k <- 2
            Segun k Hacer
                1: Escribir 10
                2: Escribir 20
                Sino: Escribir 0
            FinSegun
        FinAlgoritmo",
    );
    let mut env = empty_env();
    let mut code = vec![Instr::EntryBlock];
    lower_stmts(&p.main_body, &mut env, &mut code);
    assert_eq!(code.iter().filter(|i| matches!(i, Instr::ICmp(Cond::Eq, ..))).count(), 2);
    assert_eq!(code.iter().filter(|i| matches!(i, Instr::Brif(..))).count(), 2);
    assert_eq!(code.iter().filter(|i| matches!(i, Instr::NewBlock)).count(), 5);
    let prints = code
        .iter()
        .filter(|i| matches!(i, Instr::CallRuntime(n, ..) if n == "print_int"))
        .count();
    assert_eq!(prints, 3);
}

#[test]
fn logical_and_of_integers_is_typed_as_an_integer() {
    let e = Expression::Binary {
        left: Box::new(Expression::Literal(Literal::Integer(1))),
        op: BinaryOp::And,
        right: Box::new(Expression::Literal(Literal::Integer(2))),
    };
    let mut code = Vec::new();
    let (v, t) = lower_expr(&e, &empty_env(), &mut code);
    assert!(matches!(t, Type::Integer));
    assert!(matches!(&code[v], Instr::BAnd(0, 1)));
}

#[test]
fn signatures_list_hidden_dimensions_and_results() {
    let p = program(
        "Funcion r <- F(a Como Real, m, k Por Referencia)
            r <- 1
        FinFuncion
        Algoritmo P
        FinAlgoritmo",
    );
    let (ps, rs) = signature(&p.functions[0], &vec![(1, 2), (7, 3)]);
    assert_eq!(ps, vec![MKind::Float, MKind::Int, MKind::Int, MKind::Int, MKind::Int]);
    assert_eq!(rs, vec![MKind::Int, MKind::Int]);
}

#[test]
fn lowered_integer_expressions_compute_their_values() {
    let p = program(
        "Algoritmo P
            Escribir (17 MOD 5) * 3 - -4, 7 MOD 0, (2 < 3) Y NO (4 = 5), (1 > 2) O (3 <> 3)
        FinAlgoritmo",
    );
    let es = match &p.main_body[0] {
        Statement::Write(es, _) => es,
        _ => panic!("expected Escribir"),
    };
    let expected = [10, 0, 1, 0];
    for (e, want) in es.iter().zip(expected) {
        let mut code = Vec::new();
        let (v, _) = lower_expr(e, &empty_env(), &mut code);
        assert_eq!(eval(&code, v), want);
    }
}

use psc::ast::{BinaryOp, Expression, Literal, Statement, Type, UnaryOp};
use psc::lexer::tokenize;
use psc::parser::parser;

const SUMA: &str = "Algoritmo Suma
    Escribir \"Ingrese el primer numero:\"
    Leer A
    Escribir \"Ingrese el segundo numero:\"
    Leer B
    C <- A + B
    Escribir \"El resultado es: \", C
FinAlgoritmo
";

const POTENCIA: &str = "Funcion resultado <- Potencia (base, exponente)
    Si exponente = 0 Entonces
        resultado <- 1
    SiNo
        resultado <- base * Potencia(base, exponente - 1)
    FinSi
FinFuncion

Algoritmo Principal
    Escribir \"Ingrese Base\"
    Leer base
    Escribir \"Ingrese Exponente\"
    Leer exponente
    Escribir \"El resultado es \", Potencia(base, exponente)
FinAlgoritmo
";

fn parse(src: &str) -> psc::ast::Program {
    let l = tokenize(src);
    assert!(l.errors.is_empty());
    match parser(&l.tokens) {
        Ok(p) => p,
        Err(e) => panic!("parse error at token {}", e.position),
    }
}

fn main_value(src: &str) -> Expression {
    let mut p = parse(src);
    match p.main_body.remove(0) {
        Statement::Assign { value, .. } => value,
        other => panic!("not an assignment: {:?}", other),
    }
}

fn is_var(e: &Expression, name: &str) -> bool {
    matches!(e, Expression::Variable(n) if n == name)
}

fn is_int(e: &Expression, k: i64) -> bool {
    matches!(e, Expression::Literal(Literal::Integer(n)) if *n == k)
}

#[test]
fn parses_the_sum_example() {
    let p = parse(SUMA);
    assert_eq!(p.name, "Suma");
    assert!(p.functions.is_empty());
    assert_eq!(p.main_body.len(), 6);
    match &p.main_body[0] {
        Statement::Write(es, nl) => {
            assert!(*nl);
            assert!(matches!(&es[0], Expression::Literal(Literal::String(s)) if s == "\"Ingrese el primer numero:\""));
        },
        other => panic!("{:?}", other),
    }
    assert!(matches!(&p.main_body[1], Statement::Read(ts) if ts.len() == 1 && is_var(&ts[0], "A")));
    match &p.main_body[4] {
        Statement::Assign { target, value } => {
            assert_eq!(target, "C");
            assert!(matches!(value, Expression::Binary { left, op: BinaryOp::Add, right } if is_var(left, "A") && is_var(right, "B")));
        },
        other => panic!("{:?}", other),
    }
    assert!(matches!(&p.main_body[5], Statement::Write(es, true) if es.len() == 2 && is_var(&es[1], "C")));
}

#[test]
fn parses_a_recursive_function() {
    let p = parse(POTENCIA);
    assert_eq!(p.name, "Principal");
    assert_eq!(p.functions.len(), 1);
    let f = &p.functions[0];
    assert_eq!(f.name, "Potencia");
    assert_eq!(f.return_var.as_deref(), Some("resultado"));
    assert!(matches!(f.return_type, Some(Type::Integer)));
    assert_eq!(f.params.len(), 2);
    assert_eq!(f.params[0].0, "base");
    assert!(matches!(f.params[0].1, Type::Integer));
    assert!(!f.params[0].2);
    assert_eq!(f.body.len(), 1);
    assert!(matches!(&f.body[0], Statement::If { else_branch: Some(e), .. } if e.len() == 1));
    assert_eq!(p.main_body.len(), 5);
}

#[test]
fn parameter_types_come_from_the_body() {
    let p = parse(
        "SubProceso Mostrar(mensaje, n Por Referencia, r Como Real)
            Definir MENSAJE Como Cadena
            Escribir mensaje
        FinSubProceso
        Algoritmo P
        FinAlgoritmo",
    );
    let f = &p.functions[0];
    assert_eq!(f.name, "Mostrar");
    assert!(f.return_var.is_none());
    assert!(matches!(f.return_type, Some(Type::Void)));
    assert!(matches!(f.params[0].1, Type::String));
    assert!(matches!(f.params[1].1, Type::Integer));
    assert!(f.params[1].2);
    assert!(matches!(f.params[2].1, Type::Real));
}

#[test]
fn multiplication_binds_tighter_than_addition() {
    let e = main_value("Algoritmo P x <- 1 + 2 * 3 FinAlgoritmo");
    match e {
        Expression::Binary { left, op: BinaryOp::Add, right } => {
            assert!(is_int(&left, 1));
            assert!(matches!(*right, Expression::Binary { op: BinaryOp::Mul, .. }));
        },
        other => panic!("{:?}", other),
    }
}

#[test]
fn binary_operators_associate_to_the_left() {
    let e = main_value("Algoritmo P x <- a Y b O c FinAlgoritmo");
    match e {
        Expression::Binary { left, op: BinaryOp::Or, right } => {
            assert!(matches!(*left, Expression::Binary { op: BinaryOp::And, .. }));
            assert!(is_var(&right, "c"));
        },
        other => panic!("{:?}", other),
    }
    let e = main_value("Algoritmo P x <- 8 - 2 - 1 FinAlgoritmo");
    assert!(matches!(e, Expression::Binary { op: BinaryOp::Sub, right, .. } if is_int(&right, 1)));
}

#[test]
fn prefix_operators_bind_tightest() {
    let e = main_value("Algoritmo P x <- -2 ^ 2 FinAlgoritmo");
    match e {
        Expression::Binary { left, op: BinaryOp::Power, right } => {
            assert!(matches!(*left, Expression::Unary { op: UnaryOp::Neg, .. }));
            assert!(is_int(&right, 2));
        },
        other => panic!("{:?}", other),
    }
    let e = main_value("Algoritmo P x <- NO NO b FinAlgoritmo");
    assert!(matches!(e, Expression::Unary { op: UnaryOp::Not, expr } if matches!(*expr, Expression::Unary { op: UnaryOp::Not, .. })));
}

#[test]
fn calls_indices_and_parentheses() {
    let e = main_value("Algoritmo P x <- (f(1, 2) + v[i, j]) * 3 FinAlgoritmo");
    match e {
        Expression::Binary { left, op: BinaryOp::Mul, .. } => match *left {
            Expression::Binary { left: l, right: r, .. } => {
                assert!(matches!(*l, Expression::Call { ref function, ref args } if function == "f" && args.len() == 2));
                assert!(matches!(*r, Expression::Index { ref array, ref indices } if array == "v" && indices.len() == 2));
            },
            other => panic!("{:?}", other),
        },
        other => panic!("{:?}", other),
    }
}

#[test]
fn parses_every_statement_form() {
    let p = parse(
        "Algoritmo P
            Definir a, b Como Entero;
            Dimension v[10]
            Dimension w(4)
            v[1] <- 3
            a = 2
            Leer a, v[2]
            Escribir Sin Saltar \"x\", a
            Escribir \"y\" Sin Saltar
            Si a > 1 Entonces Escribir 1 Sino Escribir 2 FinSi
            Mientras a < 10 Hacer a <- a + 1 FinMientras
            Repetir a <- a - 1 Hasta Que a = 0
            Para i <- 1 Hasta 10 Con Paso 2 Hacer Escribir i FinPara
            Segun a Hacer 1: Escribir 1 2: Escribir 2 Sino: Escribir 0 FinSegun
            Esperar 2 Segundos
            Esperar 100 Milisegundos
            Esperar Tecla
            Borrar Pantalla
            Limpiar(a, 1)
            Limpiar
        FinAlgoritmo",
    );
    let b = &p.main_body;
    assert!(matches!(&b[0], Statement::Define { vars, ty: Type::Integer } if vars.len() == 2));
    assert!(matches!(&b[1], Statement::Dimension { name, sizes } if name == "v" && sizes.len() == 1));
    assert!(matches!(&b[2], Statement::Dimension { name, .. } if name == "w"));
    assert!(matches!(&b[3], Statement::IndexAssign { array, .. } if array == "v"));
    assert!(matches!(&b[4], Statement::Assign { target, .. } if target == "a"));
    assert!(matches!(&b[5], Statement::Read(ts) if ts.len() == 2 && matches!(&ts[1], Expression::Index { .. })));
    assert!(matches!(&b[6], Statement::Write(es, false) if es.len() == 2));
    assert!(matches!(&b[7], Statement::Write(es, false) if es.len() == 1));
    assert!(matches!(&b[8], Statement::If { else_branch: Some(_), .. }));
    assert!(matches!(&b[9], Statement::While { body, .. } if body.len() == 1));
    assert!(matches!(&b[10], Statement::Repeat { .. }));
    assert!(matches!(&b[11], Statement::For { var, step: Some(_), .. } if var == "i"));
    assert!(matches!(&b[12], Statement::Match { cases, default: Some(d), .. } if cases.len() == 2 && d.len() == 1));
    assert!(matches!(&b[13], Statement::Wait { milliseconds: false, .. }));
    assert!(matches!(&b[14], Statement::Wait { milliseconds: true, .. }));
    assert!(matches!(&b[15], Statement::WaitKey));
    assert!(matches!(&b[16], Statement::ClearScreen));
    assert!(matches!(&b[17], Statement::Call { function, args } if function == "Limpiar" && args.len() == 2));
    assert!(matches!(&b[18], Statement::Call { args, .. } if args.is_empty()));
    assert_eq!(b.len(), 19);
}

#[test]
fn reports_where_parsing_failed() {
    let l = tokenize("Algoritmo X x <- FinAlgoritmo");
    assert_eq!(parser(&l.tokens).err().map(|e| e.position), Some(3));
    let l = tokenize("Algoritmo X");
    assert_eq!(parser(&l.tokens).err().map(|e| e.position), Some(2));
    let l = tokenize("Algoritmo X FinAlgoritmo 5");
    assert_eq!(parser(&l.tokens).err().map(|e| e.position), Some(3));
    let l = tokenize("Escribir 1");
    assert_eq!(parser(&l.tokens).err().map(|e| e.position), Some(0));
}

#[test]
fn functions_before_and_after_the_main_block_keep_source_order() {
    let l = tokenize(
        "Funcion A
        FinFuncion
        Algoritmo P
        FinAlgoritmo
        Funcion B
        FinFuncion
        SubProceso C
        FinSubProceso",
    );
    let p = match parser(&l.tokens) {
        Ok(p) => p,
        Err(e) => panic!("parse error at token {}", e.position),
    };
    let names: Vec<&str> = p.functions.iter().map(|f| f.name.as_str()).collect();
    assert_eq!(names, vec!["A", "B", "C"]);
    assert_eq!(p.name, "P");
    assert!(p.main_body.is_empty());
    let l = tokenize("Algoritmo P FinAlgoritmo 1");
    assert_eq!(parser(&l.tokens).err().map(|e| e.position), Some(3));
}

use psc::ast::{Expression, Literal, Statement, BinaryOp};
use psc::optimizer::RealTable;
use psc::{compile, front_end, CompileError};

const SUMA: &str = "Algoritmo Suma
    Escribir \"Ingrese el primer numero:\"
    Leer A
    Escribir \"Ingrese el segundo numero:\"
    Leer B
    C <- A + B
    Escribir \"El resultado es: \", C
FinAlgoritmo
";

#[test]
fn sum_example_counts_as_documented() {
    match front_end(SUMA) {
        Ok((p, tokens)) => {
            assert_eq!(tokens, 20);
            assert_eq!(p.functions.len(), 0);
            assert_eq!(p.main_body.len(), 6);
        },
        Err(_) => panic!("the example must compile"),
    }
}

#[test]
fn lexical_errors_come_first() {
    match front_end("Algoritmo X\n@\nFinAlgoritmo $") {
        Err(CompileError::Lexical(spans)) => assert_eq!(spans, vec![(12, 13), (27, 28)]),
        _ => panic!("expected a lexical error"),
    }
}

#[test]
fn syntax_errors_carry_the_token_span() {
    match front_end("Algoritmo X x <- FinAlgoritmo") {
        Err(CompileError::Syntax { position, span }) => {
            assert_eq!(position, 3);
            assert_eq!(span, (14, 16));
        },
        _ => panic!("expected a syntax error"),
    }
    match front_end("Algoritmo X") {
        Err(CompileError::Syntax { position, span }) => {
            assert_eq!(position, 2);
            assert_eq!(span, (11, 11));
        },
        _ => panic!("expected a syntax error"),
    }
}

#[test]
fn semantic_errors_are_listed() {
    match front_end("Algoritmo P\nEscribir w\nEscribir z\nFinAlgoritmo") {
        Err(CompileError::Semantic(ms)) => assert_eq!(
            ms,
            vec!["Variable 'w' no definida".to_string(), "Variable 'z' no definida".to_string()]
        ),
        _ => panic!("expected semantic errors"),
    }
}

#[test]
fn compile_asks_for_real_results_until_it_has_them() {
    let src = "Algoritmo P\nx <- 2.5 * 2\nEscribir x\nFinAlgoritmo";
    let mut table = RealTable::new();
    let q = match compile(src, &table) {
        Err(q) => q,
        Ok(_) => panic!("a real product must be asked for"),
    };
    assert_eq!(q.op, BinaryOp::Mul);
    assert!(matches!(&q.left, Literal::Real(t) if t == "2.5"));
    table.add(q, Some(Literal::Real("5.0".to_string())));
    match compile(src, &table) {
        Ok(Ok((p, stats))) => {
            assert!(matches!(&p.main_body[0], Statement::Assign { value: Expression::Literal(Literal::Real(t)), .. } if t == "5.0"));
            assert_eq!(stats.constants_folded, 1);
            assert_eq!(stats.propagations, 1);
        },
        _ => panic!("the second run must succeed"),
    }
}

#[test]
fn compile_reduces_and_removes_dead_code() {
    let src = "Algoritmo P\nLeer w\nx <- w * 2\nMientras Verdadero Hacer\nFinMientras\nEscribir x\nFinAlgoritmo";
    match compile(src, &RealTable::new()) {
        Ok(Ok((p, stats))) => {
            assert_eq!(p.main_body.len(), 3);
            assert!(matches!(&p.main_body[1], Statement::Assign { value: Expression::Binary { op: BinaryOp::Add, .. }, .. }));
            assert_eq!(stats.strength_reductions, 1);
            assert_eq!(stats.dead_stmts_removed, 1);
        },
        _ => panic!("expected a compiled program"),
    }
}

#[test]
fn compile_folds_integer_constants() {
    match compile("Algoritmo P\nx <- 2 + 3 * 4\nFinAlgoritmo", &RealTable::new()) {
        Ok(Ok((p, stats))) => {
            assert!(matches!(&p.main_body[0], Statement::Assign { value: Expression::Literal(Literal::Integer(14)), .. }));
            assert_eq!(stats.constants_folded, 2);
        },
        _ => panic!("expected a compiled program"),
    }
}

#[test]
fn each_question_is_new_to_the_table() {
    let src = "Algoritmo P\nx <- 1.5 + 1.5\ny1 <- 0.5 * 4\nFinAlgoritmo";
    let mut table = RealTable::new();
    let mut asked = 0;
    loop {
        match compile(src, &table) {
            Err(q) => {
                assert!(table.lookup(q.op, &q.left, &q.right).is_none());
                let answer = if q.op == BinaryOp::Add { "3.0" } else { "2.0" };
                table.add(q, Some(Literal::Real(answer.to_string())));
                asked += 1;
                assert!(asked <= 2);
            },
            Ok(Ok((p, stats))) => {
                assert_eq!(stats.constants_folded, 2);
                assert!(matches!(&p.main_body[1], Statement::Assign { value: Expression::Literal(Literal::Real(t)), .. } if t == "2.0"));
                break;
            },
            Ok(Err(_)) => panic!("the program is valid"),
        }
    }
    assert_eq!(asked, 2);
}

#[test]
fn assignment_with_equals_sign() {
    match compile("Algoritmo P\nx = 4\nz <- x\nFinAlgoritmo", &RealTable::new()) {
        Ok(Ok((p, stats))) => {
            assert!(matches!(&p.main_body[0], Statement::Assign { target, .. } if target == "x"));
            assert!(matches!(&p.main_body[1], Statement::Assign { value: Expression::Literal(Literal::Integer(4)), .. }));
            assert_eq!(stats.propagations, 1);
        },
        _ => panic!("expected a compiled program"),
    }
}

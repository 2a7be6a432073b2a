use psc::codegen::{detect_array_parameters, extract_constant_array_dims, lookup_builtin, ValueKind};
use psc::lexer::tokenize;
use psc::parser::parser;

fn program(src: &str) -> psc::ast::Program {
    let l = tokenize(src);
    match parser(&l.tokens) {
        Ok(p) => p,
        Err(e) => panic!("parse error at token {}", e.position),
    }
}

#[test]
fn finds_array_parameters_and_their_dimensions() {
    let p = program(
        "SubProceso Llenar(v, n)
            v[1] <- 0
            Escribir V[1, 2], n
        FinSubProceso
        SubProceso Nada(a)
            Escribir a
        FinSubProceso
        Algoritmo P
        FinAlgoritmo",
    );
    let r = detect_array_parameters(&p);
    assert_eq!(r, vec![("llenar".to_string(), vec![(0, 2)])]);
}

#[test]
fn array_parameters_seen_in_nested_blocks() {
    let p = program(
        "Funcion s <- Suma(a, n, m)
            s <- 0
            Para i <- 1 Hasta n Hacer
                Si m[i] > 0 Entonces
                    s <- s + a[i]
                FinSi
            FinPara
        FinFuncion
        Algoritmo P
        FinAlgoritmo",
    );
    let r = detect_array_parameters(&p);
    assert_eq!(r, vec![("suma".to_string(), vec![(0, 1), (2, 1)])]);
}

#[test]
fn constant_array_sizes() {
    let p = program(
        "Algoritmo P
            Dimension A[3, 4]
            Dimension b[n]
            Si Verdadero Entonces
                Dimension c(5)
            FinSi
        FinAlgoritmo",
    );
    let r = extract_constant_array_dims(&p);
    assert_eq!(r, vec![("a".to_string(), vec![3, 4]), ("c".to_string(), vec![5])]);
}

#[test]
fn native_function_signatures() {
    let s = lookup_builtin("raiz").unwrap();
    assert_eq!(s.runtime_name, "builtin_rc");
    assert_eq!(s.params, vec![ValueKind::F64]);
    assert_eq!(s.ret, ValueKind::F64);
    assert!(s.ret_ast.is_real());
    let s = lookup_builtin("subcadena").unwrap();
    assert_eq!(s.runtime_name, "builtin_subcadena");
    assert_eq!(s.params, vec![ValueKind::I64, ValueKind::I64, ValueKind::I64]);
    assert!(s.ret_ast.is_string());
    let s = lookup_builtin("fechaactual").unwrap();
    assert!(s.params.is_empty());
    assert!(lookup_builtin("Raiz").is_none());
    assert!(lookup_builtin("nada").is_none());
}

#[test]
fn array_parameters_seen_in_case_bodies() {
    let p = program(
        "SubProceso F(n, a)
            Segun n Hacer
                1: Escribir a[n, 1]
            FinSegun
        FinSubProceso
        Algoritmo P
        FinAlgoritmo",
    );
    let r = detect_array_parameters(&p);
    assert_eq!(r, vec![("f".to_string(), vec![(1, 2)])]);
}

#[test]
fn constant_array_sizes_in_case_bodies() {
    let p = program(
        "Algoritmo P
            Segun k Hacer
                1: Dimension a[5]
                Sino: Dimension b[2, 3]
            FinSegun
        FinAlgoritmo",
    );
    let r = extract_constant_array_dims(&p);
    assert_eq!(r, vec![("a".to_string(), vec![5]), ("b".to_string(), vec![2, 3])]);
}

use psc::ast::{Expression, Literal, Program, Statement, Type};
use psc::lexer::tokenize;
use psc::parser::parser;
use psc::sema::{analyze, analyze_block, block_assigns_var_all_paths, block_assigns_var_any, types_compatible};
use psc::symbols::{Symbol, SymbolTable};

fn program(src: &str) -> Program {
    let l = tokenize(src);
    assert!(l.errors.is_empty());
    match parser(&l.tokens) {
        Ok(p) => p,
        Err(e) => panic!("parse error at token {}", e.position),
    }
}

fn errors(src: &str) -> Vec<String> {
    match analyze(&program(src)) {
        Ok(_) => Vec::new(),
        Err(es) => es,
    }
}

#[test]
fn accepts_the_documented_examples() {
    assert!(errors("Algoritmo Suma\n Leer A\n Leer B\n C <- A + B\n Escribir \"El resultado es: \", C\nFinAlgoritmo").is_empty());
    assert!(errors(
        "Funcion resultado <- Potencia (base, exponente)
            Si exponente = 0 Entonces
                resultado <- 1
            SiNo
                resultado <- base * Potencia(base, exponente - 1)
            FinSi
        FinFuncion
        Algoritmo Principal
            Leer base
            Leer exponente
            Escribir \"El resultado es \", Potencia(base, exponente)
        FinAlgoritmo"
    )
    .is_empty());
}

#[test]
fn assignment_of_incompatible_type() {
    assert_eq!(
        errors("Algoritmo P\nDefinir x Como Entero\nx <- \"hola\"\nFinAlgoritmo"),
        vec!["Tipos incompatibles en asignación a 'x': esperado Entero, encontrado Caracter".to_string()]
    );
}

#[test]
fn undefined_variable() {
    assert_eq!(errors("Algoritmo P\nEscribir w\nFinAlgoritmo"), vec!["Variable 'w' no definida".to_string()]);
}

#[test]
fn condition_must_be_logical() {
    assert_eq!(
        errors("Algoritmo P\nSi \"a\" Entonces\nFinSi\nFinAlgoritmo"),
        vec!["La condición del Si debe ser Logico, encontrado Caracter".to_string()]
    );
}

#[test]
fn return_variable_never_assigned() {
    assert_eq!(
        errors("Funcion r <- F(a)\nEscribir a\nFinFuncion\nAlgoritmo P\nFinAlgoritmo"),
        vec!["Función 'F': tiene tipo de retorno Entero pero la variable 'r' nunca se asigna".to_string()]
    );
}

#[test]
fn return_variable_assigned_on_some_paths() {
    assert_eq!(
        errors("Funcion r <- F(a)\nSi a > 0 Entonces\nr <- 1\nFinSi\nFinFuncion\nAlgoritmo P\nFinAlgoritmo"),
        vec!["Advertencia: Función 'F': la variable de retorno 'r' no se asigna en todos los caminos".to_string()]
    );
}

#[test]
fn call_with_wrong_number_of_arguments() {
    assert_eq!(
        errors("SubProceso S(a)\nFinSubProceso\nAlgoritmo P\nS(1, 2)\nFinAlgoritmo"),
        vec!["Llamada a 'S': esperados 1 argumentos, encontrados 2".to_string()]
    );
}

#[test]
fn by_reference_argument_must_be_a_variable() {
    assert_eq!(
        errors("SubProceso S(a Por Referencia)\nFinSubProceso\nAlgoritmo P\nS(1)\nFinAlgoritmo"),
        vec!["Llamada a 'S': argumento 1 es por referencia y debe ser una variable".to_string()]
    );
}

#[test]
fn undefined_procedure() {
    assert_eq!(
        errors("Algoritmo P\nHacerAlgo\nFinAlgoritmo"),
        vec!["Función o procedimiento 'HacerAlgo' no definido".to_string()]
    );
}

#[test]
fn compatibility_of_types() {
    assert!(types_compatible(&Type::Real, &Type::Integer));
    assert!(types_compatible(&Type::Integer, &Type::Real));
    assert!(types_compatible(&Type::Boolean, &Type::Integer));
    assert!(types_compatible(&Type::Integer, &Type::Boolean));
    assert!(types_compatible(&Type::String, &Type::String));
    assert!(!types_compatible(&Type::String, &Type::Integer));
    assert!(!types_compatible(&Type::Integer, &Type::String));
    assert!(!types_compatible(&Type::Boolean, &Type::Real));
}

#[test]
fn repeat_body_assigns_on_every_path() {
    assert!(errors(
        "Funcion r <- F(a)\nRepetir\nr <- 1\nHasta Que a > 0\nFinFuncion\nAlgoritmo P\nFinAlgoritmo"
    )
    .is_empty());
    assert_eq!(
        errors("Funcion r <- F(a)\nMientras a > 0 Hacer\nr <- 1\nFinMientras\nFinFuncion\nAlgoritmo P\nFinAlgoritmo"),
        vec!["Advertencia: Función 'F': la variable de retorno 'r' no se asigna en todos los caminos".to_string()]
    );
}

#[test]
fn a_visible_variable_keeps_its_type() {
    assert_eq!(
        errors("Algoritmo P\nDefinir x Como Entero\nLeer x\nPara x <- 1 Hasta 3 Hacer\nEscribir x\nFinPara\nx <- \"t\"\nFinAlgoritmo"),
        vec!["Tipos incompatibles en asignación a 'x': esperado Entero, encontrado Caracter".to_string()]
    );
}

#[test]
fn a_failed_inference_is_reported() {
    assert!(!errors("Algoritmo P\nEscribir w + 1\nFinAlgoritmo").is_empty());
    assert!(!errors("Algoritmo P\nEscribir Verdadero + 1\nFinAlgoritmo").is_empty());
}

#[test]
fn every_path_checks_on_blocks() {
    let body = vec![Statement::Assign { target: "r".to_string(), value: Expression::Literal(Literal::Integer(1)) }];
    let rep = vec![Statement::Repeat { body, until: Expression::Variable("c".to_string()) }];
    assert!(block_assigns_var_all_paths(&rep, &"r".to_string()));
    assert!(block_assigns_var_any(&rep, &"r".to_string()));
    let body = vec![Statement::Assign { target: "r".to_string(), value: Expression::Literal(Literal::Integer(1)) }];
    let wh = vec![Statement::While { condition: Expression::Variable("c".to_string()), body }];
    assert!(!block_assigns_var_all_paths(&wh, &"r".to_string()));
    assert!(block_assigns_var_any(&wh, &"r".to_string()));
}

#[test]
fn analysing_a_block_keeps_visible_variables_and_appends_messages() {
    let p = program("Algoritmo P\nx <- \"t\"\nLeer x\nDefinir x Como Real\nFinAlgoritmo");
    let mut t = SymbolTable::new();
    assert!(t.insert("x".to_string(), Symbol::Variable { ty: Type::Integer }).is_ok());
    let mut errors = vec!["antes".to_string()];
    analyze_block(&p.main_body, &mut t, &mut errors);
    assert_eq!(errors[0], "antes");
    assert!(errors.len() > 1);
    assert!(matches!(t.lookup("x"), Some(Symbol::Variable { ty: Type::Integer })));
}

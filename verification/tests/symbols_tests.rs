use psc::ast::Type;
use psc::symbols::{Symbol, SymbolTable};

#[test]
fn native_functions_are_known_from_the_start() {
    let t = SymbolTable::new();
    assert!(matches!(t.lookup("rc"), Some(Symbol::Function { params, ret: Some(Type::Real) }) if params.len() == 1));
    assert!(matches!(t.lookup("aleatorio"), Some(Symbol::Function { params, .. }) if params.len() == 2));
    assert!(matches!(t.lookup("fechaactual"), Some(Symbol::Function { params, ret: Some(Type::Integer) }) if params.is_empty()));
    assert!(t.lookup("x").is_none());
}

#[test]
fn lookup_finds_what_insert_declared() {
    let mut t = SymbolTable::new();
    assert!(t.insert("x".to_string(), Symbol::Variable { ty: Type::Integer }).is_ok());
    assert!(matches!(t.lookup("x"), Some(Symbol::Variable { ty: Type::Integer })));
    assert!(t.insert("y".to_string(), Symbol::Variable { ty: Type::Real }).is_ok());
    assert!(matches!(t.lookup("x"), Some(Symbol::Variable { ty: Type::Integer })));
}

#[test]
fn second_declaration_in_a_scope_is_refused() {
    let mut t = SymbolTable::new();
    assert!(t.insert("x".to_string(), Symbol::Variable { ty: Type::Integer }).is_ok());
    assert_eq!(
        t.insert("x".to_string(), Symbol::Variable { ty: Type::Real }),
        Err("Symbol 'x' already defined in this scope".to_string())
    );
    assert!(matches!(t.lookup("x"), Some(Symbol::Variable { ty: Type::Integer })));
}

#[test]
fn inner_scope_shadows_until_it_is_left() {
    let mut t = SymbolTable::new();
    assert!(t.insert("x".to_string(), Symbol::Variable { ty: Type::Integer }).is_ok());
    t.enter_scope();
    assert!(t.insert("x".to_string(), Symbol::Variable { ty: Type::String }).is_ok());
    assert!(matches!(t.lookup("x"), Some(Symbol::Variable { ty: Type::String })));
    t.exit_scope();
    assert!(matches!(t.lookup("x"), Some(Symbol::Variable { ty: Type::Integer })));
}

#[test]
fn element_types_of_arrays() {
    let mut t = SymbolTable::new();
    assert!(t.get_array_elem_type("v").is_none());
    t.set_array_elem_type("v", Type::Real);
    assert!(matches!(t.get_array_elem_type("v"), Some(Type::Real)));
    t.set_array_elem_type("v", Type::String);
    assert!(matches!(t.get_array_elem_type("v"), Some(Type::String)));
}

#[test]
fn leaving_a_scope_undoes_all_its_declarations() {
    let mut t = SymbolTable::new();
    assert!(t.insert("x".to_string(), Symbol::Variable { ty: Type::Integer }).is_ok());
    t.enter_scope();
    assert!(t.insert("x".to_string(), Symbol::Variable { ty: Type::String }).is_ok());
    assert!(t.insert("y".to_string(), Symbol::Variable { ty: Type::Real }).is_ok());
    assert!(t.insert("y".to_string(), Symbol::Variable { ty: Type::Boolean }).is_err());
    t.exit_scope();
    assert!(matches!(t.lookup("x"), Some(Symbol::Variable { ty: Type::Integer })));
    assert!(t.lookup("y").is_none());
    assert!(matches!(t.lookup("rc"), Some(Symbol::Function { .. })));
}

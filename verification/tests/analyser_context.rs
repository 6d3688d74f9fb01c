use wacc_32::analyser::context::{IdentInfo, ScopeBuilder, SymbolTable};
use wacc_32::ast::Type;

fn make_scope(symbol_table: SymbolTable) -> ScopeBuilder {
    let mut scope = ScopeBuilder::new(symbol_table);

    for i in 0..4 {
        let mut var1 = format!("{}{}", "x", i);
        let mut var2 = format!("{}{}", "y", i);
        let mut var3 = format!("{}{}", "z", i);

        scope.insert_var(&mut var1, Type::Bool).unwrap();
        scope.insert_var(&mut var2, Type::Int).unwrap();
        scope.insert_var(&mut var3, Type::String).unwrap();
    }

    scope
}

#[test]
fn context_test_table_lookup() {
    let symbol_table = SymbolTable::default();
    let scope = make_scope(symbol_table);

    assert!(matches!(
        scope.get(&mut "x3".to_string()),
        Some(IdentInfo::LocalVar(Type::Bool, _))
    ));
    assert!(matches!(
        scope.get(&mut String::from("z3")),
        Some(IdentInfo::LocalVar(Type::String, _))
    ));
    assert!(!matches!(
        scope.get(&mut String::from("v3")),
        Some(IdentInfo::LocalVar(Type::String, _))
    ));

    assert_eq!(scope.get(&mut String::from("random")), None);
}

#[test]
fn context_test_table_update() {
    let symbol_table = SymbolTable::default();
    let mut scope = make_scope(symbol_table);

    assert!(scope.insert_var(&mut String::from("g"), Type::Char).is_ok());

    assert!(!matches!(
        scope.get(&mut String::from("g")),
        Some(IdentInfo::LocalVar(Type::Bool, _))
    ));
}

#[test]
fn declared_variable_found_at_bottom_and_renamed() {
    let mut scope = ScopeBuilder::new(SymbolTable::default());
    let mut x = String::from("x");
    scope.insert_var(&mut x, Type::Int).unwrap();
    /* The declaration renames the identifier to the scope's prefix and its
    offset from the top of the scope. */
    assert_eq!(x, "4");
    let mut lookup = String::from("x");
    assert_eq!(scope.get(&mut lookup), Some(IdentInfo::LocalVar(Type::Int, 0)));
    assert_eq!(lookup, "4");

    /* A second variable pushes the first one further from the bottom. */
    let mut c = String::from("c");
    scope.insert_var(&mut c, Type::Char).unwrap();
    assert_eq!(c, "5");
    assert_eq!(scope.get(&mut String::from("x")), Some(IdentInfo::LocalVar(Type::Int, 1)));
    assert_eq!(scope.get(&mut String::from("c")), Some(IdentInfo::LocalVar(Type::Char, 0)));
}

#[test]
fn redeclaration_is_an_error() {
    let mut scope = ScopeBuilder::new(SymbolTable::default());
    scope.insert_var(&mut String::from("x"), Type::Int).unwrap();
    let mut again = String::from("x");
    assert!(scope.insert_var(&mut again, Type::Bool).is_err());
    /* The name is kept when the declaration fails. */
    assert_eq!(again, "x");
}

#[test]
fn inner_scope_sees_outer_variables_shifted() {
    let mut scope = ScopeBuilder::new(SymbolTable::default());
    scope.insert_var(&mut String::from("x"), Type::Int).unwrap();
    let mut inner = SymbolTable::default();
    inner.size = 0;
    scope.new_scope(inner);
    scope.insert_var(&mut String::from("y"), Type::Bool).unwrap();
    assert_eq!(scope.get(&mut String::from("x")), Some(IdentInfo::LocalVar(Type::Int, 1)));
    let mut y = String::from("y");
    assert_eq!(scope.get(&mut y), Some(IdentInfo::LocalVar(Type::Bool, 0)));
    /* Variables of an inner scope are renamed with one more underscore. */
    assert_eq!(y, "_1");
    let table = scope.exit_scope();
    assert_eq!(table.size, 1);
    assert_eq!(scope.get(&mut String::from("y")), None);
}

#[test]
fn fresh_identifiers_differ() {
    let mut scope = ScopeBuilder::new(SymbolTable::default());
    assert_eq!(scope.get_unique(), "af_0:");
    assert_eq!(scope.get_unique(), "af_1:");
}

use wacc_32::analyser::symbol_table::SymbolTable;
use wacc_32::analyser::HasType;
use wacc_32::ast::{ArrayElem, BinaryOper, Expr, Type, UnaryOper};

#[test]
fn types_unify_themselves() {
    assert_eq!(Type::Any.unify(Type::Int), Some(Type::Int));
    assert_eq!(Type::Int.unify(Type::Any), Some(Type::Int));
    assert_eq!(Type::Int.unify(Type::Int), Some(Type::Int));
    assert_eq!(Type::Bool.unify(Type::Bool), Some(Type::Bool));
    assert_eq!(Type::Bool.unify(Type::Int), None);
    assert_eq!(
        Type::Pair(Box::new(Type::Int), Box::new(Type::Int)).unify(Type::Pair(Box::new(Type::Any), Box::new(Type::Int))),
        Some(Type::Pair(Box::new(Type::Int), Box::new(Type::Int)))
    );
    assert_eq!(
        Type::Pair(Box::new(Type::Int), Box::new(Type::Int)).unify(Type::Pair(Box::new(Type::Int), Box::new(Type::Any))),
        Some(Type::Pair(Box::new(Type::Int), Box::new(Type::Int)))
    );
    assert_eq!(
        Type::Pair(Box::new(Type::Int), Box::new(Type::Int)).unify(Type::Pair(Box::new(Type::Any), Box::new(Type::Any))),
        Some(Type::Pair(Box::new(Type::Int), Box::new(Type::Int)))
    );
    assert_eq!(
        Type::Pair(Box::new(Type::Any), Box::new(Type::Any)).unify(Type::Pair(Box::new(Type::Any), Box::new(Type::Any))),
        Some(Type::Pair(Box::new(Type::Any), Box::new(Type::Any)))
    );
}

#[test]
fn unify_is_commutative_on_examples() {
    let a = Type::Array(Box::new(Type::Any));
    let b = Type::Array(Box::new(Type::Char));
    assert_eq!(a.clone().unify(b.clone()), b.clone().unify(a.clone()));
    assert_eq!(Type::Int.unify(Type::Char), None);
    assert_eq!(Type::Char.unify(Type::Int), None);
}

#[test]
fn foo() {
    let mut a = SymbolTable::new();
    a.insert(&"foo".to_owned(), Type::Int).unwrap();

    let mut b = a.new_scope();
    let b_ident = "bar".to_owned();
    let b_type = Type::Int;
    b.insert(&b_ident, b_type.clone()).unwrap();

    assert_eq!(b.get(&b_ident), Some(&b_type));

    let mut a = b.exit_scope();
    a.insert(&"baz".to_owned(), Type::Int).unwrap();
}

#[test]
fn symbol_table_test_table_lookup() {}

#[test]
fn symbol_table_test_table_update() {}

#[test]
fn mod_idents() {
    let x = String::from("x");
    let x_type = Type::Int;
    let mut symbol_table = SymbolTable::new();

    /* x: Type::Int */
    symbol_table.insert(&x, x_type.clone()).unwrap();

    assert_eq!(x.get_type(&symbol_table), Ok(x_type));
    assert!(String::from("hello").get_type(&symbol_table).is_err());
}

#[test]
fn inner_scopes_shadow_and_retype_is_an_error() {
    let mut t = SymbolTable::new();
    let x = "x".to_owned();
    t.insert(&x, Type::Int).unwrap();
    assert!(t.insert(&x, Type::Bool).is_err());
    let mut inner = t.new_scope();
    inner.insert(&x, Type::Char).unwrap();
    assert_eq!(inner.get(&x), Some(&Type::Char));
    let outer = inner.exit_scope();
    assert_eq!(outer.get(&x), Some(&Type::Bool));
}

#[test]
fn mod_array_elems() {
    let id = String::from("x");

    let mut symbol_table = SymbolTable::new();

    /* x: Array(Array(Int)) */
    symbol_table.insert(&id, Type::Array(Box::new(Type::Array(Box::new(Type::Int))))).unwrap();

    /* x[5][2]: Int */
    assert_eq!(
        ArrayElem(id.clone(), vec![Expr::IntLiter(5), Expr::IntLiter(2)]).get_type(&symbol_table),
        Ok(Type::Int),
    );

    /* x[5]['a'] is error */
    assert!(ArrayElem(id.clone(), vec![Expr::IntLiter(5), Expr::CharLiter('a')]).get_type(&symbol_table).is_err());

    /* x[5]: Array(Int) */
    assert_eq!(
        ArrayElem(id.clone(), vec![Expr::IntLiter(5)]).get_type(&symbol_table),
        Ok(Type::Array(Box::new(Type::Int))),
    );

    /* x[5][2][1] is error */
    assert!(ArrayElem(id.clone(), vec![Expr::IntLiter(5), Expr::IntLiter(2), Expr::IntLiter(1)])
        .get_type(&symbol_table)
        .is_err());
}

#[test]
fn expressions_typed_from_variable_types() {
    let mut symbol_table = SymbolTable::new();
    symbol_table.insert(&"n".to_string(), Type::Int).unwrap();
    let n = || Box::new(Expr::Ident("n".to_string()));
    assert_eq!(Expr::BinaryApp(n(), BinaryOper::Add, Box::new(Expr::IntLiter(1))).get_type(&symbol_table), Ok(Type::Int));
    assert_eq!(Expr::BinaryApp(n(), BinaryOper::Lt, n()).get_type(&symbol_table), Ok(Type::Bool));
    assert!(Expr::BinaryApp(n(), BinaryOper::And, n()).get_type(&symbol_table).is_err());
    assert_eq!(Expr::UnaryApp(UnaryOper::Chr, n()).get_type(&symbol_table), Ok(Type::Char));
}

use wacc_32::analyser::context::{ScopeBuilder, SymbolTable};
use wacc_32::ast::{ArrayElem, BinaryOper, Expr, PairElem, Type, TypedExpr, UnaryOper};

fn populate_scope(scope: &mut ScopeBuilder, prefix: &str) {
    for i in 0..10 {
        let mut ident = format!("{}{}", prefix, i);
        let t = Type::Int;
        scope.insert_var(&mut ident, t).unwrap();
    }
}

#[test]
fn pair_elems() {
    let symbol_table = SymbolTable::default();
    let scope = &mut ScopeBuilder::new(symbol_table);

    assert!(Expr::PairElem(Box::new(PairElem::Fst(TypedExpr::new(Expr::NullPairLiter))))
        .analyse(scope, ())
        .is_err());

    assert!(Expr::PairElem(Box::new(PairElem::Fst(TypedExpr::new(Expr::NullPairLiter))))
        .analyse(scope, ())
        .is_err());
}

#[test]
fn literals() {
    let symbol_table = SymbolTable::default();
    let scope = &mut ScopeBuilder::new(symbol_table);

    assert_eq!(Expr::IntLiter(5).analyse(scope, ()), Ok(Type::Int));
    assert_eq!(Expr::BoolLiter(false).analyse(scope, ()), Ok(Type::Bool));
    assert_eq!(Expr::CharLiter('a').analyse(scope, ()), Ok(Type::Char));
    assert_eq!(
        Expr::NullPairLiter.analyse(scope, ()),
        Ok(Type::Pair(Box::new(Type::Any), Box::new(Type::Any))),
    );
}

#[test]
fn expr_idents() {
    let symbol_table = SymbolTable::default();
    let mut scope = ScopeBuilder::new(symbol_table);
    populate_scope(&mut scope, "var");

    assert_eq!(Expr::Ident(String::from("var1")).analyse(&mut scope, ()), Ok(Type::Int),);
}

#[test]
fn expr_array_elems() {
    let x = String::from("x");
    let x_type = Type::Array(Box::new(Type::Int));

    let symbol_table = SymbolTable::default();
    let mut scope = ScopeBuilder::new(symbol_table);
    scope.insert_var(&mut x.clone(), x_type).unwrap();

    assert_eq!(
        Expr::ArrayElem(ArrayElem(x, vec!(Expr::IntLiter(5)))).analyse(&mut scope, ()),
        Ok(Type::Int)
    );
}

#[test]
fn unary_apps() {
    let symbol_table = SymbolTable::default();
    let scope = &mut ScopeBuilder::new(symbol_table);

    /* !false: Bool */
    assert_eq!(Expr::UnaryApp(UnaryOper::Bang, Box::new(Expr::BoolLiter(false))).analyse(scope, ()), Ok(Type::Bool));
    /* !'a': ERROR */
    assert!(Expr::UnaryApp(UnaryOper::Bang, Box::new(Expr::CharLiter('a'))).analyse(scope, ()).is_err());
    /* -5: Int */
    assert_eq!(Expr::UnaryApp(UnaryOper::Neg, Box::new(Expr::IntLiter(5))).analyse(scope, ()), Ok(Type::Int));
    /* -false: ERROR */
    assert!(Expr::UnaryApp(UnaryOper::Neg, Box::new(Expr::BoolLiter(false))).analyse(scope, ()).is_err());
    /* len [1,2,3]: Int */
    let x = String::from("x");
    let x_type = Type::Array(Box::new(Type::Int));
    scope.insert_var(&mut x.clone(), x_type).unwrap();
    assert_eq!(Expr::UnaryApp(UnaryOper::Len, Box::new(Expr::Ident(x))).analyse(scope, ()), Ok(Type::Int));
    /* len 5: ERROR */
    assert!(Expr::UnaryApp(UnaryOper::Len, Box::new(Expr::IntLiter(5))).analyse(scope, ()).is_err());
    /* ord 'a': Int */
    assert_eq!(Expr::UnaryApp(UnaryOper::Ord, Box::new(Expr::CharLiter('a'))).analyse(scope, ()), Ok(Type::Int));
    /* ord 5: ERROR */
    assert!(Expr::UnaryApp(UnaryOper::Ord, Box::new(Expr::IntLiter(5))).analyse(scope, ()).is_err());
    /* chr 5: Char */
    assert_eq!(Expr::UnaryApp(UnaryOper::Chr, Box::new(Expr::IntLiter(5))).analyse(scope, ()), Ok(Type::Char));
    /* chr 'a': ERROR */
    assert!(Expr::UnaryApp(UnaryOper::Chr, Box::new(Expr::CharLiter('a'))).analyse(scope, ()).is_err());
}

#[test]
fn binary_apps() {
    let symbol_table = SymbolTable::default();
    let scope = &mut ScopeBuilder::new(symbol_table);

    /* 5 + false: ERROR */
    assert!(Expr::BinaryApp(Box::new(Expr::IntLiter(5)), BinaryOper::Add, Box::new(Expr::BoolLiter(false)))
        .analyse(scope, ())
        .is_err());
    /* 5 * 'a': ERROR */
    assert!(Expr::BinaryApp(Box::new(Expr::IntLiter(5)), BinaryOper::Mul, Box::new(Expr::CharLiter('a')))
        .analyse(scope, ())
        .is_err());
    /* false / "hello": ERROR */
    assert!(Expr::BinaryApp(
        Box::new(Expr::BoolLiter(false)),
        BinaryOper::Div,
        Box::new(Expr::StrLiter(String::from("hello")))
    )
    .analyse(scope, ())
    .is_err());
    /* false && 6: ERROR */
    assert!(Expr::BinaryApp(Box::new(Expr::BoolLiter(false)), BinaryOper::And, Box::new(Expr::IntLiter(6)))
        .analyse(scope, ())
        .is_err());
    /* 5 * 5: Int */
    assert_eq!(
        Expr::BinaryApp(Box::new(Expr::IntLiter(5)), BinaryOper::Mul, Box::new(Expr::IntLiter(5))).analyse(scope, ()),
        Ok(Type::Int),
    );
    /* 5 + 5: Int */
    assert_eq!(
        Expr::BinaryApp(Box::new(Expr::IntLiter(5)), BinaryOper::Add, Box::new(Expr::IntLiter(5))).analyse(scope, ()),
        Ok(Type::Int),
    );
    /* 'a' + 'b': ERROR */
    assert!(Expr::BinaryApp(Box::new(Expr::CharLiter('a')), BinaryOper::Add, Box::new(Expr::CharLiter('b')))
        .analyse(scope, ())
        .is_err());
    /* false + false: ERROR */
    assert!(Expr::BinaryApp(Box::new(Expr::BoolLiter(false)), BinaryOper::Add, Box::new(Expr::BoolLiter(false)))
        .analyse(scope, ())
        .is_err());

    /* Any type can be compared to itself. */
    for expr in vec![
        Expr::IntLiter(5),
        Expr::BoolLiter(false),
        Expr::StrLiter(String::from("hello")),
        Expr::NullPairLiter,
        Expr::UnaryApp(UnaryOper::Neg, Box::new(Expr::IntLiter(5))),
        Expr::BinaryApp(
            Box::new(Expr::StrLiter(String::from("hello world"))),
            BinaryOper::Eq,
            Box::new(Expr::StrLiter(String::from("hello steve"))),
        ),
    ] {
        for oper in vec![BinaryOper::Eq, BinaryOper::Neq] {
            assert_eq!(
                Expr::BinaryApp(Box::new(expr.clone()), oper, Box::new(expr.clone())).analyse(scope, ()),
                Ok(Type::Bool)
            );
        }
    }

    for expr in vec![Expr::IntLiter(5), Expr::CharLiter('a')] {
        for oper in vec![BinaryOper::Gt, BinaryOper::Gte, BinaryOper::Lt, BinaryOper::Lte] {
            assert_eq!(
                Expr::BinaryApp(Box::new(expr.clone()), oper, Box::new(expr.clone())).analyse(scope, ()),
                Ok(Type::Bool)
            );
        }
    }

    /* 5 && 5: ERROR */
    assert!(Expr::BinaryApp(Box::new(Expr::IntLiter(5)), BinaryOper::And, Box::new(Expr::IntLiter(5)))
        .analyse(scope, ())
        .is_err());
    /* 'a' || 'a': ERROR */
    assert!(Expr::BinaryApp(Box::new(Expr::CharLiter('a')), BinaryOper::Or, Box::new(Expr::CharLiter('a')))
        .analyse(scope, ())
        .is_err());
    /* true && true: bool */
    assert_eq!(
        Expr::BinaryApp(Box::new(Expr::BoolLiter(true)), BinaryOper::And, Box::new(Expr::BoolLiter(true))).analyse(scope, ()),
        Ok(Type::Bool)
    );
}

#[test]
fn identifiers_are_renamed_by_analysis() {
    let mut scope = ScopeBuilder::new(SymbolTable::default());
    scope.insert_var(&mut String::from("x"), Type::Int).unwrap();
    let mut e = Expr::Ident(String::from("x"));
    assert_eq!(e.analyse(&scope, ()), Ok(Type::Int));
    assert_eq!(e, Expr::Ident(String::from("4")));
}

#[test]
fn undeclared_identifier_is_an_error() {
    let scope = ScopeBuilder::new(SymbolTable::default());
    assert!(Expr::Ident(String::from("nope")).analyse(&scope, ()).is_err());
}

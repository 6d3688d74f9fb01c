use wacc_32::analyser::context::{IdentInfo, ScopeBuilder, SymbolTable};
use wacc_32::analyser::stat::ReturnBehaviour;
use wacc_32::ast::{
    ArrayElem, AssignLhs, AssignRhs, BinaryOper, Expr, ScopedStat, Stat, Struct, StructLiter, Type,
    TypedExpr,
};

#[test]
fn struct_liter() {
    let mut symbol_table = SymbolTable::default();
    let mut int_box = Struct::new();
    assert_eq!(int_box.add_field(Type::Int, format!("x")), Some(0));
    assert_eq!(int_box.size, 4);
    symbol_table.table.insert(format!("IntBox"), IdentInfo::TypeDef(int_box));
    let scope = &mut ScopeBuilder::new(symbol_table);

    /* Correct usage. */
    assert!(Expr::StructLiter(StructLiter {
        id: format!("IntBox"),
        fields: vec![(format!("x"), Expr::IntLiter(5))],
    })
    .analyse(scope, ())
    .is_ok());

    /* Wrong amount of fields. */
    assert!(Expr::StructLiter(StructLiter {
        id: format!("IntBox"),
        fields: vec![(format!("x"), Expr::IntLiter(5)), (format!("y"), Expr::IntLiter(6)),],
    })
    .analyse(scope, ())
    .is_err());

    /* Field has wrong type. */
    assert!(Expr::StructLiter(StructLiter {
        id: format!("IntBox"),
        fields: vec![(format!("x"), Expr::BoolLiter(true)),],
    })
    .analyse(scope, ())
    .is_err());
}

#[test]
fn assign_lhs() {
    let symbol_table = SymbolTable::default();
    let scope = &mut ScopeBuilder::new(symbol_table);

    let x_id = String::from("x");
    let x_type = Type::Array(Box::new(Type::Int));
    scope.insert_var(&mut x_id.clone(), x_type.clone()).unwrap();
    assert_eq!(AssignLhs::Ident(x_id.clone()).analyse(scope, ()), Ok(x_type));

    assert_eq!(
        AssignLhs::ArrayElem(ArrayElem(x_id.clone(), vec!(Expr::IntLiter(5)))).analyse(scope, ()),
        Ok(Type::Int)
    );
}

#[test]
fn declare_adds_symbol_table() {
    /*
    int x = 5
    */
    let x = || String::from("x");
    let mut intx5 = Stat::Declaration(Type::Int, x(), AssignRhs::Expr(Expr::IntLiter(5)));

    let outer_symbol_table = SymbolTable::default();
    let mut outer_scope = ScopeBuilder::new(outer_symbol_table);

    intx5.analyse(&mut outer_scope, ()).unwrap();

    assert!(matches!(outer_scope.get(&mut x()), Some(IdentInfo::LocalVar(Type::Int, _))));
}

#[test]
fn scoping() {
    /*
    begin
      int x = 5;
      begin
        int y = x
      end;
      int z = 7
    end
    */
    let x = || String::from("x");
    let y = || String::from("y");
    let z = || String::from("z");
    let intx5 = Stat::Declaration(Type::Int, x(), AssignRhs::Expr(Expr::IntLiter(5)));
    let intyx = Stat::Declaration(Type::Int, y(), AssignRhs::Expr(Expr::Ident(x())));
    let intz7 = Stat::Declaration(Type::Int, z(), AssignRhs::Expr(Expr::IntLiter(7)));
    let mut statement = Stat::Scope(ScopedStat::new(Stat::Sequence(
        Box::new(intx5),
        Box::new(Stat::Sequence(Box::new(Stat::Scope(ScopedStat::new(intyx))), Box::new(intz7))),
    )));

    let outer_symbol_table = SymbolTable::default();
    let mut global_scope = ScopeBuilder::new(outer_symbol_table);

    statement.analyse(&mut global_scope, ()).unwrap();
    /* x and z should now be in outer scope */

    /* Retrieve inner and outer st from statement ast. */
    let (st, inner_st) = if let Stat::Scope(ScopedStat(st, statement)) = statement {
        if let Stat::Sequence(_intx5, everything_else) = *statement {
            if let Stat::Sequence(inner_scope_stat, _intz7) = *everything_else {
                if let Stat::Scope(ScopedStat(inner_st, _)) = *inner_scope_stat {
                    (st, inner_st)
                } else {
                    panic!("inner statement isnt a scope!")
                }
            } else {
                panic!("only two statements!");
            }
        } else {
            panic!("inner statement structure has been changed!")
        }
    } else {
        panic!("outer statement structure has been changed!")
    };

    /* When in outer scope, x and z should be ints. */
    let mut outer_scope = ScopeBuilder::new(st);
    assert!(matches!(outer_scope.get(&mut x()), Some(IdentInfo::LocalVar(Type::Int, _))));
    assert!(matches!(outer_scope.get(&mut z()), Some(IdentInfo::LocalVar(Type::Int, _))));

    /* Check offsets are correct from outer scope. */
    assert!(matches!(outer_scope.get(&mut x()), Some(IdentInfo::LocalVar(_, 4))));
    assert!(matches!(outer_scope.get(&mut z()), Some(IdentInfo::LocalVar(_, 0))));

    /* When in inner scope, x, y, and z should be ints. */
    outer_scope.new_scope(inner_st);
    let inner_scope = outer_scope;
    assert!(matches!(inner_scope.get(&mut x()), Some(IdentInfo::LocalVar(Type::Int, _))));
    assert!(matches!(inner_scope.get(&mut y()), Some(IdentInfo::LocalVar(Type::Int, _))));
    assert!(matches!(inner_scope.get(&mut z()), Some(IdentInfo::LocalVar(Type::Int, _))));

    /* x and z's offsets should be offset by 4 more now because y is using 4 bytes. */
    assert!(matches!(inner_scope.get(&mut x()), Some(IdentInfo::LocalVar(_, 8))));
    assert!(matches!(inner_scope.get(&mut z()), Some(IdentInfo::LocalVar(_, 4))));

    /* y should now have +0 offset */
    assert!(matches!(inner_scope.get(&mut y()), Some(IdentInfo::LocalVar(_, 0))));
}

#[test]
fn behaviours_of_statements() {
    let mut scope = ScopeBuilder::new(SymbolTable::default());
    let ret_int = || Stat::Return(Expr::IntLiter(1));
    /* A loop body that returns makes a loop that only sometimes does. */
    let mut w = Stat::While(Expr::BoolLiter(true), ScopedStat::new(ret_int()));
    assert_eq!(w.analyse(&mut scope, ()), Ok(ReturnBehaviour::MidWay(Type::Int)));
    /* An if whose branches both return returns at the end. */
    let mut i = Stat::If(Expr::BoolLiter(true), ScopedStat::new(ret_int()), ScopedStat::new(ret_int()));
    assert_eq!(i.analyse(&mut scope, ()), Ok(ReturnBehaviour::AtEnd(Type::Int)));
    /* A return followed by a statement that never returns. */
    let mut s = Stat::Sequence(Box::new(ret_int()), Box::new(Stat::Skip));
    assert_eq!(s.analyse(&mut scope, ()), Ok(ReturnBehaviour::MidWay(Type::Int)));
    /* An exit can be taken to return any type. */
    let mut e = Stat::Exit(Expr::IntLiter(3));
    assert_eq!(e.analyse(&mut scope, ()), Ok(ReturnBehaviour::AtEnd(Type::Any)));
    /* Exit codes must be integers. */
    let mut e2 = Stat::Exit(Expr::CharLiter('a'));
    assert!(e2.analyse(&mut scope, ()).is_err());
}

#[test]
fn statement_errors() {
    let mut scope = ScopeBuilder::new(SymbolTable::default());
    /* Conditions must be booleans. */
    let mut w = Stat::While(Expr::IntLiter(1), ScopedStat::new(Stat::Skip));
    assert!(w.analyse(&mut scope, ()).is_err());
    /* Only pairs and arrays can be freed. */
    let mut f = Stat::Free(TypedExpr::new(Expr::IntLiter(1)));
    assert!(f.analyse(&mut scope, ()).is_err());
    /* Only ints and chars can be read. */
    scope.insert_var(&mut String::from("b"), Type::Bool).unwrap();
    let mut r = Stat::Read(Type::Any, AssignLhs::Ident(String::from("b")));
    assert!(r.analyse(&mut scope, ()).is_err());
    /* Both sides of an assignment must agree. */
    let mut a = Stat::Assignment(AssignLhs::Ident(String::from("b")), Type::Any, AssignRhs::Expr(Expr::IntLiter(1)));
    assert!(a.analyse(&mut scope, ()).is_err());
    /* Branches returning different types. */
    let mut i = Stat::If(
        Expr::BoolLiter(true),
        ScopedStat::new(Stat::Return(Expr::IntLiter(1))),
        ScopedStat::new(Stat::Return(Expr::BoolLiter(true))),
    );
    assert!(i.analyse(&mut scope, ()).is_err());
}

#[test]
fn for_loop_declares_its_variable() {
    let mut scope = ScopeBuilder::new(SymbolTable::default());
    let mut f = Stat::For(
        Box::new(Stat::Declaration(Type::Int, String::from("i"), AssignRhs::Expr(Expr::IntLiter(0)))),
        Expr::BinaryApp(Box::new(Expr::Ident(String::from("i"))), BinaryOper::Lt, Box::new(Expr::IntLiter(10))),
        ScopedStat::new(Stat::Skip),
        Box::new(Stat::Assignment(
            AssignLhs::Ident(String::from("i")),
            Type::Any,
            AssignRhs::Expr(Expr::BinaryApp(
                Box::new(Expr::Ident(String::from("i"))),
                BinaryOper::Add,
                Box::new(Expr::IntLiter(1)),
            )),
        )),
    );
    assert_eq!(f.analyse(&mut scope, ()), Ok(ReturnBehaviour::Never));
    assert!(matches!(scope.get(&mut String::from("i")), Some(IdentInfo::LocalVar(Type::Int, _))));
}

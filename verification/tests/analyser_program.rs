use wacc_32::analyser::analyse;
use wacc_32::analyser::context::{ScopeBuilder, SymbolTable};
use wacc_32::analyser::SemanticError;
use wacc_32::ast::{BinaryOper, Expr, Func, FuncSig, Program, ScopedStat, Stat, Type, TypedExpr};

fn double() -> Func {
    /* int double(int x) is return x * 2 end */
    Func {
        ident: String::from("double"),
        signature: FuncSig { param_types: vec![Type::Int], return_type: Type::Int },
        body: Stat::Return(Expr::BinaryApp(
            Box::new(Expr::Ident(String::from("x"))),
            BinaryOper::Mul,
            Box::new(Expr::IntLiter(2)),
        )),
        params_st: SymbolTable::default(),
        body_st: SymbolTable::default(),
        param_ids: vec![String::from("x")],
    }
}

#[test]
fn func_parameters_checked() {
    let symbol_table = SymbolTable::default();
    let scope = &mut ScopeBuilder::new(symbol_table);

    let f = double();

    /* Works in it's default form. */
    assert!(f.clone().analyse(scope, ()).is_ok());

    /* Doesn't work if wrong type returned. */
    /* int double(int x) is return false end */
    let mut f1 = f.clone();
    f1.body = Stat::Return(Expr::BoolLiter(false));
    assert!(f1.analyse(scope, ()).is_err());

    /* Can compare parameter type with return type. */
    /* bool double(int x) is return x end */
    let mut f2 = f;
    f2.signature.return_type = Type::Bool;
    f2.body = Stat::Return(Expr::Ident(String::from("x")));
    assert!(f2.analyse(scope, ()).is_err());
}

#[test]
fn branching_return_types_checked() {
    let f = double();

    /* int double(int x) is
      if true then return 5 else return 2 fi
    end */
    let mut f3 = f.clone();
    f3.body = Stat::If(
        Expr::BoolLiter(false),
        ScopedStat::new(Stat::Return(Expr::IntLiter(5))),
        ScopedStat::new(Stat::Return(Expr::IntLiter(2))),
    );
    assert!(f3.analyse(&mut ScopeBuilder::new(SymbolTable::default()), ()).is_ok());

    /* int double(int x) is
      if true then return false else return 2 fi
    end */
    let mut f4 = f.clone();
    f4.body = Stat::If(
        Expr::BoolLiter(false),
        ScopedStat::new(Stat::Return(Expr::BoolLiter(false))),
        ScopedStat::new(Stat::Return(Expr::IntLiter(2))),
    );
    assert!(f4.analyse(&mut ScopeBuilder::new(SymbolTable::default()), ()).is_err());

    /* int double(int x) is
      print "hello world"; return 5
    end*/
    let mut f5 = f.clone();
    f5.body = Stat::Sequence(
        Box::new(Stat::Print(TypedExpr::new(Expr::StrLiter(String::from("hello world"))))),
        Box::new(Stat::Return(Expr::IntLiter(5))),
    );
    let x = f5.analyse(&mut ScopeBuilder::new(SymbolTable::default()), ());
    assert!(x.is_ok());

    /* int double(int x) is
      if true then return true else skip fi;
      return 5
    end*/
    let mut f6 = f;
    f6.body = Stat::Sequence(
        Box::new(Stat::If(
            Expr::BoolLiter(true),
            ScopedStat::new(Stat::Return(Expr::BoolLiter(true))),
            ScopedStat::new(Stat::Skip),
        )),
        Box::new(Stat::Print(TypedExpr::new(Expr::StrLiter(String::from("Hello World"))))),
    );
    assert!(f6.analyse(&mut ScopeBuilder::new(SymbolTable::default()), ()).is_err());
}

#[test]
fn missing_return_is_a_syntax_error() {
    let mut f = double();
    f.body = Stat::Skip;
    let r = f.analyse(&mut ScopeBuilder::new(SymbolTable::default()), ());
    assert_eq!(r, Err(SemanticError::Syntax(String::from("The last statement should be a return or exit."))));
}

#[test]
fn repeated_parameter_is_an_error() {
    let mut f = double();
    f.signature.param_types = vec![Type::Int, Type::Int];
    f.param_ids = vec![String::from("x"), String::from("x")];
    assert!(f.analyse(&mut ScopeBuilder::new(SymbolTable::default()), ()).is_err());
}

fn program(funcs: Vec<Func>, main: Stat) -> Program {
    Program { funcs, statement: ScopedStat::new(main), symbol_table: SymbolTable::default() }
}

#[test]
fn programs_call_hoisted_functions() {
    /* The main statement calls the function through its label. */
    let call = Stat::Println(TypedExpr::new(Expr::Call(
        Type::Any,
        Box::new(Expr::Ident(String::from("double"))),
        vec![Expr::IntLiter(4)],
    )));
    let mut p = program(vec![double()], call);
    assert_eq!(analyse(&mut p), Ok(()));
}

#[test]
fn main_cannot_return() {
    let mut p = program(vec![], Stat::Return(Expr::IntLiter(1)));
    assert_eq!(
        analyse(&mut p),
        Err(SemanticError::Normal(String::from("Cannot have 'return' statement in main")))
    );
    /* But it can exit. */
    let mut q = program(vec![], Stat::Exit(Expr::IntLiter(1)));
    assert_eq!(analyse(&mut q), Ok(()));
}

#[test]
fn functions_with_one_name_are_an_error() {
    let mut p = program(vec![double(), double()], Stat::Skip);
    assert!(analyse(&mut p).is_err());
}

#[test]
fn analysis_renames_variables_and_stores_types() {
    let mut p = wacc_32::parser::parse(
        "begin int f(int a) is return a end int x = call f(2) ; if true then int y = x ; println y else skip fi end",
    )
    .unwrap();
    assert!(analyse(&mut p).is_ok());
    /* The parameter is declared in the scope of the parameters. */
    assert_eq!(p.funcs[0].param_ids, vec!["_4".to_string()]);
    assert_eq!(p.funcs[0].body, Stat::Return(Expr::Ident("_4".to_string())));
    match &*p.statement.1 {
        Stat::Sequence(decl, rest) => {
            match &**decl {
                Stat::Declaration(Type::Int, x, wacc_32::ast::AssignRhs::Expr(Expr::Call(t, f, _))) => {
                    assert_eq!(x, "_4");
                    assert_eq!(
                        *t,
                        Type::Func(Box::new(FuncSig { param_types: vec![Type::Int], return_type: Type::Int }))
                    );
                    assert_eq!(**f, Expr::Ident("f".to_string()));
                },
                other => panic!("unexpected declaration {:?}", other),
            }
            match &**rest {
                Stat::If(_, then_branch, _) => {
                    let expected = Stat::Sequence(
                        Box::new(Stat::Declaration(
                            Type::Int,
                            "__4".to_string(),
                            wacc_32::ast::AssignRhs::Expr(Expr::Ident("_4".to_string())),
                        )),
                        Box::new(Stat::Println(TypedExpr(Type::Int, Expr::Ident("__4".to_string())))),
                    );
                    assert_eq!(*then_branch.1, expected);
                },
                other => panic!("unexpected statement {:?}", other),
            }
        },
        other => panic!("unexpected main statement {:?}", other),
    }
}

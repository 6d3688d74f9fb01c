use wacc_32::analyser::context::{IdentInfo, SymbolTable};
use wacc_32::ast::{
    ArrayElem, ArrayLiter, AssignLhs, AssignRhs, BinaryOper, Expr, Func, FuncSig, PairElem, Program,
    ScopedStat, Stat, Struct, Type, TypedExpr,
};
use wacc_32::parser::type_::{func_type, type_list};
use wacc_32::parser::{parse, ParseError};
use wacc_32::parser::program::{named_func, param, program};
use wacc_32::parser::shared::comment_or_ws;
use wacc_32::parser::stat::{assign_lhs, assign_rhs, pair_elem, stat};

fn chars(input: &str) -> Vec<char> {
    input.chars().collect()
}

/* Runs a parser on the whole input, giving back what is left and what was read. */
fn run<T>(f: impl Fn(&Vec<char>, usize) -> Option<(T, usize)>, input: &str) -> Result<(String, T), ()> {
    let s = chars(input);
    match f(&s, 0) {
        Some((v, q)) => Ok((s[q..].iter().collect(), v)),
        None => Err(()),
    }
}

/* As `run`, after the white space at the start of the input. */
fn run_ws<T>(f: impl Fn(&Vec<char>, usize) -> Option<(T, usize)>, input: &str) -> Result<(String, T), ()> {
    let s = chars(input);
    let p = comment_or_ws(&s, 0);
    match f(&s, p) {
        Some((v, q)) => Ok((s[q..].iter().collect(), v)),
        None => Err(()),
    }
}

fn ok<T>(rest: &str, v: T) -> Result<(String, T), ()> {
    Ok((rest.to_string(), v))
}

fn id(name: &str) -> Expr {
    Expr::Ident(name.to_string())
}

fn num(n: i32) -> Expr {
    Expr::IntLiter(n)
}

fn bin(l: Expr, op: BinaryOper, r: Expr) -> Expr {
    Expr::BinaryApp(Box::new(l), op, Box::new(r))
}

fn typed(e: Expr) -> TypedExpr {
    TypedExpr(Type::Any, e)
}

fn rhs(e: Expr) -> AssignRhs {
    AssignRhs::Expr(e)
}

fn array_liter(es: Vec<Expr>) -> Expr {
    Expr::ArrayLiter(ArrayLiter(Type::Any, es))
}

fn new_pair(l: Expr, r: Expr) -> Expr {
    Expr::PairLiter(Box::new(typed(l)), Box::new(typed(r)))
}

fn declare(t: Type, name: &str, e: Expr) -> Stat {
    Stat::Declaration(t, name.to_string(), rhs(e))
}

fn assign(lhs: AssignLhs, e: Expr) -> Stat {
    Stat::Assignment(lhs, Type::Any, rhs(e))
}

fn lhs_id(name: &str) -> AssignLhs {
    AssignLhs::Ident(name.to_string())
}

fn seq(a: Stat, b: Stat) -> Stat {
    Stat::Sequence(Box::new(a), Box::new(b))
}

fn pair_t(l: Type, r: Type) -> Type {
    Type::Pair(Box::new(l), Box::new(r))
}

fn array_t(t: Type) -> Type {
    Type::Array(Box::new(t))
}

#[test]
fn test_stat_skip() {
    assert_eq!(run(stat, "skip; skip"), ok("", seq(Stat::Skip, Stat::Skip)));
    assert_eq!(run(stat, "skip"), ok("", Stat::Skip));
    assert!(run(stat, "sk ip").is_err());
    assert!(run(stat, "skiip").is_err());
}

#[test]
fn test_stat_dec_keyword() {
    assert_eq!(run(stat, "int interesting = 5"), ok("", declare(Type::Int, "interesting", num(5))));
}

#[test]
fn test_stat_dec_int() {
    assert_eq!(run(stat, "int x = 5"), ok("", declare(Type::Int, "x", num(5))));
}

#[test]
fn test_stat_dec_bool() {
    assert_eq!(run(stat, "bool x = true"), ok("", declare(Type::Bool, "x", Expr::BoolLiter(true))));
    assert_eq!(run(stat, "bool x = false"), ok("", declare(Type::Bool, "x", Expr::BoolLiter(false))));
}

#[test]
fn test_stat_dec_char() {
    assert_eq!(run(stat, "char x = 'a'"), ok("", declare(Type::Char, "x", Expr::CharLiter('a'))));
}

#[test]
fn test_stat_dec_char_escape() {
    assert_eq!(run(stat, "char x = '\n'"), ok("", declare(Type::Char, "x", Expr::CharLiter('\n'))));
}

#[test]
fn test_stat_dec_str() {
    assert_eq!(
        run(stat, "string x = \"hello world!\""),
        ok("", declare(Type::String, "x", Expr::StrLiter("hello world!".to_string())))
    );
}

#[test]
fn test_stat_dec_array_int() {
    assert_eq!(
        run(stat, "int[] arr = [1,2,3,4,5]"),
        ok("", declare(array_t(Type::Int), "arr", array_liter((1..=5).map(Expr::IntLiter).collect())))
    );
}

#[test]
fn test_stat_dec_array_char() {
    assert_eq!(
        run(stat, "char[] arr = ['a','b','c','d','e']"),
        ok("", declare(array_t(Type::Char), "arr", array_liter(('a'..='e').map(Expr::CharLiter).collect())))
    );
}

#[test]
fn test_stat_dec_array_string() {
    assert_eq!(
        run(stat, "string[] arr = [\"hello\",\"world\"]"),
        ok(
            "",
            declare(
                array_t(Type::String),
                "arr",
                array_liter(vec![Expr::StrLiter("hello".to_string()), Expr::StrLiter("world".to_string())])
            )
        )
    );
}

#[test]
fn test_stat_dec_array_pair() {
    assert_eq!(
        run(stat, "pair(int, int)[] arr = [null,null,null]"),
        ok(
            "",
            declare(
                array_t(pair_t(Type::Int, Type::Int)),
                "arr",
                array_liter(vec![Expr::NullPairLiter, Expr::NullPairLiter, Expr::NullPairLiter])
            )
        )
    );
}

#[test]
fn test_stat_dec_pair_int_int() {
    assert_eq!(
        run(stat, "pair(int, int) x = newpair(1,2)"),
        ok("", declare(pair_t(Type::Int, Type::Int), "x", new_pair(num(1), num(2))))
    );
}

#[test]
fn test_stat_dec_pair_pair() {
    let any_pair = || pair_t(Type::Any, Type::Any);
    assert_eq!(
        run(stat, "pair(pair, pair) x = newpair(null, null)"),
        ok("", declare(pair_t(any_pair(), any_pair()), "x", new_pair(Expr::NullPairLiter, Expr::NullPairLiter)))
    );
}

#[test]
fn test_stat_dec_pair_null() {
    let any_pair = || pair_t(Type::Any, Type::Any);
    assert_eq!(
        run(stat, "pair(pair, pair) x = null"),
        ok("", declare(pair_t(any_pair(), any_pair()), "x", Expr::NullPairLiter))
    );
}

#[test]
fn test_stat_dec_pair_int_pair() {
    assert_eq!(
        run(stat, "pair(int, pair) x = newpair(1,null)"),
        ok(
            "",
            declare(pair_t(Type::Int, pair_t(Type::Any, Type::Any)), "x", new_pair(num(1), Expr::NullPairLiter))
        )
    );
}

#[test]
fn test_stat_ass_idtype() {
    assert_eq!(run(stat, "intx = 5"), ok("", assign(lhs_id("intx"), num(5))));
}

#[test]
fn test_stat_ass_arr() {
    assert_eq!(
        run(stat, "int[] arr = [1,2,3,4,5]"),
        ok("", declare(array_t(Type::Int), "arr", array_liter((1..=5).map(Expr::IntLiter).collect())))
    );
}

#[test]
fn test_stat_ass_int2() {
    assert_eq!(run(stat, "aaa = 123"), ok("", assign(lhs_id("aaa"), num(123))));
}

#[test]
fn test_stat_ass_array_pair() {
    assert_eq!(
        run(stat, "array[2] = newpair (1, 'a') restOfString"),
        ok(
            "restOfString",
            assign(
                AssignLhs::ArrayElem(ArrayElem("array".to_string(), vec![num(2)])),
                new_pair(num(1), Expr::CharLiter('a'))
            )
        )
    );
}

#[test]
fn test_stat_read() {
    assert_eq!(run(stat, "read test"), ok("", Stat::Read(Type::Any, lhs_id("test"))));
}

#[test]
fn test_stat_free() {
    assert_eq!(run(stat, "free 5"), ok("", Stat::Free(typed(num(5)))));
}

#[test]
fn test_stat_return() {
    assert_eq!(run(stat, "return 5"), ok("", Stat::Return(num(5))));
}

#[test]
fn test_stat_exit() {
    assert_eq!(run(stat, "exit 5"), ok("", Stat::Exit(num(5))));
}

#[test]
fn test_stat_print() {
    assert_eq!(run(stat, "print 5"), ok("", Stat::Print(typed(num(5)))));
    assert_eq!(
        run(stat, "print \"hello\""),
        ok("", Stat::Print(typed(Expr::StrLiter("hello".to_string()))))
    );
}

#[test]
fn test_stat_println() {
    assert_eq!(run(stat, "println 5"), ok("", Stat::Println(typed(num(5)))));
    assert_eq!(
        run(stat, "println \"hello\""),
        ok("", Stat::Println(typed(Expr::StrLiter("hello".to_string()))))
    );
}

fn if_stat() -> Stat {
    Stat::If(
        bin(id("b"), BinaryOper::Eq, num(2)),
        ScopedStat::new(assign(lhs_id("x"), num(5))),
        ScopedStat::new(assign(lhs_id("x"), num(6))),
    )
}

fn while_stat() -> Stat {
    Stat::While(
        bin(id("n"), BinaryOper::Neq, num(0)),
        ScopedStat::new(seq(
            assign(lhs_id("acc"), bin(id("acc"), BinaryOper::Mul, id("n"))),
            assign(lhs_id("n"), bin(id("n"), BinaryOper::Sub, num(1))),
        )),
    )
}

#[test]
fn test_stat_if() {
    assert_eq!(run(stat, "if b == 2 then x = 5 else x = 6 fi"), ok("", if_stat()));
}

#[test]
fn test_stat_while() {
    assert_eq!(run(stat, "while n != 0 do acc = acc * n; n = n - 1 done"), ok("", while_stat()));
}

#[test]
fn test_stat_scope() {
    assert_eq!(run(stat, "begin skip end"), ok("", Stat::Scope(ScopedStat::new(Stat::Skip))));
    assert_eq!(
        run(stat, "bool[] bools = [ false, true ]"),
        ok(
            "",
            declare(
                array_t(Type::Bool),
                "bools",
                array_liter(vec![Expr::BoolLiter(false), Expr::BoolLiter(true)])
            )
        )
    );
}

#[test]
fn test_stat_ass_binary_app_sum_mult() {
    assert_eq!(
        run(stat, "a = w + x * y + z"),
        ok(
            "",
            assign(
                lhs_id("a"),
                bin(id("w"), BinaryOper::Add, bin(bin(id("x"), BinaryOper::Mul, id("y")), BinaryOper::Add, id("z")))
            )
        )
    );
}

#[test]
fn stat_test_pair_elem() {
    assert_eq!(run(pair_elem, "fst 5"), ok("", PairElem::Fst(typed(num(5)))));
    assert_eq!(run(pair_elem, "snd null"), ok("", PairElem::Snd(typed(Expr::NullPairLiter))));
}

#[test]
fn stat_test_assign_lhs() {
    assert_eq!(run(assign_lhs, "foo"), ok("", lhs_id("foo")));
    assert_eq!(
        run(assign_lhs, "foo [ 5]"),
        ok("", AssignLhs::ArrayElem(ArrayElem("foo".to_string(), vec![num(5)])))
    );
    assert_eq!(run(assign_lhs, "fst 5"), ok("", AssignLhs::PairElem(PairElem::Fst(typed(num(5))))));
    assert_eq!(
        run(assign_lhs, "snd null"),
        ok("", AssignLhs::PairElem(PairElem::Snd(typed(Expr::NullPairLiter))))
    );
}

fn pair_elem_expr(pe: PairElem) -> Expr {
    Expr::PairElem(Box::new(pe))
}

#[test]
fn stat_test_assign_rhs() {
    assert_eq!(run(assign_rhs, "5"), ok("", num(5)));
    assert_eq!(run(assign_rhs, "[1, 2 ,3 ,4,5]"), ok("", array_liter((1..=5).map(Expr::IntLiter).collect())));
    assert_eq!(run(assign_rhs, "[1, 'c']"), ok("", array_liter(vec![num(1), Expr::CharLiter('c')])));
    assert_eq!(run(assign_rhs, "[]"), ok("", array_liter(vec![])));
    assert_eq!(run(assign_rhs, "newpair (1, 2)"), ok("", new_pair(num(1), num(2))));
    assert_eq!(run(assign_rhs, "fst 5"), ok("", pair_elem_expr(PairElem::Fst(typed(num(5))))));
    assert_eq!(run(assign_rhs, "snd null"), ok("", pair_elem_expr(PairElem::Snd(typed(Expr::NullPairLiter)))));
    assert_eq!(run(assign_rhs, "fst 1 ; snd 2"), ok("; snd 2", pair_elem_expr(PairElem::Fst(typed(num(1))))));
    assert_eq!(
        run(assign_rhs, "call callee ()"),
        ok("", Expr::Call(Type::Any, Box::new(id("callee")), vec![]))
    );
    assert_eq!(
        run(assign_rhs, "[ false, true ]"),
        ok("", array_liter(vec![Expr::BoolLiter(false), Expr::BoolLiter(true)]))
    );
}

#[test]
fn test_stat() {
    assert_eq!(run_ws(stat, " skip @"), ok("@", Stat::Skip));
    assert_eq!(run_ws(stat, "int x = 5"), ok("", declare(Type::Int, "x", num(5))));
    assert_eq!(
        run_ws(stat, "int[] arr = [1,2,3,4,5]"),
        ok("", declare(array_t(Type::Int), "arr", array_liter((1..=5).map(Expr::IntLiter).collect())))
    );
    assert_eq!(run_ws(stat, "aaa = 123"), ok("", assign(lhs_id("aaa"), num(123))));
    assert_eq!(
        run_ws(stat, "array[2] = newpair (1, 'a') restOfString"),
        ok(
            "restOfString",
            assign(
                AssignLhs::ArrayElem(ArrayElem("array".to_string(), vec![num(2)])),
                new_pair(num(1), Expr::CharLiter('a'))
            )
        )
    );
    assert_eq!(run_ws(stat, "read test"), ok("", Stat::Read(Type::Any, lhs_id("test"))));
    assert_eq!(run_ws(stat, "free 5"), ok("", Stat::Free(typed(num(5)))));
    assert_eq!(run_ws(stat, "return 5"), ok("", Stat::Return(num(5))));
    assert_eq!(run_ws(stat, "exit 5"), ok("", Stat::Exit(num(5))));
    assert_eq!(run_ws(stat, "print 5"), ok("", Stat::Print(typed(num(5)))));
    assert_eq!(run_ws(stat, "println 5"), ok("", Stat::Println(typed(num(5)))));
    let hello = || Expr::StrLiter("hello".to_string());
    assert_eq!(run_ws(stat, "print \"hello\""), ok("", Stat::Print(typed(hello()))));
    assert_eq!(run_ws(stat, "println \"hello\""), ok("", Stat::Println(typed(hello()))));
    assert_eq!(run_ws(stat, "if b == 2 then x = 5 else x = 6 fi"), ok("", if_stat()));
    assert_eq!(run_ws(stat, "while n != 0 do acc = acc * n; n = n - 1 done"), ok("", while_stat()));
    assert_eq!(run_ws(stat, "begin skip end"), ok("", Stat::Scope(ScopedStat::new(Stat::Skip))));
}

#[test]
fn parser_test_assign_lhs() {
    assert_eq!(run_ws(assign_lhs, "foo"), ok("", lhs_id("foo")));
    assert_eq!(
        run_ws(assign_lhs, "foo [ 5]"),
        ok("", AssignLhs::ArrayElem(ArrayElem("foo".to_string(), vec![num(5)])))
    );
    assert_eq!(run_ws(assign_lhs, "fst 5"), ok("", AssignLhs::PairElem(PairElem::Fst(typed(num(5))))));
    assert_eq!(
        run_ws(assign_lhs, "snd null"),
        ok("", AssignLhs::PairElem(PairElem::Snd(typed(Expr::NullPairLiter))))
    );
}

#[test]
fn parser_test_assign_rhs() {
    assert_eq!(run_ws(assign_rhs, "5"), ok("", num(5)));
    assert_eq!(run_ws(assign_rhs, "[1, 2 ,3 ,4,5]"), ok("", array_liter((1..=5).map(Expr::IntLiter).collect())));
    assert_eq!(run_ws(assign_rhs, "[1, 'c']"), ok("", array_liter(vec![num(1), Expr::CharLiter('c')])));
    assert_eq!(run_ws(assign_rhs, "[]"), ok("", array_liter(vec![])));
    assert_eq!(run_ws(assign_rhs, "newpair (1, 2)"), ok("", new_pair(num(1), num(2))));
    assert_eq!(run_ws(assign_rhs, "fst 5"), ok("", pair_elem_expr(PairElem::Fst(typed(num(5))))));
    assert_eq!(run_ws(assign_rhs, "snd null"), ok("", pair_elem_expr(PairElem::Snd(typed(Expr::NullPairLiter)))));
    assert_eq!(run_ws(assign_rhs, "fst 1 ; snd 2"), ok("; snd 2", pair_elem_expr(PairElem::Fst(typed(num(1))))));
}

#[test]
fn parser_test_pair_elem() {
    assert_eq!(run_ws(pair_elem, "fst 5"), ok("", PairElem::Fst(typed(num(5)))));
    assert_eq!(run_ws(pair_elem, "snd null"), ok("", PairElem::Snd(typed(Expr::NullPairLiter))));
}

#[test]
fn parser_test_param() {
    assert_eq!(run_ws(param, "int x"), ok("", (Type::Int, "x".to_string())));
    assert_eq!(run_ws(param, "int [ ][ ] x"), ok("", (array_t(array_t(Type::Int)), "x".to_string())));
}

#[test]
fn program_test_param() {
    assert_eq!(run(param, "int x"), ok("", (Type::Int, "x".to_string())));
    assert_eq!(run(param, "int [ ][ ] x"), ok("", (array_t(array_t(Type::Int)), "x".to_string())));
}

#[test]
fn parser_test_program() {
    /* An empty program is no program. */
    assert!(parse("").is_err());
}

#[test]
fn parser_test_func() {
    assert!(run(named_func, "int f() is skip").is_err());
}

#[test]
fn test_array_liter() {
    assert_eq!(run(assign_rhs, "[ ]"), ok("", array_liter(vec![])));
}

fn func(name: &str, params: Vec<(Type, &str)>, return_type: Type, body: Stat) -> Func {
    Func {
        ident: name.to_string(),
        param_ids: params.iter().map(|(_, n)| n.to_string()).collect(),
        signature: FuncSig { param_types: params.into_iter().map(|(t, _)| t).collect(), return_type },
        body,
        params_st: SymbolTable::default(),
        body_st: SymbolTable::default(),
    }
}

#[test]
fn program_test_program() {
    assert_eq!(
        run(program, "begin int foo(int x) is return x end int y = call foo(5 + 1) end").unwrap().1,
        Program {
            funcs: vec![func("foo", vec![(Type::Int, "x")], Type::Int, Stat::Return(id("x")))],
            statement: ScopedStat::new(declare(
                Type::Int,
                "y",
                Expr::Call(Type::default(), Box::new(id("foo")), vec![bin(num(5), BinaryOper::Add, num(1))])
            )),
            symbol_table: SymbolTable::default(),
        }
    );
}

#[test]
fn test_structs() {
    let p = run(program, "begin struct foo { int x, char y } skip end").unwrap().1;

    assert_eq!(p.symbol_table.table.len(), 1);

    let mut foo = Struct::new();
    foo.add_field(Type::Int, format!("x"));
    foo.add_field(Type::Char, format!("y"));
    assert_eq!(foo.size, 5);
    assert_eq!(p.symbol_table.table.get("foo").unwrap(), &IdentInfo::TypeDef(foo));
}

#[test]
fn test_structs2() {
    run(
        program,
        "begin
      struct IntBox {
        int x
      }
      IntBox f = IntBox { x: 5 }
    end",
    )
    .unwrap()
    .1;
}

#[test]
fn program_test_func() {
    assert_eq!(
        run(named_func, "int firstFunc (int x, int y) is return x + y end"),
        ok(
            "",
            func(
                "firstFunc",
                vec![(Type::Int, "x"), (Type::Int, "y")],
                Type::Int,
                Stat::Return(bin(id("x"), BinaryOper::Add, id("y")))
            )
        )
    );
    assert_eq!(
        run(named_func, "int exitThree () is exit 3 end"),
        ok("", func("exitThree", vec![], Type::Int, Stat::Exit(num(3))))
    );
}

#[test]
fn test_func_with_func_in_args() {
    assert_eq!(
        run(named_func, "int funcWithFunc (int(int, int) foo, int x) is int y = call foo(x); return y end")
            .unwrap()
            .1,
        func(
            "funcWithFunc",
            vec![
                (
                    Type::Func(Box::new(FuncSig { param_types: vec![Type::Int, Type::Int], return_type: Type::Int })),
                    "foo"
                ),
                (Type::Int, "x"),
            ],
            Type::Int,
            seq(
                declare(Type::Int, "y", Expr::Call(Type::default(), Box::new(id("foo")), vec![id("x")])),
                Stat::Return(id("y"))
            )
        )
    );
}

#[test]
fn parse_whole_program() {
    let p = parse("# a comment\nbegin\n  int x = 1 ;\n  println x\nend\n").unwrap();
    assert_eq!(p.statement, ScopedStat::new(seq(declare(Type::Int, "x", num(1)), Stat::Println(typed(id("x"))))));
}

#[test]
fn parse_rejects_trailing_input() {
    let e = parse("begin skip end end").unwrap_err();
    assert_eq!(e.position, 15);
    assert!(parse("begin skip").is_err());
}

#[test]
fn parse_reports_what_was_expected() {
    let e = parse("begin skip end end").unwrap_err();
    assert_eq!(e.message, "expected end of input");
    let e = parse("  hello").unwrap_err();
    assert_eq!(e, ParseError { position: 2, message: "expected 'begin'".to_string() });
    let e = parse("begin int x end").unwrap_err();
    assert_eq!(e, ParseError { position: 6, message: "expected a statement".to_string() });
    let e = parse("begin skip ; skip ").unwrap_err();
    assert_eq!(e, ParseError { position: 18, message: "expected 'end'".to_string() });
}

#[test]
fn a_repeated_field_takes_its_later_place() {
    let p = run(program, "begin struct s { int x, char x } skip end").unwrap().1;
    match p.symbol_table.table.get("s").unwrap() {
        IdentInfo::TypeDef(d) => {
            assert_eq!(d.size, 5);
            assert_eq!(d.fields.get("x"), Some(&(Type::Char, 4)));
        },
        _ => panic!("expected a struct definition"),
    }
}

#[test]
fn later_struct_definitions_replace_earlier_ones() {
    let p = run(program, "begin struct s { int x } struct s { bool b, bool c } skip end").unwrap().1;
    assert_eq!(p.symbol_table.table.len(), 1);
    match p.symbol_table.table.get("s").unwrap() {
        IdentInfo::TypeDef(d) => {
            assert_eq!(d.size, 2);
            assert_eq!(d.fields.get("c"), Some(&(Type::Bool, 1)));
            assert_eq!(d.fields.get("x"), None);
        },
        _ => panic!("expected a struct definition"),
    }
}

#[test]
fn function_types_list_their_parameters() {
    let t = run(func_type, "int(char, bool[]) rest").unwrap();
    assert_eq!(t.0, "rest");
    assert_eq!(
        t.1,
        Type::Func(Box::new(FuncSig {
            param_types: vec![Type::Char, Type::Array(Box::new(Type::Bool))],
            return_type: Type::Int
        }))
    );
    assert_eq!(run(|s: &Vec<char>, p: usize| Some(type_list(s, p)), "int, char x"), ok("x", vec![Type::Int, Type::Char]));
    assert_eq!(run(|s: &Vec<char>, p: usize| Some(type_list(s, p)), ", int"), ok(", int", vec![]));
    assert!(run(func_type, "int x").is_err());
}

#[test]
fn a_function_after_its_name_is_its_parameters_and_body() {
    let (rest, (params, body)) =
        run(wacc_32::parser::program::func, "( int x , char c ) is return x end rest").unwrap();
    assert_eq!(rest, "rest");
    assert_eq!(params, vec![(Type::Int, "x".to_string()), (Type::Char, "c".to_string())]);
    assert_eq!(body, Stat::Return(id("x")));
    assert!(run(wacc_32::parser::program::func, "() is skip").is_err());
    assert!(run(wacc_32::parser::program::func, "(int x) return x end").is_err());
}

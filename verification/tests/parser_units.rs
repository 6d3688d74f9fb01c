use wacc_32::ast::{ArrayElem, BinaryOper, Expr, Type, UnaryOper};
use wacc_32::parser::expr::{array_elem, binary_oper_prec, expr, unary_oper};
use wacc_32::parser::shared::{comment, comment_or_ws, ident, is_keyword};
use wacc_32::parser::type_::{base_type, pair_elem_type, type_};

fn chars(input: &str) -> Vec<char> {
    input.chars().collect()
}

/* Runs a parser on the whole input, giving back what is left and what was read. */
fn run<T>(f: impl Fn(&Vec<char>, usize) -> Option<(T, usize)>, input: &str) -> Result<(String, T), ()> {
    let s = chars(input);
    match f(&s, 0) {
        Some((v, q)) => Ok((s[q..].iter().collect(), v)),
        None => Err(()),
    }
}

/* As `run`, after the white space at the start of the input. */
fn run_ws<T>(f: impl Fn(&Vec<char>, usize) -> Option<(T, usize)>, input: &str) -> Result<(String, T), ()> {
    let s = chars(input);
    let p = comment_or_ws(&s, 0);
    match f(&s, p) {
        Some((v, q)) => Ok((s[q..].iter().collect(), v)),
        None => Err(()),
    }
}

fn ok<T>(rest: &str, v: T) -> Result<(String, T), ()> {
    Ok((rest.to_string(), v))
}

fn prec(n: u8) -> impl Fn(&Vec<char>, usize) -> Option<(BinaryOper, usize)> {
    move |s: &Vec<char>, p: usize| binary_oper_prec(s, p, n)
}

fn bin(l: Expr, op: BinaryOper, r: Expr) -> Expr {
    Expr::BinaryApp(Box::new(l), op, Box::new(r))
}

fn id(name: &str) -> Expr {
    Expr::Ident(name.to_string())
}

#[test]
fn expr_test_expr() {
    assert_eq!(run(expr, "true   "), ok("", Expr::BoolLiter(true)));
    assert_eq!(run(expr, "( false)   "), ok("", Expr::BoolLiter(false)));
    assert_eq!(run(expr, "( - 5321)"), ok("", Expr::IntLiter(-5321)));
    assert_eq!(run(expr, "+523"), ok("", Expr::IntLiter(523)));
    assert_eq!(run(expr, "1"), ok("", Expr::IntLiter(1)));
    assert_eq!(run(expr, "'a'"), ok("", Expr::CharLiter('a')));
    assert_eq!(run(expr, "'\\n'"), ok("", Expr::CharLiter('\n')));
    assert_eq!(run(expr, "'\\b'"), ok("", Expr::CharLiter('\u{8}')));
    assert_eq!(run(expr, "\"hello\""), ok("", Expr::StrLiter(String::from("hello"))));
    assert_eq!(run(expr, "\"hello\n\""), ok("", Expr::StrLiter(String::from("hello\n"))));
    assert_eq!(run(expr, "\"\""), ok("", Expr::StrLiter(String::from(""))));
    assert_eq!(run(expr, "null"), ok("", Expr::NullPairLiter));
    assert_eq!(run(expr, "null  5"), ok("5", Expr::NullPairLiter));
    assert_eq!(run(expr, "hello "), ok("", id("hello")));
    assert_eq!(run(expr, "hello  5"), ok("5", id("hello")));
    assert_eq!(
        run(expr, "hello [ 2] "),
        ok("", Expr::ArrayElem(ArrayElem(String::from("hello"), vec![Expr::IntLiter(2)])))
    );
    assert_eq!(run(expr, "- (5)"), ok("", Expr::UnaryApp(UnaryOper::Neg, Box::new(Expr::IntLiter(5)))));
    assert_eq!(
        run(expr, "ord 'a'"),
        ok("", Expr::UnaryApp(UnaryOper::Ord, Box::new(Expr::CharLiter('a'))))
    );
    assert_eq!(run(expr, "5 + 5"), ok("", bin(Expr::IntLiter(5), BinaryOper::Add, Expr::IntLiter(5))));
    assert_eq!(
        run(expr, "5 && false"),
        ok("", bin(Expr::IntLiter(5), BinaryOper::And, Expr::BoolLiter(false)))
    );
    assert_ne!(run(expr, "1 * (2 + 3)"), run(expr, "(1 * 2) + 3"));
    assert_eq!(
        run(expr, "1 * (2 + 3)"),
        ok(
            "",
            bin(Expr::IntLiter(1), BinaryOper::Mul, bin(Expr::IntLiter(2), BinaryOper::Add, Expr::IntLiter(3)))
        )
    );
    assert_eq!(run(expr, "lenx"), ok("", id("lenx")));
}

#[test]
fn expr_test_unary_oper() {
    assert_eq!(run(unary_oper, "!"), ok("", UnaryOper::Bang));
    assert_eq!(run(unary_oper, "-"), ok("", UnaryOper::Neg));
    assert_eq!(run(unary_oper, "len"), ok("", UnaryOper::Len));
    assert_eq!(run(unary_oper, "ord"), ok("", UnaryOper::Ord));
    assert_eq!(run(unary_oper, "chr"), ok("", UnaryOper::Chr));
}

#[test]
fn test_expr_binary_app_sum_mult() {
    assert_eq!(
        run(expr, "w + x * y + z"),
        ok("", bin(id("w"), BinaryOper::Add, bin(bin(id("x"), BinaryOper::Mul, id("y")), BinaryOper::Add, id("z"))))
    )
}

#[test]
fn test_expr_binary_app_add_products() {
    assert_eq!(
        run(expr, "w * x + y * z"),
        ok("", bin(bin(id("w"), BinaryOper::Mul, id("x")), BinaryOper::Add, bin(id("y"), BinaryOper::Mul, id("z"))))
    )
}

#[test]
fn test_expr_binary_app_products_eq() {
    assert_eq!(
        run(expr, "w * x == y * z"),
        ok("", bin(bin(id("w"), BinaryOper::Mul, id("x")), BinaryOper::Eq, bin(id("y"), BinaryOper::Mul, id("z"))))
    )
}

#[test]
fn test_expr_binary_app_brackets() {
    assert_eq!(
        run(expr, "w * (x == y) * z"),
        ok("", bin(id("w"), BinaryOper::Mul, bin(bin(id("x"), BinaryOper::Eq, id("y")), BinaryOper::Mul, id("z"))))
    )
}

#[test]
fn test_expr_binary_app_brackets_desc() {
    assert_eq!(
        run(expr, "w * (x + (y == z))"),
        ok("", bin(id("w"), BinaryOper::Mul, bin(id("x"), BinaryOper::Add, bin(id("y"), BinaryOper::Eq, id("z")))))
    )
}

#[test]
fn expr_test_array_elem() {
    assert_eq!(run(array_elem, "array[2]"), ok("", ArrayElem("array".to_string(), vec![Expr::IntLiter(2)])));
    assert_eq!(
        run(array_elem, "otherArray[1][2]"),
        ok("", ArrayElem("otherArray".to_string(), vec![Expr::IntLiter(1), Expr::IntLiter(2)]))
    );
}

#[test]
fn expr_test_binary_oper() {
    assert_eq!(run(prec(1), "*"), ok("", BinaryOper::Mul));
    assert_eq!(run(prec(1), "/  "), ok("", BinaryOper::Div));
    assert_eq!(run(prec(1), "%"), ok("", BinaryOper::Mod));
    assert_eq!(run(prec(2), "+"), ok("", BinaryOper::Add));
    assert_eq!(run(prec(2), "-  "), ok("", BinaryOper::Sub));
    assert_eq!(run(prec(3), ">"), ok("", BinaryOper::Gt));
    assert_eq!(run(prec(3), ">="), ok("", BinaryOper::Gte));
    assert_eq!(run(prec(3), "<"), ok("", BinaryOper::Lt));
    assert_eq!(run(prec(3), "<="), ok("", BinaryOper::Lte));
    assert_eq!(run(prec(4), "== "), ok("", BinaryOper::Eq));
    assert_eq!(run(prec(4), "!="), ok("", BinaryOper::Neq));
    assert_eq!(run(prec(5), "&&"), ok("", BinaryOper::And));
    assert_eq!(run(prec(6), "||"), ok("", BinaryOper::Or));

    assert_eq!(run(prec(3), "< ="), ok("=", BinaryOper::Lt));
    assert_eq!(run(prec(3), "> ="), ok("=", BinaryOper::Gt));
}

#[test]
fn shared_test_ident() {
    assert_eq!(run(ident, "_hello123"), ok("", "_hello123".to_string()));
    assert_eq!(run(ident, "_hello123 test"), ok("test", "_hello123".to_string()));
    assert!(run(ident, "9test").is_err());
    assert_eq!(run(ident, "te@st"), ok("@st", "te".to_string()));

    assert!(run(ident, "read").is_err());
    assert!(run(ident, "begin").is_err());
    assert_eq!(run(ident, "lenx"), ok("", "lenx".to_string()));
}

#[test]
fn test_comment_no_content() {
    assert!(comment(&chars("#"), 0).is_some());
    assert_eq!(comment_or_ws(&chars("#\n"), 0), 2);
}

#[test]
fn test_many0_multispace0() {
    let input = chars("#hello \n   #a;sdkjf;lakdsjf\n  #hi there\nsomething");
    let q = comment_or_ws(&input, 0);
    let rest: String = input[q..].iter().collect();
    assert_eq!(rest, "something");
}

#[test]
fn test_custom() {
    assert_eq!(run(type_, "foobar").unwrap().1, Type::Custom(format!("foobar")));
}

fn pair(l: Type, r: Type) -> Type {
    Type::Pair(Box::new(l), Box::new(r))
}

fn array(t: Type) -> Type {
    Type::Array(Box::new(t))
}

#[test]
fn type__test_type_() {
    assert_eq!(run(type_, "int"), ok("", Type::Int));
    assert_eq!(run(type_, "pair (int [], int)[ ]"), ok("", array(pair(array(Type::Int), Type::Int))));
    assert_eq!(run(type_, "pair (pair , string)"), ok("", pair(pair(Type::Any, Type::Any), Type::String)));
    assert_eq!(run(type_, "pair(int, int)[]"), ok("", array(pair(Type::Int, Type::Int))));
    assert!(run(type_, "pair(pair(int, int), string)").is_err());
}

#[test]
fn type__test_pair_elem_type() {
    assert_eq!(run(pair_elem_type, "int"), ok("", Type::Int));
    assert_eq!(run(pair_elem_type, "char[ ]"), ok("", array(Type::Char)));
    assert_eq!(run(pair_elem_type, "pair"), ok("", pair(Type::Any, Type::Any)));
}

#[test]
fn type__test_base_type() {
    assert_eq!(run(base_type, "int"), ok("", Type::Int));
    assert_eq!(run(base_type, "bool"), ok("", Type::Bool));
    assert_eq!(run(base_type, "char"), ok("", Type::Char));
    assert_eq!(run(base_type, "string"), ok("", Type::String));
}

/* The tests of the first version of the parser, which took the white space
in front of a token too. */

#[test]
fn parser_test_type_() {
    assert_eq!(run_ws(type_, "int"), ok("", Type::Int));
    assert_eq!(run_ws(type_, "pair (int [], int)[ ]"), ok("", array(pair(array(Type::Int), Type::Int))));
    assert_eq!(run_ws(type_, "pair (pair , string)"), ok("", pair(pair(Type::Any, Type::Any), Type::String)));
    assert!(run_ws(type_, "pair(pair(int, int), string)").is_err());
}

#[test]
fn parser_test_pair_elem_type() {
    assert_eq!(run_ws(pair_elem_type, "int"), ok("", Type::Int));
    assert_eq!(run_ws(pair_elem_type, "char[ ]"), ok("", array(Type::Char)));
    assert_eq!(run_ws(pair_elem_type, "pair"), ok("", pair(Type::Any, Type::Any)));
    assert_eq!(run_ws(pair_elem_type, "pair(int, int)[]"), ok("", array(pair(Type::Int, Type::Int))));
}

#[test]
fn parser_test_base_type() {
    assert_eq!(run_ws(base_type, "int"), ok("", Type::Int));
    assert_eq!(run_ws(base_type, "bool"), ok("", Type::Bool));
    assert_eq!(run_ws(base_type, "char"), ok("", Type::Char));
    assert_eq!(run_ws(base_type, "string"), ok("", Type::String));
}

#[test]
fn parser_test_expr() {
    assert_eq!(run_ws(expr, " true   "), ok("", Expr::BoolLiter(true)));
    assert_eq!(run_ws(expr, " ( false)   "), ok("", Expr::BoolLiter(false)));
    assert_eq!(run_ws(expr, " ( - 5321)"), ok("", Expr::IntLiter(-5321)));
    assert_eq!(run_ws(expr, "+523"), ok("", Expr::IntLiter(523)));
    assert_eq!(run_ws(expr, "1"), ok("", Expr::IntLiter(1)));
    assert_eq!(run_ws(expr, "'a'"), ok("", Expr::CharLiter('a')));
    assert_eq!(run_ws(expr, "'\\n'"), ok("", Expr::CharLiter('\n')));
    assert_eq!(run_ws(expr, "'\\b'"), ok("", Expr::CharLiter('\u{8}')));
    assert_eq!(run_ws(expr, "\"hello\""), ok("", Expr::StrLiter(String::from("hello"))));
    assert_eq!(run_ws(expr, "\"hello\n\""), ok("", Expr::StrLiter(String::from("hello\n"))));
    assert_eq!(run_ws(expr, "\"\""), ok("", Expr::StrLiter(String::from(""))));
    assert_eq!(run_ws(expr, "null"), ok("", Expr::NullPairLiter));
    assert_eq!(run_ws(expr, "  null  5"), ok("5", Expr::NullPairLiter));
    assert_eq!(run_ws(expr, " hello "), ok("", id("hello")));
    assert_eq!(run_ws(expr, " hello  5"), ok("5", id("hello")));
    assert_eq!(
        run_ws(expr, "hello [ 2] "),
        ok("", Expr::ArrayElem(ArrayElem(String::from("hello"), vec![Expr::IntLiter(2)])))
    );
    assert_eq!(run_ws(expr, "- (5)"), ok("", Expr::UnaryApp(UnaryOper::Neg, Box::new(Expr::IntLiter(5)))));
    assert_eq!(
        run_ws(expr, "ord 'a'"),
        ok("", Expr::UnaryApp(UnaryOper::Ord, Box::new(Expr::CharLiter('a'))))
    );
    assert_eq!(run_ws(expr, "5 + 5"), ok("", bin(Expr::IntLiter(5), BinaryOper::Add, Expr::IntLiter(5))));
    assert_eq!(
        run_ws(expr, "5 && false"),
        ok("", bin(Expr::IntLiter(5), BinaryOper::And, Expr::BoolLiter(false)))
    );
    assert_ne!(run_ws(expr, "1 * (2 + 3)"), run_ws(expr, "(1 * 2) + 3"));
    assert_eq!(
        run_ws(expr, "1 * (2 + 3)"),
        ok(
            "",
            bin(Expr::IntLiter(1), BinaryOper::Mul, bin(Expr::IntLiter(2), BinaryOper::Add, Expr::IntLiter(3)))
        )
    );
}

#[test]
fn parser_test_unary_oper() {
    assert_eq!(run_ws(unary_oper, "!"), ok("", UnaryOper::Bang));
    assert_eq!(run_ws(unary_oper, "-"), ok("", UnaryOper::Neg));
    assert_eq!(run_ws(unary_oper, "len"), ok("", UnaryOper::Len));
    assert_eq!(run_ws(unary_oper, "ord"), ok("", UnaryOper::Ord));
    assert_eq!(run_ws(unary_oper, "chr"), ok("", UnaryOper::Chr));
}

#[test]
fn parser_test_binary_oper() {
    assert_eq!(run_ws(prec(1), "  *"), ok("", BinaryOper::Mul));
    assert_eq!(run_ws(prec(1), "/  "), ok("", BinaryOper::Div));
    assert_eq!(run_ws(prec(1), "%"), ok("", BinaryOper::Mod));
    assert_eq!(run_ws(prec(2), "+"), ok("", BinaryOper::Add));
    assert_eq!(run_ws(prec(2), "-  "), ok("", BinaryOper::Sub));
    assert_eq!(run_ws(prec(3), ">"), ok("", BinaryOper::Gt));
    assert_eq!(run_ws(prec(3), ">="), ok("", BinaryOper::Gte));
    assert_eq!(run_ws(prec(3), "<"), ok("", BinaryOper::Lt));
    assert_eq!(run_ws(prec(3), " <="), ok("", BinaryOper::Lte));
    assert_eq!(run_ws(prec(4), " == "), ok("", BinaryOper::Eq));
    assert_eq!(run_ws(prec(4), "!="), ok("", BinaryOper::Neq));
    assert_eq!(run_ws(prec(5), "&&"), ok("", BinaryOper::And));
    assert_eq!(run_ws(prec(6), "||"), ok("", BinaryOper::Or));

    assert_eq!(run_ws(prec(3), " < ="), ok("=", BinaryOper::Lt));
    assert_eq!(run_ws(prec(3), "> ="), ok("=", BinaryOper::Gt));
}

#[test]
fn parser_test_ident() {
    assert_eq!(run_ws(ident, "_hello123"), ok("", "_hello123".to_string()));
    assert_eq!(run_ws(ident, "_hello123 test"), ok("test", "_hello123".to_string()));
    assert!(run_ws(ident, "9test").is_err());
    assert_eq!(run_ws(ident, "te@st"), ok("@st", "te".to_string()));
}

#[test]
fn parser_test_array_elem() {
    assert_eq!(run_ws(array_elem, "array[2]"), ok("", ArrayElem("array".to_string(), vec![Expr::IntLiter(2)])));
    assert_eq!(
        run_ws(array_elem, "otherArray[1][2]"),
        ok("", ArrayElem("otherArray".to_string(), vec![Expr::IntLiter(1), Expr::IntLiter(2)]))
    );
}

#[test]
fn keywords_are_not_identifiers() {
    assert!(is_keyword("begin"));
    assert!(is_keyword("null"));
    assert!(is_keyword("chr"));
    assert!(!is_keyword("beginning"));
    assert!(!is_keyword(""));
    assert!(!is_keyword("struct"));
}

#[test]
fn int_liter_bounds() {
    assert_eq!(run(expr, "2147483647"), ok("", Expr::IntLiter(2147483647)));
    assert_eq!(run(expr, "-2147483648"), ok("", Expr::IntLiter(-2147483648)));
    assert!(run(expr, "2147483648").is_err());
}

#[test]
fn keywords_skip_spaces_but_not_comments() {
    assert_eq!(run(base_type, "int \n# note\n x"), ok("# note\n x", Type::Int));
    assert_eq!(run(unary_oper, "len\t# note"), ok("# note", UnaryOper::Len));
    assert!(run(base_type, "integer").is_err());
    /* Tokens skip comments too. */
    assert_eq!(
        run(type_, "pair # note\n (int, char) x"),
        ok("x", Type::Pair(Box::new(Type::Int), Box::new(Type::Char)))
    );
}

use wacc_32::analyser::SemanticError;
use wacc_32::parser::{parse, ParseError};
use wacc_32::{analyse_with_output, compile_source, contains_syntax_errors, exit_code_message, front_end, parse_error_message, FrontEnd};

#[test]
fn syntax_errors_are_found_anywhere_in_the_tree() {
    let normal = || SemanticError::Normal("a".to_string());
    let syntax = || SemanticError::Syntax("b".to_string());
    assert!(!contains_syntax_errors(&normal()));
    assert!(contains_syntax_errors(&syntax()));
    assert!(contains_syntax_errors(&SemanticError::Join(Box::new(normal()), Box::new(syntax()))));
    assert!(!contains_syntax_errors(&SemanticError::Join(Box::new(normal()), Box::new(normal()))));
}

#[test]
fn exit_codes_are_reported() {
    assert_eq!(exit_code_message(100), "Error: Code 100");
    assert_eq!(exit_code_message(200), "Error: Code 200");
    assert_eq!(exit_code_message(0), "Error: Code 0");
}

#[test]
fn parse_errors_give_line_and_column() {
    let program = "begin\n  skip\n  oops\nend";
    let err = ParseError { position: 15, message: "expected end".to_string() };
    assert_eq!(
        parse_error_message(program, &err),
        "line 3, column 3: expected end \nStart of error input: oops\nend\n"
    );
    let at_start = ParseError { position: 0, message: "m".to_string() };
    assert_eq!(
        parse_error_message("0123456789012345678901234567890123456789", &at_start),
        "line 1, column 1: m \nStart of error input: 012345678901234567890123456789\n"
    );
    let past_end = ParseError { position: 99, message: "m".to_string() };
    assert_eq!(parse_error_message("ab\nc", &past_end), "line 2, column 2: m \nStart of error input: \n");
}

#[test]
fn a_good_program_passes_analysis() {
    let mut out = vec![];
    match front_end("begin int x = 5 ; println x end", &mut out) {
        FrontEnd::Analysed(_) => {},
        _ => panic!("expected the program to pass"),
    }
    assert_eq!(out, vec!["Successful semantic analysis.".to_string()]);
}

#[test]
fn a_semantic_error_gives_code_200() {
    let mut out = vec![];
    assert!(matches!(front_end("begin int x = true end", &mut out), FrontEnd::Failed));
    assert_eq!(out.len(), 2);
    assert_eq!(out[1], "Error: Code 200");
}

#[test]
fn a_missing_return_gives_code_100() {
    let mut out = vec![];
    assert!(matches!(front_end("begin int f() is skip end skip end", &mut out), FrontEnd::Failed));
    assert_eq!(out.len(), 2);
    assert_eq!(out[1], "Error: Code 100");
}

#[test]
fn a_parse_error_is_reported() {
    let mut out = vec![];
    assert!(matches!(front_end("begin skip", &mut out), FrontEnd::Failed));
    assert_eq!(out.len(), 1);
    assert!(out[0].starts_with("line 1, column "));
}

#[test]
fn analysis_reports_its_outcome() {
    let mut ast = parse("begin int x = 1 end").unwrap();
    let mut out = vec!["before".to_string()];
    assert!(analyse_with_output(&mut ast, &mut out));
    assert_eq!(out, vec!["before".to_string(), "Successful semantic analysis.".to_string()]);
}

#[test]
fn an_unsupported_operand_type_is_reported() {
    let mut out = vec![];
    assert!(matches!(front_end("begin bool b = true + false end", &mut out), FrontEnd::Failed));
    assert_eq!(out.len(), 2);
    assert!(out[0].contains("TYPE ERROR: Unsupported type for Add\n\tExpected: Int\n\tActual: Bool"));
    assert_eq!(out[1], "Error: Code 200");
}

#[test]
fn an_undeclared_variable_is_named_in_quotes() {
    let mut out = vec![];
    assert!(matches!(front_end("begin println y end", &mut out), FrontEnd::Failed));
    assert!(out[0].contains("Use of undeclared variable: \"y\""));
}

#[test]
fn compiling_reports_each_stage() {
    assert_eq!(
        compile_source("begin skip end", true),
        Some(vec!["Successful semantic analysis.".to_string(), "Halted after analysis stage.".to_string()])
    );
    assert_eq!(
        compile_source("begin skip end", false).unwrap()[1],
        "Error: this build has no code generation stage."
    );
    let out = compile_source("begin int x = true end", true).unwrap();
    assert_eq!(out.len(), 2);
    assert_eq!(out[1], "Error: Code 200");
    let out = compile_source("begin skip", true).unwrap();
    assert_eq!(out.len(), 1);
    assert!(out[0].contains("expected 'end'"));
}

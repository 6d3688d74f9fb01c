use vstd::prelude::*;

pub mod analyser;
pub mod listing;
pub mod ast;
pub mod generator;
pub mod ident_map;
pub mod parser;
pub mod text;

use analyser::program::{
    all_known, program_analysed, func_supported, global_table, program_check, program_fits, program_supported,
    Check,
};
use analyser::context::table_wf;
use analyser::stat::lemma_peak_growth;
use analyser::{analyse, error_text, no_syntax, SError, SemanticError};
use ast::Program;
use parser::program::{fresh_func, fresh_program, program_failure, program_shape, program_spec};
use parser::stat::{fresh_stat, lemma_fresh_scoped_supported, lemma_fresh_supported};
use parser::{parse, ParseError};
use text::{concat_num, int_str, push_str, to_string};

verus! {

/// Whether any error in the tree is a syntax error.
pub fn contains_syntax_errors(errors: &SemanticError) -> (r: bool)
    ensures
        r == !no_syntax(errors@),
    decreases errors,
{
    match errors {
        SemanticError::Syntax(_) => true,
        SemanticError::Normal(_) => false,
        SemanticError::Join(e1, e2) => contains_syntax_errors(e1) || contains_syntax_errors(e2),
    }
}

/// The line reporting the exit code of a failed compilation.
pub fn exit_code_message(code: u8) -> (r: String)
    ensures
        r@ == "Error: Code "@ + int_str(code as int),
{
    let r = concat_num("Error: Code ", code as i64);
    proof {
        reveal_strlit("Error: Code ");
    }
    r
}

/// Analyses a program and reports the outcome: success, or the errors
/// followed by the exit code, 100 for a syntax error and 200 otherwise.
pub fn analyse_with_output(ast: &mut Program, terminal_output: &mut Vec<String>) -> (r: bool)
    requires
        program_supported(*old(ast)),
    ensures
        r == (program_check(*old(ast)) is Pass),
        r ==> program_analysed(*old(ast), *final(ast)),
        r ==> final(terminal_output)@.len() == old(terminal_output)@.len() + 1
            && final(terminal_output)@.last()@ == "Successful semantic analysis."@,
        !r ==> final(terminal_output)@.len() == old(terminal_output)@.len() + 2
            && final(terminal_output)@.last()@ == "Error: Code "@ + int_str(
            if program_check(*old(ast)) is MissingReturn {
                100
            } else {
                200
            },
        ),
        forall|i: int| 0 <= i < old(terminal_output)@.len() ==> final(terminal_output)@[i] == old(terminal_output)@[i],
        !r ==> exists|e: SError|
            #[trigger] error_text(e) == final(terminal_output)@[old(terminal_output)@.len() as int]@ && (no_syntax(e)
                <==> !(program_check(*old(ast)) is MissingReturn)),
{
    match analyse(ast) {
        Ok(()) => {
            terminal_output.push(to_string("Successful semantic analysis."));
            true
        },
        Err(errors) => {
            terminal_output.push(errors.to_string());
            if contains_syntax_errors(&errors) {
                terminal_output.push(exit_code_message(100));
            } else {
                terminal_output.push(exit_code_message(200));
            }
            false
        },
    }
}

/// The line (from 1) of a position among characters.
pub open spec fn line_of(s: Seq<char>, pos: int) -> int
    decreases pos,
{
    if pos <= 0 {
        1
    } else if pos - 1 < s.len() && s[pos - 1] == '\n' {
        line_of(s, pos - 1) + 1
    } else {
        line_of(s, pos - 1)
    }
}

/// The column (from 1) of a position among characters.
pub open spec fn column_of(s: Seq<char>, pos: int) -> int
    decreases pos,
{
    if pos <= 0 {
        1
    } else if pos - 1 < s.len() && s[pos - 1] == '\n' {
        1
    } else {
        column_of(s, pos - 1) + 1
    }
}

/// Longest excerpt of the input shown after a parse error, in characters.
pub const EXCERPT_SIZE: usize = 30;

/// A position, moved back to the end of the input when it lies past it.
pub open spec fn within(s: Seq<char>, pos: int) -> int {
    if pos < s.len() { pos } else { s.len() as int }
}

/// The input from a position on, cut to `EXCERPT_SIZE` characters.
pub open spec fn excerpt(s: Seq<char>, pos: int) -> Seq<char> {
    let start = within(s, pos);
    let end = if start + EXCERPT_SIZE < s.len() { start + EXCERPT_SIZE } else { s.len() as int };
    s.subrange(start, end)
}

/// The report of an error at a position: its line and column, what was
/// expected, and the start of the input from there on.
pub open spec fn error_report(s: Seq<char>, pos: int, message: Seq<char>) -> Seq<char> {
    "line "@ + int_str(line_of(s, within(s, pos))) + ", column "@ + int_str(column_of(s, within(s, pos)))
        + ": "@ + message + " \nStart of error input: "@ + excerpt(s, pos) + "\n"@
}

/// Whether the whole text reads as a program.
pub open spec fn parses(s: Seq<char>) -> bool {
    program_spec(s, 0) matches Some((_, q)) && q == s.len()
}

/// The report of a text that does not read as a program.
pub open spec fn parse_report(s: Seq<char>) -> Seq<char> {
    match program_spec(s, 0) {
        Some((_, q)) => error_report(s, q, "expected end of input"@),
        None => error_report(s, program_failure(s, 0).0, program_failure(s, 0).1),
    }
}

/// The report of a parse error: where it happened, what was expected, and
/// the start of the input from there on.
pub fn parse_error_message(program: &str, err: &ParseError) -> (r: String)
    requires
        program@.len() < usize::MAX,
    ensures
        r@ == error_report(program@, err.position as int, err.message@),
{
    let n = program.unicode_len();
    let mut line: usize = 1;
    let mut column: usize = 1;
    let mut i: usize = 0;
    let stop = if err.position < n {
        err.position
    } else {
        n
    };
    while i < stop
        invariant
            stop <= n,
            n == program@.len(),
            n < usize::MAX,
            i <= stop,
            line == line_of(program@, i as int),
            column == column_of(program@, i as int),
            line <= i + 1,
            column <= i + 1,
        decreases stop - i,
    {
        if program.get_char(i) == '\n' {
            line = line + 1;
            column = 1;
        } else {
            column = column + 1;
        }
        i = i + 1;
    }
    let mut r = to_string("line ");
    text::push_u64(&mut r, line as u64);
    push_str(&mut r, ", column ");
    text::push_u64(&mut r, column as u64);
    push_str(&mut r, ": ");
    push_str(&mut r, err.message.as_str());
    push_str(&mut r, " \nStart of error input: ");
    let end = if n - stop > EXCERPT_SIZE {
        stop + EXCERPT_SIZE
    } else {
        n
    };
    let ghost before = r@;
    let mut j: usize = stop;
    while j < end
        invariant
            stop <= j <= end <= n,
            n == program@.len(),
            r@ == before + program@.subrange(stop as int, j as int),
        decreases end - j,
    {
        text::push_char(&mut r, program.get_char(j));
        proof {
            assert(program@.subrange(stop as int, j + 1) =~= program@.subrange(stop as int, j as int).push(program@[j as int]));
        }
        j = j + 1;
    }
    push_str(&mut r, "\n");
    proof {
        reveal_strlit("line ");
        assert(int_str(line as int) == text::nat_str(line as nat));
        assert(int_str(column as int) == text::nat_str(column as nat));
        assert(excerpt(program@, err.position as int) == program@.subrange(stop as int, end as int));
    }
    r
}

/// What the front end of the compiler makes of a program's text.
pub enum FrontEnd {
    /// The program parsed and passed analysis.
    Analysed(Program),
    /// Parsing or analysis failed; the report says why.
    Failed,
    /// The program's stack frames would not fit in an `i32`.
    TooLarge,
}

/// Parses and analyses a program, reporting each stage as it goes: a parse
/// error adds its report, analysis adds its outcome (and the exit code when
/// it fails), and a program too large for its frames adds nothing.
pub fn front_end(program: &str, terminal_output: &mut Vec<String>) -> (r: FrontEnd)
    requires
        program@.len() < usize::MAX,
    ensures
        forall|i: int| 0 <= i < old(terminal_output)@.len() ==> final(terminal_output)@[i] == old(terminal_output)@[i],
        match r {
            FrontEnd::Analysed(_) => final(terminal_output)@.len() == old(terminal_output)@.len() + 1
                && final(terminal_output)@.last()@ == "Successful semantic analysis."@,
            FrontEnd::Failed => if parses(program@) {
                final(terminal_output)@.len() == old(terminal_output)@.len() + 2
            } else {
                final(terminal_output)@.len() == old(terminal_output)@.len() + 1
                    && final(terminal_output)@.last()@ == parse_report(program@)
            },
            FrontEnd::TooLarge => final(terminal_output)@ == old(terminal_output)@,
        },
        parses(program@) ==> exists|p0: Program|
            #[trigger] program_shape(p0, program_spec(program@, 0).unwrap().0) && fresh_program(p0) && match r {
                FrontEnd::Analysed(p) => program_supported(p0) && program_check(p0) is Pass && program_analysed(p0, p),
                FrontEnd::Failed => program_supported(p0) && !(program_check(p0) is Pass) && (exists|e: SError|
                    #[trigger] error_text(e) == final(terminal_output)@[old(terminal_output)@.len() as int]@ && (no_syntax(e)
                        <==> !(program_check(p0) is MissingReturn))) && final(terminal_output)@.last()@ == "Error: Code "@ + int_str(
                    if program_check(p0) is MissingReturn {
                        100
                    } else {
                        200
                    },
                ),
                FrontEnd::TooLarge => !program_supported(p0),
            },
        !parses(program@) ==> r is Failed,
{
    match parse(program) {
        Err(err) => {
            terminal_output.push(parse_error_message(program, &err));
            FrontEnd::Failed
        },
        Ok(mut ast) => {
            let ghost p0 = ast;
            proof {
                law_parsed_supported(ast);
            }
            if !program_fits(&ast) {
                proof {
                    assert(program_shape(p0, program_spec(program@, 0).unwrap().0));
                }
                return FrontEnd::TooLarge;
            }
            if analyse_with_output(&mut ast, terminal_output) {
                proof {
                    assert(program_shape(p0, program_spec(program@, 0).unwrap().0));
                }
                FrontEnd::Analysed(ast)
            } else {
                proof {
                    assert(program_shape(p0, program_spec(program@, 0).unwrap().0));
                }
                FrontEnd::Failed
            }
        },
    }
}

/// A program as the parser builds it meets what the analyser asks of its
/// tables, types and statements: only the size of its frames can keep the
/// analyser from taking it.
pub proof fn law_parsed_supported(p: Program)
    requires
        fresh_program(p),
    ensures
        table_wf(global_table(p)),
        forall|i: int|
            0 <= i < p.funcs@.len() ==> {
                &&& table_wf((#[trigger] p.funcs@[i]).params_st@)
                &&& table_wf(p.funcs@[i].body_st@)
                &&& all_known(p.funcs@[i].signature.param_types@)
                &&& analyser::stat::stat_supported(p.funcs@[i].body)
            },
        analyser::stat::scoped_supported(p.statement),
{
    assert forall|k: Seq<char>| #[trigger] global_table(p).map.contains_key(k) implies analyser::context::offset_ok(
        global_table(p).map[k],
        global_table(p).size,
    ) by {
        assert(p.symbol_table.table.has_key(k));
    }
    assert forall|i: int| 0 <= i < p.funcs@.len() implies {
        &&& table_wf((#[trigger] p.funcs@[i]).params_st@)
        &&& table_wf(p.funcs@[i].body_st@)
        &&& all_known(p.funcs@[i].signature.param_types@)
        &&& analyser::stat::stat_supported(p.funcs@[i].body)
    } by {
        assert(fresh_func(p.funcs@[i]));
        lemma_fresh_supported(p.funcs@[i].body);
    }
    lemma_fresh_scoped_supported(p.statement);
}

/// The report of compiling a program: the front end's lines, then, when
/// the program passed analysis, "Halted after analysis stage." if only the
/// analysis was asked for, and otherwise that this build has no code
/// generation stage. `None` when the program's frames are too large.
pub fn compile_source(program: &str, analysis_only: bool) -> (r: Option<Vec<String>>)
    requires
        program@.len() < usize::MAX,
    ensures
        r is None ==> parses(program@),
        !parses(program@) ==> (r matches Some(out) && out@.len() == 1 && out@[0]@ == parse_report(program@)),
        parses(program@) ==> exists|p0: Program|
            #[trigger] program_shape(p0, program_spec(program@, 0).unwrap().0) && fresh_program(p0) && match r {
                None => !program_supported(p0),
                Some(out) => program_supported(p0) && if program_check(p0) is Pass {
                    out@.len() == 2 && out@[0]@ == "Successful semantic analysis."@ && out@[1]@ == (if analysis_only {
                        "Halted after analysis stage."@
                    } else {
                        "Error: this build has no code generation stage."@
                    })
                } else {
                    out@.len() == 2 && (exists|e: SError|
                        #[trigger] error_text(e) == out@[0]@ && (no_syntax(e) <==> !(program_check(p0) is MissingReturn)))
                        && out@[1]@ == "Error: Code "@ + int_str(
                        if program_check(p0) is MissingReturn {
                            100
                        } else {
                            200
                        },
                    )
                },
            },
{
    let mut out: Vec<String> = Vec::new();
    let r = front_end(program, &mut out);
    match r {
        FrontEnd::Failed => Some(out),
        FrontEnd::TooLarge => None,
        FrontEnd::Analysed(_) => {
            if analysis_only {
                out.push(to_string("Halted after analysis stage."));
            } else {
                out.push(to_string("Error: this build has no code generation stage."));
            }
            Some(out)
        },
    }
}

} // verus!

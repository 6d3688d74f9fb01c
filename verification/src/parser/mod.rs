use vstd::prelude::*;

pub mod shared;
pub mod type_;
pub mod expr;
pub mod stat;
pub mod program;

use crate::ast::Program;
use program::{fresh_program, program_failure, program_shape, program_spec};

verus! {

/// Where parsing stopped, as a position among the input's characters, and
/// what was expected there.
#[derive(Debug, PartialEq)]
pub struct ParseError {
    pub position: usize,
    pub message: String,
}

/* The characters of the input. */
fn chars_of(input: &str) -> (r: Vec<char>)
    ensures
        r@ == input@,
{
    let n = input.unicode_len();
    let mut out: Vec<char> = Vec::new();
    let mut i: usize = 0;
    while i < n
        invariant
            n == input@.len(),
            i <= n,
            out@ == input@.take(i as int),
        decreases n - i,
    {
        out.push(input.get_char(i));
        proof {
            assert(out@ =~= input@.take(i + 1));
        }
        i = i + 1;
    }
    proof {
        assert(input@.take(n as int) =~= input@);
    }
    out
}

/// Parses a whole program: white space and comments, 'begin', the struct
/// definitions, the functions, the main statement, 'end', and nothing
/// after. The program built has blank symbol tables, ready for analysis.
pub fn parse(input: &str) -> (r: Result<Program, ParseError>)
    ensures
        r matches Ok(p) ==> fresh_program(p),
        match program_spec(input@, 0) {
            Some((sp, q)) => if q == input@.len() {
                r matches Ok(prog) && program_shape(prog, sp)
            } else {
                r matches Err(e) && e.position == q && e.message@ == "expected end of input"@
            },
            None => r matches Err(e) && e.position == program_failure(input@, 0).0 && e.message@ == program_failure(
                input@,
                0,
            ).1,
        },
{
    let s = chars_of(input);
    match program::program_or_error(&s, 0) {
        Ok((p, q)) => {
            if q == s.len() {
                Ok(p)
            } else {
                Err(ParseError { position: q, message: crate::text::to_string("expected end of input") })
            }
        },
        Err(e) => Err(e),
    }
}

} // verus!

use vstd::prelude::*;

pub mod arm;
pub mod predef;
pub mod display;
pub mod scope;
pub mod allocate;
pub mod cfg;
pub mod linear;

use crate::text::{push_str, to_string};

verus! {

/// The label of a named function: its name after "f_".
pub fn generate_function_name(function_name: &str) -> (r: String)
    ensures
        r@ == "f_"@ + function_name@,
{
    let mut r = to_string("f_");
    push_str(&mut r, function_name);
    proof {
        reveal_strlit("f_");
    }
    r
}

/// The label of an anonymous function: its name after "af_".
pub fn generate_anon_func_name(func_name: &str) -> (r: String)
    ensures
        r@ == "af_"@ + func_name@,
{
    let mut r = to_string("af_");
    push_str(&mut r, func_name);
    proof {
        reveal_strlit("af_");
    }
    r
}

} // verus!

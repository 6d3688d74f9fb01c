use vstd::prelude::*;

use super::shared::{ident, ident_spec, key, key_spec, lemma_ws_end, tok, tok_spec, ws_end};
use crate::ast::{lemma_types_view_push, types_view, FuncSig, SType, Type};

verus! {

/// A type the parser can give: never the unknown type, which only stands
/// for the element types of an untyped pair.
pub open spec fn parsed_type(t: Type) -> bool {
    !(t is Any)
}

/* ======== The grammar of types ======== */

/// What `base_type` reads: one of the base type keywords.
pub open spec fn base_type_spec(s: Seq<char>, p: int) -> Option<(SType, int)> {
    if let Some(q) = key_spec(s, p, "int"@) {
        Some((SType::Int, q))
    } else if let Some(q) = key_spec(s, p, "bool"@) {
        Some((SType::Bool, q))
    } else if let Some(q) = key_spec(s, p, "char"@) {
        Some((SType::Char, q))
    } else if let Some(q) = key_spec(s, p, "string"@) {
        Some((SType::Str, q))
    } else {
        None
    }
}

/// The type `t` nested in an array once for each '[' ']' at `p`, and the
/// position after them.
pub open spec fn arrays_spec(s: Seq<char>, p: int, t: SType) -> (SType, int)
    decreases s.len() - p,
{
    if 0 <= p <= s.len() {
        match tok_spec(s, p, "["@) {
            Some(q1) => match tok_spec(s, q1, "]"@) {
                Some(q2) => if p < q2 <= s.len() {
                    arrays_spec(s, q2, SType::Array(Box::new(t)))
                } else {
                    (t, p)
                },
                None => (t, p),
            },
            None => (t, p),
        }
    } else {
        (t, p)
    }
}

/// What `type_` reads: a base type, a pair type or a named type, then
/// any number of '[' ']'.
pub open spec fn type_spec(s: Seq<char>, p: int) -> Option<(SType, int)>
    decreases s.len() - p, 2nat,
{
    let head = match base_type_spec(s, p) {
        Some(r) => Some(r),
        None => match pair_type_spec(s, p) {
            Some(r) => Some(r),
            None => match ident_spec(s, p) {
                Some((id, q)) => Some((SType::Custom(id), q)),
                None => None,
            },
        },
    };
    match head {
        Some((t, q)) => Some(arrays_spec(s, q, t)),
        None => None,
    }
}

/// What `pair_type` reads: 'pair' '(' <pair-elem-type> ',' <pair-elem-type> ')'.
pub open spec fn pair_type_spec(s: Seq<char>, p: int) -> Option<(SType, int)>
    decreases s.len() - p, 1nat,
{
    match tok_spec(s, p, "pair"@) {
        None => None,
        Some(q) => match tok_spec(s, q, "("@) {
            None => None,
            Some(q1) => if p < q1 <= s.len() {
                match pair_elem_type_spec(s, q1) {
                    None => None,
                    Some((l, q2)) => match tok_spec(s, q2, ","@) {
                        None => None,
                        Some(q3) => if p < q3 <= s.len() {
                            match pair_elem_type_spec(s, q3) {
                                None => None,
                                Some((r, q4)) => match tok_spec(s, q4, ")"@) {
                                    None => None,
                                    Some(q5) => Some((SType::Pair(Box::new(l), Box::new(r)), q5)),
                                },
                            }
                        } else {
                            None
                        },
                    },
                }
            } else {
                None
            },
        },
    }
}

/// What `pair_elem_type` reads: a type that is no pair with element types,
/// or 'pair' alone, which stands for a pair of unknown element types.
pub open spec fn pair_elem_type_spec(s: Seq<char>, p: int) -> Option<(SType, int)>
    decreases s.len() - p, 3nat,
{
    match type_spec(s, p) {
        Some((t, q)) => if t is Pair {
            None
        } else {
            Some((t, q))
        },
        None => match tok_spec(s, p, "pair"@) {
            Some(q) => Some((SType::Pair(Box::new(SType::Any), Box::new(SType::Any)), q)),
            None => None,
        },
    }
}

/// An exec result of a type parser is its spec result.
pub open spec fn type_result(r: Option<(Type, usize)>, sp: Option<(SType, int)>) -> bool {
    match sp {
        Some((t, q)) => r matches Some((rt, rq)) && rt@ == t && rq == q,
        None => r is None,
    }
}

/* base-type ::= 'int' | 'bool' | 'char' | 'string' */
pub fn base_type(s: &Vec<char>, p: usize) -> (r: Option<(Type, usize)>)
    requires
        p <= s@.len(),
    ensures
        r matches Some((t, q)) ==> p < q <= s@.len() && (t is Int || t is Bool || t is Char || t is String),
        type_result(r, base_type_spec(s@, p as int)),
{
    if let Some(q) = key(s, p, "int") {
        proof {
            reveal_strlit("int");
        }
        return Some((Type::Int, q));
    }
    if let Some(q) = key(s, p, "bool") {
        proof {
            reveal_strlit("bool");
        }
        return Some((Type::Bool, q));
    }
    if let Some(q) = key(s, p, "char") {
        proof {
            reveal_strlit("char");
        }
        return Some((Type::Char, q));
    }
    if let Some(q) = key(s, p, "string") {
        proof {
            reveal_strlit("string");
        }
        return Some((Type::String, q));
    }
    None
}

/* type ::= (<base-type> | 'pair' '(' <pair-elem-type> ',' <pair-elem-type> ')'
| <ident>) ('[' ']')* */
pub fn type_(s: &Vec<char>, p: usize) -> (r: Option<(Type, usize)>)
    requires
        p <= s@.len(),
    ensures
        r matches Some((t, q)) ==> p < q <= s@.len() && parsed_type(t),
        type_result(r, type_spec(s@, p as int)),
    decreases s@.len() - p, 2nat,
{
    /* Parses everything apart from the trailing array notes. */
    let ghost head = match base_type_spec(s@, p as int) {
        Some(r) => Some(r),
        None => match pair_type_spec(s@, p as int) {
            Some(r) => Some(r),
            None => match ident_spec(s@, p as int) {
                Some((id, q)) => Some((SType::Custom(id), q)),
                None => None,
            },
        },
    };
    let (mut t, mut q) = match base_type(s, p) {
        Some(r) => r,
        None => match pair_type(s, p) {
            Some(r) => r,
            None => match ident(s, p) {
                Some((id, q)) => (Type::Custom(id), q),
                None => {
                    assert(head is None);
                    assert(type_spec(s@, p as int) is None);
                    return None;
                },
            },
        },
    };
    assert(head == Some((t@, q as int)));
    /* Each trailing '[]' nests the type in an array. */
    let ghost head_t = t@;
    let ghost head_q = q as int;
    loop
        invariant
            p < q <= s@.len(),
            parsed_type(t),
            arrays_spec(s@, head_q, head_t) == arrays_spec(s@, q as int, t@),
        ensures
            p < q <= s@.len(),
            parsed_type(t),
            arrays_spec(s@, head_q, head_t) == (t@, q as int),
        decreases s@.len() - q,
    {
        match tok(s, q, "[") {
            Some(q1) => match tok(s, q1, "]") {
                Some(q2) => {
                    proof {
                        reveal_strlit("[");
                        reveal_strlit("]");
                    }
                    let ghost t0 = t@;
                    t = Type::Array(Box::new(t));
                    assert(t@ == SType::Array(Box::new(t0)));
                    q = q2;
                },
                None => {
                    assert(arrays_spec(s@, q as int, t@) == (t@, q as int));
                    break;
                },
            },
            None => {
                assert(arrays_spec(s@, q as int, t@) == (t@, q as int));
                break;
            },
        }
    }
    assert(type_spec(s@, p as int) == Some(arrays_spec(s@, head_q, head_t)));
    Some((t, q))
}

/* 'pair' '(' <pair-elem-type> ',' <pair-elem-type> ')' */
fn pair_type(s: &Vec<char>, p: usize) -> (r: Option<(Type, usize)>)
    requires
        p <= s@.len(),
    ensures
        r matches Some((t, q)) ==> p < q <= s@.len() && t is Pair,
        type_result(r, pair_type_spec(s@, p as int)),
    decreases s@.len() - p, 1nat,
{
    let q = tok(s, p, "pair")?;
    proof {
        reveal_strlit("pair");
    }
    let q = tok(s, q, "(")?;
    let (l, q) = pair_elem_type(s, q)?;
    let q = tok(s, q, ",")?;
    let (r, q) = pair_elem_type(s, q)?;
    let q = tok(s, q, ")")?;
    Some((Type::Pair(Box::new(l), Box::new(r)), q))
}

/* pair-elem-type ::= <base-type> | <array-type> | 'pair' */
pub fn pair_elem_type(s: &Vec<char>, p: usize) -> (r: Option<(Type, usize)>)
    requires
        p <= s@.len(),
    ensures
        r matches Some((t, q)) ==> p < q <= s@.len(),
        type_result(r, pair_elem_type_spec(s@, p as int)),
    decreases s@.len() - p, 3nat,
{
    match type_(s, p) {
        /* A pair with element types cannot be an element of a pair. */
        Some((Type::Pair(a, b), q)) => {
            assert(Type::Pair(a, b)@ is Pair);
            assert(pair_elem_type_spec(s@, p as int) is None);
            None
        },
        Some(r) => {
            assert(!(r.0@ is Pair));
            assert(pair_elem_type_spec(s@, p as int) == Some((r.0@, r.1 as int)));
            Some(r)
        },
        /* But an untyped pair can. */
        None => {
            let q = match tok(s, p, "pair") {
                Some(q) => q,
                None => {
                    assert(pair_elem_type_spec(s@, p as int) is None);
                    return None;
                },
            };
            proof {
                reveal_strlit("pair");
            }
            let t = Type::Pair(Box::new(Type::Any), Box::new(Type::Any));
            assert(Type::Any@ == SType::Any);
            assert(t@ == SType::Pair(Box::new(SType::Any), Box::new(SType::Any)));
            assert(pair_elem_type_spec(s@, p as int) == Some((t@, q as int)));
            Some((t, q))
        },
    }
}

/// The types after the first of a list, each after ',', as long as both
/// read; appended to `acc`.
pub open spec fn more_types_spec(s: Seq<char>, p: int, acc: Seq<SType>) -> (Seq<SType>, int)
    decreases s.len() - p,
{
    match tok_spec(s, p, ","@) {
        Some(q1) => match type_spec(s, q1) {
            Some((t, q2)) => if p < q2 <= s.len() {
                more_types_spec(s, q2, acc.push(t))
            } else {
                (acc, p)
            },
            None => (acc, p),
        },
        None => (acc, p),
    }
}

/// What `type_list` reads: a comma separated list of types, possibly empty.
pub open spec fn type_list_spec(s: Seq<char>, p: int) -> (Seq<SType>, int) {
    match type_spec(s, p) {
        Some((t, q)) => more_types_spec(s, q, seq![t]),
        None => (Seq::empty(), p),
    }
}

/// What `func_type` reads: <type> '(' <type-list> ')', a function type.
pub open spec fn func_type_spec(s: Seq<char>, p: int) -> Option<(SType, int)> {
    match type_spec(s, p) {
        None => None,
        Some((rt, q)) => match tok_spec(s, q, "("@) {
            None => None,
            Some(q1) => {
                let (ps, q2) = type_list_spec(s, q1);
                match tok_spec(s, q2, ")"@) {
                    None => None,
                    Some(q3) => Some((SType::Func(ps, Box::new(rt)), q3)),
                }
            },
        },
    }
}

/* The types of a comma separated list, possibly empty. */
pub fn type_list(s: &Vec<char>, p: usize) -> (r: (Vec<Type>, usize))
    requires
        p <= s@.len(),
    ensures
        p <= r.1 <= s@.len(),
        forall|i: int| 0 <= i < r.0@.len() ==> parsed_type(#[trigger] r.0@[i]),
        (types_view(r.0@), r.1 as int) == type_list_spec(s@, p as int),
{
    let mut ts: Vec<Type> = Vec::new();
    let (t0, mut q) = match type_(s, p) {
        Some(r) => r,
        None => {
            proof {
                assert(types_view(ts@) =~= Seq::<SType>::empty());
            }
            return (ts, p);
        },
    };
    proof {
        lemma_types_view_push(ts@, t0);
        assert(types_view(ts@) =~= Seq::<SType>::empty());
        assert(seq![t0@] =~= Seq::<SType>::empty().push(t0@));
    }
    ts.push(t0);
    loop
        invariant
            p < q <= s@.len(),
            forall|i: int| 0 <= i < ts@.len() ==> parsed_type(#[trigger] ts@[i]),
            type_list_spec(s@, p as int) == more_types_spec(s@, q as int, types_view(ts@)),
        ensures
            p < q <= s@.len(),
            forall|i: int| 0 <= i < ts@.len() ==> parsed_type(#[trigger] ts@[i]),
            type_list_spec(s@, p as int) == (types_view(ts@), q as int),
        decreases s@.len() - q,
    {
        proof {
            reveal_strlit(",");
        }
        match tok(s, q, ",") {
            Some(q1) => match type_(s, q1) {
                Some((t, q2)) => {
                    proof {
                        lemma_types_view_push(ts@, t);
                    }
                    ts.push(t);
                    q = q2;
                },
                None => {
                    break;
                },
            },
            None => {
                break;
            },
        }
    }
    (ts, q)
}

/* func-type ::= <type> '(' <type>, ... ')' */
pub fn func_type(s: &Vec<char>, p: usize) -> (r: Option<(Type, usize)>)
    requires
        p <= s@.len(),
    ensures
        r matches Some((t, q)) ==> p < q <= s@.len() && t is Func,
        type_result(r, func_type_spec(s@, p as int)),
{
    proof {
        reveal_strlit("(");
        reveal_strlit(")");
    }
    let (return_type, q) = type_(s, p)?;
    let q = tok(s, q, "(")?;
    let (param_types, q) = type_list(s, q);
    let q = tok(s, q, ")")?;
    Some((Type::Func(Box::new(FuncSig { param_types, return_type })), q))
}

} // verus!

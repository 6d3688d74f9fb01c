use vstd::prelude::*;

use super::expr::{array_elem, array_elem_spec, expr, expr_result, expr_spec};
use super::shared::{ident, ident_spec, key, tok, tok_spec};
use super::type_::{parsed_type, type_, type_spec};
use crate::analyser::context::{table_wf, SymbolTable};
use crate::analyser::stat::{scoped_supported, stat_supported};
use crate::ast::{lemma_exprs_view_push, pair_elem_shape, 
    exprs_view, lhs_shape, stat_shape, ArrayLiter, AssignLhs, AssignRhs, Expr, PairElem, SExpr, SLhs, SStat, SType,
    ScopedStat, Stat, Type, TypedExpr,
};

verus! {

/// A statement as the parser builds it: its scopes carry blank tables, and
/// it declares no variable of the unknown type.
pub open spec fn fresh_stat(s: Stat) -> bool
    decreases s,
{
    match s {
        Stat::Declaration(t, _, _) => parsed_type(t),
        Stat::Sequence(a, b) => fresh_stat(*a) && fresh_stat(*b),
        Stat::If(_, x, y) => fresh_scoped(x) && fresh_scoped(y),
        Stat::While(_, b) => fresh_scoped(b),
        Stat::Scope(b) => fresh_scoped(b),
        Stat::For(..) => false,
        _ => true,
    }
}

pub open spec fn fresh_scoped(ss: ScopedStat) -> bool
    decreases ss,
{
    ss.0.is_blank() && fresh_stat(*ss.1)
}

/// The analyser handles every statement the parser builds.
pub proof fn lemma_fresh_supported(s: Stat)
    requires
        fresh_stat(s),
    ensures
        stat_supported(s),
    decreases s,
{
    match s {
        Stat::Sequence(a, b) => {
            lemma_fresh_supported(*a);
            lemma_fresh_supported(*b);
        },
        Stat::If(_, x, y) => {
            lemma_fresh_scoped_supported(x);
            lemma_fresh_scoped_supported(y);
        },
        Stat::While(_, b) => lemma_fresh_scoped_supported(b),
        Stat::Scope(b) => lemma_fresh_scoped_supported(b),
        _ => {},
    }
}

pub proof fn lemma_fresh_scoped_supported(ss: ScopedStat)
    requires
        fresh_scoped(ss),
    ensures
        scoped_supported(ss),
    decreases ss,
{
    assert(table_wf(ss.0@));
    lemma_fresh_supported(*ss.1);
}

/* ======== The grammar of statements ======== */

/// The expressions after the first of a list: each ',' <expr>, as long as
/// both read.
pub open spec fn more_exprs_spec(s: Seq<char>, p: int) -> (Seq<SExpr>, int)
    decreases s.len() - p,
{
    match tok_spec(s, p, ","@) {
        Some(q1) => match expr_spec(s, q1) {
            Some((e, q2)) => if p < q2 <= s.len() {
                let (rest, q3) = more_exprs_spec(s, q2);
                (seq![e] + rest, q3)
            } else {
                (Seq::empty(), p)
            },
            None => (Seq::empty(), p),
        },
        None => (Seq::empty(), p),
    }
}

/// A comma separated list of expressions, possibly empty.
pub open spec fn expr_list_spec(s: Seq<char>, p: int) -> (Seq<SExpr>, int) {
    match expr_spec(s, p) {
        Some((e, q)) => {
            let (rest, q2) = more_exprs_spec(s, q);
            (seq![e] + rest, q2)
        },
        None => (Seq::empty(), p),
    }
}

/// An expression after a keyword.
pub open spec fn keyword_expr_spec(s: Seq<char>, p: int, w: Seq<char>) -> Option<(SExpr, int)> {
    match tok_spec(s, p, w) {
        Some(q) => expr_spec(s, q),
        None => None,
    }
}

/// A pair element: 'fst' or 'snd' and an expression; whether it is the
/// first element, and the expression.
pub open spec fn pair_elem_spec(s: Seq<char>, p: int) -> Option<((bool, SExpr), int)> {
    match keyword_expr_spec(s, p, "fst"@) {
        Some((e, q)) => Some(((true, e), q)),
        None => match keyword_expr_spec(s, p, "snd"@) {
            Some((e, q)) => Some(((false, e), q)),
            None => None,
        },
    }
}

/// The left hand side of an assignment.
pub open spec fn assign_lhs_spec(s: Seq<char>, p: int) -> Option<(SLhs, int)> {
    if let Some(((first, e), q)) = pair_elem_spec(s, p) {
        Some((SLhs::PairElem(first, SType::Any, e), q))
    } else if let Some((ae, q)) = array_elem_spec(s, p) {
        match ae {
            SExpr::ArrayElem(id, idx) => Some((SLhs::ArrayElem(id, idx), q)),
            _ => None,
        }
    } else if let Some((id, q)) = ident_spec(s, p) {
        Some((SLhs::Ident(id), q))
    } else {
        None
    }
}

/// A call: 'call' <ident> '(' <expr-list> ')'.
pub open spec fn call_spec(s: Seq<char>, p: int) -> Option<(SExpr, int)> {
    match tok_spec(s, p, "call"@) {
        None => None,
        Some(q) => match ident_spec(s, q) {
            None => None,
            Some((id, q1)) => match tok_spec(s, q1, "("@) {
                None => None,
                Some(q2) => {
                    let (args, q3) = expr_list_spec(s, q2);
                    match tok_spec(s, q3, ")"@) {
                        None => None,
                        Some(q4) => Some((SExpr::Call(SType::Any, Box::new(SExpr::Ident(id)), args), q4)),
                    }
                },
            },
        },
    }
}

/// A new pair: 'newpair' '(' <expr> ',' <expr> ')'.
pub open spec fn newpair_spec(s: Seq<char>, p: int) -> Option<(SExpr, int)> {
    match tok_spec(s, p, "newpair"@) {
        None => None,
        Some(q) => match tok_spec(s, q, "("@) {
            None => None,
            Some(q1) => match expr_spec(s, q1) {
                None => None,
                Some((e1, q2)) => match tok_spec(s, q2, ","@) {
                    None => None,
                    Some(q3) => match expr_spec(s, q3) {
                        None => None,
                        Some((e2, q4)) => match tok_spec(s, q4, ")"@) {
                            None => None,
                            Some(q5) => Some(
                                (SExpr::PairLiter(SType::Any, Box::new(e1), SType::Any, Box::new(e2)), q5),
                            ),
                        },
                    },
                },
            },
        },
    }
}

/// The right hand side of an assignment: a call, a new pair, a pair
/// element, an expression or an array literal; the first that reads.
pub open spec fn assign_rhs_spec(s: Seq<char>, p: int) -> Option<(SExpr, int)> {
    if let Some(r) = call_spec(s, p) {
        Some(r)
    } else if let Some(r) = newpair_spec(s, p) {
        Some(r)
    } else if let Some(((first, e), q)) = pair_elem_spec(s, p) {
        Some((SExpr::PairElem(first, SType::Any, Box::new(e)), q))
    } else if let Some(r) = expr_spec(s, p) {
        Some(r)
    } else {
        match tok_spec(s, p, "["@) {
            None => None,
            Some(q) => {
                let (es, q1) = expr_list_spec(s, q);
                match tok_spec(s, q1, "]"@) {
                    None => None,
                    Some(q2) => Some((SExpr::ArrayLiter(SType::Any, es), q2)),
                }
            },
        }
    }
}

/// A declaration: <type> <ident> '=' <assign-rhs>.
pub open spec fn declaration_spec(s: Seq<char>, p: int) -> Option<(SStat, int)> {
    match type_spec(s, p) {
        None => None,
        Some((t, q)) => match ident_spec(s, q) {
            None => None,
            Some((id, q1)) => match tok_spec(s, q1, "="@) {
                None => None,
                Some(q2) => match assign_rhs_spec(s, q2) {
                    None => None,
                    Some((e, q3)) => Some((SStat::Declaration(t, id, e), q3)),
                },
            },
        },
    }
}

/// An assignment: <assign-lhs> '=' <assign-rhs>.
pub open spec fn assignment_spec(s: Seq<char>, p: int) -> Option<(SStat, int)> {
    match assign_lhs_spec(s, p) {
        None => None,
        Some((l, q)) => match tok_spec(s, q, "="@) {
            None => None,
            Some(q1) => match assign_rhs_spec(s, q1) {
                None => None,
                Some((e, q2)) => Some((SStat::Assignment(l, SType::Any, e), q2)),
            },
        },
    }
}

/// A statement: one unit, then ';' and the rest when they read.
pub open spec fn stat_spec(s: Seq<char>, p: int) -> Option<(SStat, int)>
    decreases s.len() - p, 2nat,
{
    match stat_unit_spec(s, p) {
        None => None,
        Some((first, q)) => match tok_spec(s, q, ";"@) {
            Some(q1) => if p < q1 <= s.len() {
                match stat_spec(s, q1) {
                    Some((rest, q2)) => Some((SStat::Sequence(Box::new(first), Box::new(rest)), q2)),
                    None => Some((first, q)),
                }
            } else {
                Some((first, q))
            },
            None => Some((first, q)),
        },
    }
}

/// One statement without ';': the first form that reads.
pub open spec fn stat_unit_spec(s: Seq<char>, p: int) -> Option<(SStat, int)>
    decreases s.len() - p, 1nat,
{
    if let Some(q) = tok_spec(s, p, "skip"@) {
        Some((SStat::Skip, q))
    } else if let Some(r) = declaration_spec(s, p) {
        Some(r)
    } else if let Some(r) = assignment_spec(s, p) {
        Some(r)
    } else if let Some((l, q)) = (match tok_spec(s, p, "read"@) {
        Some(q) => assign_lhs_spec(s, q),
        None => None,
    }) {
        Some((SStat::Read(SType::Any, l), q))
    } else if let Some((e, q)) = keyword_expr_spec(s, p, "free"@) {
        Some((SStat::Free(SType::Any, e), q))
    } else if let Some((e, q)) = keyword_expr_spec(s, p, "return"@) {
        Some((SStat::Return(e), q))
    } else if let Some((e, q)) = keyword_expr_spec(s, p, "exit"@) {
        Some((SStat::Exit(e), q))
    } else if let Some((e, q)) = keyword_expr_spec(s, p, "println"@) {
        Some((SStat::Println(SType::Any, e), q))
    } else if let Some((e, q)) = keyword_expr_spec(s, p, "print"@) {
        Some((SStat::Print(SType::Any, e), q))
    } else if let Some(r) = if_spec(s, p) {
        Some(r)
    } else if let Some(r) = while_spec(s, p) {
        Some(r)
    } else {
        begin_spec(s, p)
    }
}

/// 'if' <expr> 'then' <stat> 'else' <stat> 'fi'.
pub open spec fn if_spec(s: Seq<char>, p: int) -> Option<(SStat, int)>
    decreases s.len() - p, 0nat,
{
    match keyword_expr_spec(s, p, "if"@) {
        None => None,
        Some((c, q)) => match tok_spec(s, q, "then"@) {
            None => None,
            Some(q1) => if p < q1 <= s.len() {
                match stat_spec(s, q1) {
                    None => None,
                    Some((x, q2)) => match tok_spec(s, q2, "else"@) {
                        None => None,
                        Some(q3) => if p < q3 <= s.len() {
                            match stat_spec(s, q3) {
                                None => None,
                                Some((y, q4)) => match tok_spec(s, q4, "fi"@) {
                                    None => None,
                                    Some(q5) => Some((SStat::If(c, Box::new(x), Box::new(y)), q5)),
                                },
                            }
                        } else {
                            None
                        },
                    },
                }
            } else {
                None
            },
        },
    }
}

/// 'while' <expr> 'do' <stat> 'done'.
pub open spec fn while_spec(s: Seq<char>, p: int) -> Option<(SStat, int)>
    decreases s.len() - p, 0nat,
{
    match keyword_expr_spec(s, p, "while"@) {
        None => None,
        Some((c, q)) => match tok_spec(s, q, "do"@) {
            None => None,
            Some(q1) => if p < q1 <= s.len() {
                match stat_spec(s, q1) {
                    None => None,
                    Some((b, q2)) => match tok_spec(s, q2, "done"@) {
                        None => None,
                        Some(q3) => Some((SStat::While(c, Box::new(b)), q3)),
                    },
                }
            } else {
                None
            },
        },
    }
}

/// 'begin' <stat> 'end'.
pub open spec fn begin_spec(s: Seq<char>, p: int) -> Option<(SStat, int)>
    decreases s.len() - p, 0nat,
{
    match tok_spec(s, p, "begin"@) {
        None => None,
        Some(q) => if p < q <= s.len() {
            match stat_spec(s, q) {
                None => None,
                Some((b, q1)) => match tok_spec(s, q1, "end"@) {
                    None => None,
                    Some(q2) => Some((SStat::Scope(Box::new(b)), q2)),
                },
            }
        } else {
            None
        },
    }
}

/// An exec result of a statement parser is its spec result.
pub open spec fn stat_result(r: Option<(Stat, usize)>, sp: Option<(SStat, int)>) -> bool {
    match sp {
        Some((st, q)) => r matches Some((rs, rq)) && stat_shape(rs) == st && rq == q,
        None => r is None,
    }
}

/* A comma separated list of expressions, possibly empty. */
pub fn expr_list(s: &Vec<char>, p: usize) -> (r: (Vec<Expr>, usize))
    requires
        p <= s@.len(),
    ensures
        p <= r.1 <= s@.len(),
        (exprs_view(r.0@), r.1 as int) == expr_list_spec(s@, p as int),
{
    let mut es: Vec<Expr> = Vec::new();
    let (e0, mut q) = match expr(s, p) {
        Some(r) => r,
        None => {
            proof {
                assert(exprs_view(es@) =~= Seq::<SExpr>::empty());
            }
            return (es, p);
        },
    };
    let ghost first = e0@;
    let ghost q_more = q as int;
    proof {
        lemma_exprs_view_push(es@, e0);
        assert(exprs_view(es@) =~= Seq::<SExpr>::empty());
    }
    es.push(e0);
    proof {
        assert(exprs_view(es@).skip(1) + more_exprs_spec(s@, q as int).0 =~= more_exprs_spec(s@, q as int).0);
    }
    loop
        invariant
            p < q_more <= q <= s@.len(),
            expr_list_spec(s@, p as int) == (seq![first] + more_exprs_spec(s@, q_more).0, more_exprs_spec(s@, q_more).1),
            es@.len() >= 1,
            exprs_view(es@)[0] == first,
            more_exprs_spec(s@, q_more) == (exprs_view(es@).skip(1) + more_exprs_spec(s@, q as int).0, more_exprs_spec(
                s@,
                q as int,
            ).1),
        ensures
            p < q <= s@.len(),
            es@.len() >= 1,
            exprs_view(es@)[0] == first,
            expr_list_spec(s@, p as int) == (seq![first] + more_exprs_spec(s@, q_more).0, more_exprs_spec(s@, q_more).1),
            more_exprs_spec(s@, q_more) == (exprs_view(es@).skip(1), q as int),
        decreases s@.len() - q,
    {
        proof {
            reveal_strlit(",");
        }
        match tok(s, q, ",") {
            Some(q1) => match expr(s, q1) {
                Some((e, q2)) => {
                    let ghost ev0 = exprs_view(es@);
                    let ghost ee = e@;
                    proof {
                        lemma_exprs_view_push(es@, e);
                    }
                    es.push(e);
                    proof {
                        assert(more_exprs_spec(s@, q as int) == (seq![ee] + more_exprs_spec(s@, q2 as int).0, more_exprs_spec(
                            s@,
                            q2 as int,
                        ).1));
                        assert(ev0.skip(1) + (seq![ee] + more_exprs_spec(s@, q2 as int).0) =~= exprs_view(es@).skip(1)
                            + more_exprs_spec(s@, q2 as int).0);
                        assert(exprs_view(es@)[0] == ev0[0]);
                    }
                    q = q2;
                },
                None => {
                    proof {
                        assert(exprs_view(es@).skip(1) + Seq::<SExpr>::empty() =~= exprs_view(es@).skip(1));
                    }
                    break;
                },
            },
            None => {
                proof {
                    assert(exprs_view(es@).skip(1) + Seq::<SExpr>::empty() =~= exprs_view(es@).skip(1));
                }
                break;
            },
        }
    }
    proof {
        assert(exprs_view(es@) =~= seq![first] + exprs_view(es@).skip(1));
    }
    (es, q)
}

/* pair-elem ::= 'fst' <expr> | 'snd' <expr> */
pub fn pair_elem(s: &Vec<char>, p: usize) -> (r: Option<(PairElem, usize)>)
    requires
        p <= s@.len(),
    ensures
        r matches Some((_, q)) ==> p < q <= s@.len(),
        match pair_elem_spec(s@, p as int) {
            Some(((first, e), q)) => r matches Some((pe, rq)) && pair_elem_shape(pe) == (first, SType::Any, e) && rq
                == q,
            None => r is None,
        },
{
    proof {
        reveal_strlit("fst");
        reveal_strlit("snd");
    }
    if let Some((e, q2)) = keyword_expr(s, p, "fst") {
        let pe = PairElem::Fst(TypedExpr::new(e));
        assert(Type::Any@ == SType::Any);
        return Some((pe, q2));
    }
    let (e, q2) = match keyword_expr(s, p, "snd") {
        Some(r) => r,
        None => {
            return None;
        },
    };
    assert(Type::Any@ == SType::Any);
    Some((PairElem::Snd(TypedExpr::new(e)), q2))
}

/* assign-lhs ::= <pair-elem> | <array-elem> | <ident> */
pub fn assign_lhs(s: &Vec<char>, p: usize) -> (r: Option<(AssignLhs, usize)>)
    requires
        p <= s@.len(),
    ensures
        r matches Some((_, q)) ==> p < q <= s@.len(),
        match assign_lhs_spec(s@, p as int) {
            Some((l, q)) => r matches Some((rl, rq)) && lhs_shape(rl) == l && rq == q,
            None => r is None,
        },
{
    if let Some((pe, q)) = pair_elem(s, p) {
        return Some((AssignLhs::PairElem(pe), q));
    }
    if let Some((ae, q)) = array_elem(s, p) {
        return Some((AssignLhs::ArrayElem(ae), q));
    }
    let (id, q) = match ident(s, p) {
        Some(r) => r,
        None => {
            return None;
        },
    };
    Some((AssignLhs::Ident(id), q))
}

/* assign-rhs ::= 'call' <ident> '(' <arg-list>? ')'
| 'newpair' '(' <expr> ',' <expr> ')' | <pair-elem> | <expr> | <array-liter> */
pub fn assign_rhs(s: &Vec<char>, p: usize) -> (r: Option<(Expr, usize)>)
    requires
        p <= s@.len(),
    ensures
        r matches Some((_, q)) ==> p < q <= s@.len(),
        expr_result(r, assign_rhs_spec(s@, p as int)),
{
    proof {
        reveal_strlit("[");
        reveal_strlit("]");
    }
    if let Some(r) = call(s, p) {
        return Some(r);
    }
    if let Some(r) = newpair(s, p) {
        return Some(r);
    }
    if let Some((pe, q)) = pair_elem(s, p) {
        let e = Expr::PairElem(Box::new(pe));
        assert(e@ == SExpr::PairElem(pair_elem_shape(pe).0, pair_elem_shape(pe).1, Box::new(pair_elem_shape(pe).2)));
        return Some((e, q));
    }
    if let Some(r) = expr(s, p) {
        return Some(r);
    }
    /* array-liter ::= '[' (<expr> (',' <expr>)*)? ']' */
    let q = match tok(s, p, "[") {
        Some(q) => q,
        None => {
            return None;
        },
    };
    let (es, q) = expr_list(s, q);
    let q = match tok(s, q, "]") {
        Some(q) => q,
        None => {
            return None;
        },
    };
    let e = Expr::ArrayLiter(ArrayLiter(Type::Any, es));
    assert(Type::Any@ == SType::Any);
    assert(e@ == SExpr::ArrayLiter(SType::Any, exprs_view(es@)));
    Some((e, q))
}

fn call(s: &Vec<char>, p: usize) -> (r: Option<(Expr, usize)>)
    requires
        p <= s@.len(),
    ensures
        r matches Some((_, q)) ==> p < q <= s@.len(),
        expr_result(r, call_spec(s@, p as int)),
{
    proof {
        reveal_strlit("call");
        reveal_strlit("(");
        reveal_strlit(")");
    }
    let q = match tok(s, p, "call") {
        Some(q) => q,
        None => {
            return None;
        },
    };
    let (id, q) = match ident(s, q) {
        Some(r) => r,
        None => {
            return None;
        },
    };
    let q = match tok(s, q, "(") {
        Some(q) => q,
        None => {
            return None;
        },
    };
    let (args, q) = expr_list(s, q);
    let q = match tok(s, q, ")") {
        Some(q) => q,
        None => {
            return None;
        },
    };
    let f = Expr::Ident(id);
    let e = Expr::Call(Type::Any, Box::new(f), args);
    assert(Type::Any@ == SType::Any);
    assert(e@ == SExpr::Call(SType::Any, Box::new(f@), exprs_view(args@)));
    Some((e, q))
}

fn newpair(s: &Vec<char>, p: usize) -> (r: Option<(Expr, usize)>)
    requires
        p <= s@.len(),
    ensures
        r matches Some((_, q)) ==> p < q <= s@.len(),
        expr_result(r, newpair_spec(s@, p as int)),
{
    proof {
        reveal_strlit("newpair");
        reveal_strlit("(");
        reveal_strlit(")");
        reveal_strlit(",");
    }
    let q = match tok(s, p, "newpair") {
        Some(q) => q,
        None => {
            return None;
        },
    };
    let q = match tok(s, q, "(") {
        Some(q) => q,
        None => {
            return None;
        },
    };
    let (e1, q) = match expr(s, q) {
        Some(r) => r,
        None => {
            return None;
        },
    };
    let q = match tok(s, q, ",") {
        Some(q) => q,
        None => {
            return None;
        },
    };
    let (e2, q) = match expr(s, q) {
        Some(r) => r,
        None => {
            return None;
        },
    };
    let q = match tok(s, q, ")") {
        Some(q) => q,
        None => {
            return None;
        },
    };
    let ghost v1 = e1@;
    let ghost v2 = e2@;
    let e = Expr::PairLiter(Box::new(TypedExpr::new(e1)), Box::new(TypedExpr::new(e2)));
    assert(Type::Any@ == SType::Any);
    assert(e@ == SExpr::PairLiter(SType::Any, Box::new(v1), SType::Any, Box::new(v2)));
    Some((e, q))
}

/* stat ::= <stat-unit> ';' <stat> | <stat-unit> */
pub fn stat(s: &Vec<char>, p: usize) -> (r: Option<(Stat, usize)>)
    requires
        p <= s@.len(),
    ensures
        r matches Some((st, q)) ==> p < q <= s@.len() && fresh_stat(st),
        stat_result(r, stat_spec(s@, p as int)),
    decreases s@.len() - p, 2nat,
{
    proof {
        reveal_strlit(";");
    }
    let (first, q) = match stat_unit(s, p) {
        Some(r) => r,
        None => {
            return None;
        },
    };
    if let Some(q1) = tok(s, q, ";") {
        if let Some((rest, q2)) = stat(s, q1) {
            let st = Stat::Sequence(Box::new(first), Box::new(rest));
            assert(stat_shape(st) == SStat::Sequence(Box::new(stat_shape(first)), Box::new(stat_shape(rest))));
            return Some((st, q2));
        }
    }
    Some((first, q))
}

/* A statement that takes an expression after a keyword. */
fn keyword_expr(s: &Vec<char>, p: usize, word: &str) -> (r: Option<(Expr, usize)>)
    requires
        p <= s@.len(),
        word@.len() > 0,
    ensures
        r matches Some((_, q)) ==> p < q <= s@.len(),
        expr_result(r, keyword_expr_spec(s@, p as int, word@)),
{
    let q = match tok(s, p, word) {
        Some(q) => q,
        None => {
            return None;
        },
    };
    expr(s, q)
}

#[verifier::rlimit(60)]
fn stat_unit(s: &Vec<char>, p: usize) -> (r: Option<(Stat, usize)>)
    requires
        p <= s@.len(),
    ensures
        r matches Some((st, q)) ==> p < q <= s@.len() && fresh_stat(st),
        stat_result(r, stat_unit_spec(s@, p as int)),
    decreases s@.len() - p, 1nat,
{
    proof {
        reveal_strlit("skip");
        reveal_strlit("=");
        reveal_strlit("read");
        reveal_strlit("free");
        reveal_strlit("return");
        reveal_strlit("exit");
        reveal_strlit("println");
        reveal_strlit("print");
        reveal_strlit("if");
        reveal_strlit("then");
        reveal_strlit("else");
        reveal_strlit("fi");
        reveal_strlit("while");
        reveal_strlit("do");
        reveal_strlit("done");
        reveal_strlit("begin");
        reveal_strlit("end");
    }
    assert(Type::Any@ == SType::Any);
    if let Some(q) = tok(s, p, "skip") {
        return Some((Stat::Skip, q));
    }
    /* <type> <ident> '=' <assign-rhs> */
    if let Some((t, q)) = type_(s, p) {
        if let Some((id, q)) = ident(s, q) {
            if let Some(q) = tok(s, q, "=") {
                if let Some((rhs, q)) = assign_rhs(s, q) {
                    return Some((Stat::Declaration(t, id, AssignRhs::Expr(rhs)), q));
                }
            }
        }
    }
    assert(declaration_spec(s@, p as int) is None);
    /* <assign-lhs> '=' <assign-rhs> */
    if let Some((lhs, q)) = assign_lhs(s, p) {
        if let Some(q) = tok(s, q, "=") {
            if let Some((rhs, q)) = assign_rhs(s, q) {
                return Some((Stat::Assignment(lhs, Type::Any, AssignRhs::Expr(rhs)), q));
            }
        }
    }
    assert(assignment_spec(s@, p as int) is None);
    if let Some(q) = tok(s, p, "read") {
        if let Some((lhs, q)) = assign_lhs(s, q) {
            return Some((Stat::Read(Type::Any, lhs), q));
        }
    }
    if let Some((e, q)) = keyword_expr(s, p, "free") {
        return Some((Stat::Free(TypedExpr::new(e)), q));
    }
    if let Some((e, q)) = keyword_expr(s, p, "return") {
        return Some((Stat::Return(e), q));
    }
    if let Some((e, q)) = keyword_expr(s, p, "exit") {
        return Some((Stat::Exit(e), q));
    }
    if let Some((e, q)) = keyword_expr(s, p, "println") {
        return Some((Stat::Println(TypedExpr::new(e)), q));
    }
    if let Some((e, q)) = keyword_expr(s, p, "print") {
        return Some((Stat::Print(TypedExpr::new(e)), q));
    }
    /* 'if' <expr> 'then' <stat> 'else' <stat> 'fi' */
    if let Some((c, q)) = keyword_expr(s, p, "if") {
        if let Some(q) = tok(s, q, "then") {
            if let Some((x, q)) = stat(s, q) {
                if let Some(q) = tok(s, q, "else") {
                    if let Some((y, q)) = stat(s, q) {
                        if let Some(q) = tok(s, q, "fi") {
                            let sx = ScopedStat::new(x);
                            let sy = ScopedStat::new(y);
                            assert(fresh_scoped(sx));
                            assert(fresh_scoped(sy));
                            return Some((Stat::If(c, sx, sy), q));
                        }
                    }
                }
            }
        }
    }
    assert(if_spec(s@, p as int) is None);
    /* 'while' <expr> 'do' <stat> 'done' */
    if let Some((c, q)) = keyword_expr(s, p, "while") {
        if let Some(q) = tok(s, q, "do") {
            if let Some((b, q)) = stat(s, q) {
                if let Some(q) = tok(s, q, "done") {
                    let sb = ScopedStat::new(b);
                    assert(fresh_scoped(sb));
                    return Some((Stat::While(c, sb), q));
                }
            }
        }
    }
    assert(while_spec(s@, p as int) is None);
    /* 'begin' <stat> 'end' */
    let q = match tok(s, p, "begin") {
        Some(q) => q,
        None => {
            return None;
        },
    };
    let (b, q) = match stat(s, q) {
        Some(r) => r,
        None => {
            return None;
        },
    };
    let q = match tok(s, q, "end") {
        Some(q) => q,
        None => {
            return None;
        },
    };
    let sb = ScopedStat::new(b);
    assert(fresh_scoped(sb));
    Some((Stat::Scope(sb), q))
}

} // verus!

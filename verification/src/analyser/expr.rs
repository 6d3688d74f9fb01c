use vstd::prelude::*;

use super::context::{scope_get, scope_rename, scopes_wf, ScopeBuilder, SIdentInfo, STable};
use super::unify::spec_unify;
use super::{join, no_syntax, AResult, SError, SemanticError};
use super::context::IdentInfo;
use crate::ast::{
    expr_skel, exprs_skel, fields_skel, lemma_exprs_skel_ext, lemma_fields_skel_ext, ArrayElem, ArrayLiter, BinaryOper, Expr, Ident, PairElem, SType, StructElem, StructLiter, Type,
    TypedExpr, UnaryOper, type_debug, types_view, lemma_types_view_index, lemma_types_view_len,
};
use crate::ident_map::str_eq;
use crate::text::{push_str, to_string};

verus! {

/* ======== The typing rules of expressions ======== */

/// The type of an identifier: local variables and functions have one.
pub open spec fn ident_type(ts: Seq<STable>, k: Seq<char>) -> Option<SType> {
    match scope_get(ts, k) {
        Some(SIdentInfo::LocalVar(t, _)) => Some(t),
        Some(SIdentInfo::Label(t, _)) => Some(t),
        _ => None,
    }
}

/// `actual` may stand where `expected` is required.
pub open spec fn fits(expected: SType, actual: SType) -> bool {
    spec_unify(expected, actual) is Some
}

pub open spec fn unary_type(op: UnaryOper, t: Option<SType>) -> Option<SType> {
    match t {
        None => None,
        Some(t) => match op {
            UnaryOper::Bang => if fits(SType::Bool, t) {
                Some(SType::Bool)
            } else {
                None
            },
            UnaryOper::Neg => if fits(SType::Int, t) {
                Some(SType::Int)
            } else {
                None
            },
            UnaryOper::Len => if t is Array {
                Some(SType::Int)
            } else {
                None
            },
            UnaryOper::Ord => if fits(SType::Char, t) {
                Some(SType::Int)
            } else {
                None
            },
            UnaryOper::Chr => if fits(SType::Int, t) {
                Some(SType::Char)
            } else {
                None
            },
        },
    }
}

/// The result type of a binary operator applied to operands whose unified
/// type is `t`.
pub open spec fn binary_type(op: BinaryOper, t: SType) -> Option<SType> {
    match op {
        BinaryOper::Mul | BinaryOper::Div | BinaryOper::Mod | BinaryOper::Add | BinaryOper::Sub => {
            if t == SType::Int {
                Some(SType::Int)
            } else {
                None
            }
        },
        BinaryOper::Gt | BinaryOper::Gte | BinaryOper::Lt | BinaryOper::Lte => {
            if t == SType::Int || t == SType::Char {
                Some(SType::Bool)
            } else {
                None
            }
        },
        BinaryOper::Eq | BinaryOper::Neq => Some(SType::Bool),
        BinaryOper::And | BinaryOper::Or => if t == SType::Bool {
            Some(SType::Bool)
        } else {
            None
        },
    }
}

/// Element type of an array literal whose elements have the given types:
/// elements that fail to type are passed over, the others must unify.
pub open spec fn array_liter_fold(types: Seq<Option<SType>>) -> Option<SType>
    decreases types.len(),
{
    if types.len() == 0 {
        Some(SType::Any)
    } else {
        match array_liter_fold(types.drop_last()) {
            None => None,
            Some(acc) => match types.last() {
                Some(t) => spec_unify(acc, t),
                None => Some(acc),
            },
        }
    }
}

/// Indexing into `base` once for each index (each must be an int).
pub open spec fn index_through(base: SType, idx: Seq<Option<SType>>) -> Option<SType>
    decreases idx.len(),
{
    if idx.len() == 0 {
        Some(base)
    } else {
        match idx[0] {
            Some(it) => if fits(SType::Int, it) {
                match base {
                    SType::Array(t) => index_through(*t, idx.drop_first()),
                    _ => None,
                }
            } else {
                None
            },
            None => None,
        }
    }
}

/// Result of calling a function with parameter types `ps`: every argument
/// fits its parameter and there are as many arguments as parameters.
pub open spec fn call_type(ps: Seq<SType>, ret: SType, args: Seq<Option<SType>>) -> Option<SType> {
    if ps.len() == args.len() && forall|i: int|
        0 <= i < ps.len() ==> (#[trigger] args[i] matches Some(at) && fits(ps[i], at)) {
        Some(ret)
    } else {
        None
    }
}

/// Position of the first field named `k`.
pub open spec fn first_field(fs: Seq<(Ident, Expr)>, k: Seq<char>) -> Option<int>
    decreases fs.len(),
{
    if fs.len() == 0 {
        None
    } else if fs[0].0@ == k {
        Some(0)
    } else {
        match first_field(fs.drop_first(), k) {
            Some(i) => Some(i + 1),
            None => None,
        }
    }
}

/// A struct literal of the struct `id`: it sets as many fields as the
/// definition has, and every field of the definition to a value of a type
/// that fits it.
pub open spec fn struct_liter_type(
    ts: Seq<STable>,
    id: Seq<char>,
    fs: Seq<(Ident, Expr)>,
    ftypes: Seq<Option<SType>>,
) -> Option<SType> {
    match scope_get(ts, id) {
        Some(SIdentInfo::TypeDef(def)) => {
            if fs.len() == def.count && forall|k: Seq<char>|
                #[trigger] def.fields.contains_key(k) ==> (first_field(fs, k) matches Some(i)
                    && ftypes[i] matches Some(at) && fits(def.fields[k].0, at)) {
                Some(SType::Custom(id))
            } else {
                None
            }
        },
        _ => None,
    }
}

/// Type of the field `f` of the struct `name`.
pub open spec fn struct_field_type(ts: Seq<STable>, name: Seq<char>, f: Seq<char>) -> Option<
    SType,
> {
    match scope_get(ts, name) {
        Some(SIdentInfo::TypeDef(def)) => if def.fields.contains_key(f) {
            Some(def.fields[f].0)
        } else {
            None
        },
        _ => None,
    }
}

/// Type of `fst`/`snd` of a value of type `t`: it must be a pair, and not
/// the null literal (whose element types are both unknown).
pub open spec fn pair_elem_type(first: bool, t: Option<SType>) -> Option<SType> {
    match t {
        Some(SType::Pair(l, r)) => if *l is Any && *r is Any {
            None
        } else if first {
            Some(*l)
        } else {
            Some(*r)
        },
        _ => None,
    }
}

/// The type of an expression in the scopes `ts`, if it is well typed.
pub open spec fn expr_type(ts: Seq<STable>, e: Expr) -> Option<SType>
    decreases e,
{
    match e {
        Expr::IntLiter(_) => Some(SType::Int),
        Expr::BoolLiter(_) => Some(SType::Bool),
        Expr::CharLiter(_) => Some(SType::Char),
        Expr::StrLiter(_) => Some(SType::Str),
        Expr::NullPairLiter => Some(SType::Pair(Box::new(SType::Any), Box::new(SType::Any))),
        Expr::PairLiter(a, b) => match (expr_type(ts, a.1), expr_type(ts, b.1)) {
            (Some(x), Some(y)) => Some(SType::Pair(Box::new(x), Box::new(y))),
            _ => None,
        },
        Expr::ArrayLiter(al) => match array_liter_fold(exprs_types(ts, al.1@)) {
            Some(t) => Some(SType::Array(Box::new(t))),
            None => None,
        },
        Expr::StructLiter(sl) => struct_liter_type(ts, sl.id@, sl.fields@, fields_types(ts, sl.fields@)),
        Expr::Ident(id) => ident_type(ts, id@),
        Expr::ArrayElem(ae) => match ident_type(ts, ae.0@) {
            Some(base) => index_through(base, exprs_types(ts, ae.1@)),
            None => None,
        },
        Expr::StructElem(se) => match expr_type(ts, *se.1) {
            Some(SType::Custom(name)) => struct_field_type(ts, name, se.2@),
            _ => None,
        },
        Expr::PairElem(p) => match *p {
            PairElem::Fst(te) => pair_elem_type(true, expr_type(ts, te.1)),
            PairElem::Snd(te) => pair_elem_type(false, expr_type(ts, te.1)),
        },
        Expr::UnaryApp(op, x) => unary_type(op, expr_type(ts, *x)),
        Expr::BinaryApp(a, op, b) => match (expr_type(ts, *a), expr_type(ts, *b)) {
            (Some(x), Some(y)) => match spec_unify(x, y) {
                Some(u) => binary_type(op, u),
                None => None,
            },
            _ => None,
        },
        Expr::Call(_, f, args) => match expr_type(ts, *f) {
            Some(SType::Func(ps, ret)) => call_type(ps, *ret, exprs_types(ts, args@)),
            _ => None,
        },
    }
}

/// The types of a list of expressions, one for each.
pub open spec fn exprs_types(ts: Seq<STable>, es: Seq<Expr>) -> Seq<Option<SType>>
    decreases es,
{
    if es.len() == 0 {
        Seq::empty()
    } else {
        exprs_types(ts, es.drop_last()).push(expr_type(ts, es.last()))
    }
}

/// The types of the expressions of a struct literal's fields.
pub open spec fn fields_types(ts: Seq<STable>, fs: Seq<(Ident, Expr)>) -> Seq<Option<SType>>
    decreases fs,
{
    if fs.len() == 0 {
        Seq::empty()
    } else {
        fields_types(ts, fs.drop_last()).push(expr_type(ts, fs.last().1))
    }
}

pub proof fn lemma_exprs_types(ts: Seq<STable>, es: Seq<Expr>)
    ensures
        exprs_types(ts, es).len() == es.len(),
        forall|i: int| 0 <= i < es.len() ==> #[trigger] exprs_types(ts, es)[i] == expr_type(ts, es[i]),
    decreases es.len(),
{
    if es.len() > 0 {
        lemma_exprs_types(ts, es.drop_last());
    }
}

pub proof fn lemma_fields_types(ts: Seq<STable>, fs: Seq<(Ident, Expr)>)
    ensures
        fields_types(ts, fs).len() == fs.len(),
        forall|i: int| 0 <= i < fs.len() ==> #[trigger] fields_types(ts, fs)[i] == expr_type(ts, fs[i].1),
    decreases fs.len(),
{
    if fs.len() > 0 {
        lemma_fields_types(ts, fs.drop_last());
    }
}

/* ======== Laws of operator typing ======== */

/// The arithmetic operators.
pub open spec fn is_arithmetic(op: BinaryOper) -> bool {
    op is Mul || op is Div || op is Mod || op is Add || op is Sub
}

/// Arithmetic works on integers and gives an integer: two integer operands
/// give an integer, and an arithmetic application that types at all is an
/// integer whose operands both type.
pub proof fn law_arithmetic_on_ints(ts: Seq<STable>, a: Expr, op: BinaryOper, b: Expr)
    requires
        is_arithmetic(op),
    ensures
        expr_type(ts, a) == Some(SType::Int) && expr_type(ts, b) == Some(SType::Int) ==> expr_type(
            ts,
            Expr::BinaryApp(Box::new(a), op, Box::new(b)),
        ) == Some(SType::Int),
        expr_type(ts, Expr::BinaryApp(Box::new(a), op, Box::new(b))) matches Some(t) ==> t == SType::Int
            && expr_type(ts, a) is Some && expr_type(ts, b) is Some,
        expr_type(ts, a) == Some(SType::Bool) && expr_type(ts, b) == Some(SType::Bool) ==> expr_type(
            ts,
            Expr::BinaryApp(Box::new(a), op, Box::new(b)),
        ) is None,
{
}

/// Comparisons and the boolean operators give a boolean, never an integer.
pub proof fn law_comparison_gives_bool(ts: Seq<STable>, a: Expr, op: BinaryOper, b: Expr)
    requires
        !is_arithmetic(op),
    ensures
        expr_type(ts, Expr::BinaryApp(Box::new(a), op, Box::new(b))) matches Some(t) ==> t == SType::Bool,
        expr_type(ts, a) == Some(SType::Int) && expr_type(ts, b) == Some(SType::Int) && !(op is And || op is Or)
            ==> expr_type(ts, Expr::BinaryApp(Box::new(a), op, Box::new(b))) == Some(SType::Bool),
        expr_type(ts, a) == Some(SType::Bool) && expr_type(ts, b) == Some(SType::Bool) ==> (expr_type(
            ts,
            Expr::BinaryApp(Box::new(a), op, Box::new(b)),
        ) is Some <==> (op is And || op is Or || op is Eq || op is Neq)),
        expr_type(ts, a) == Some(SType::Int) && expr_type(ts, b) == Some(SType::Int) && (op is And || op is Or)
            ==> expr_type(ts, Expr::BinaryApp(Box::new(a), op, Box::new(b))) is None,
{
}

/// The unary operators: `!` takes and gives a boolean, `-` an integer,
/// `len` takes an array and gives an integer, `ord` takes a character and
/// gives an integer, `chr` the other way round.
pub proof fn law_unary_types(ts: Seq<STable>, op: UnaryOper, x: Expr)
    ensures
        ({
            let r = expr_type(ts, Expr::UnaryApp(op, Box::new(x)));
            let t = expr_type(ts, x);
            &&& op is Bang ==> (t == Some(SType::Bool) ==> r == Some(SType::Bool)) && (r is Some ==> r == Some(
                SType::Bool,
            ))
            &&& op is Neg ==> (t == Some(SType::Int) ==> r == Some(SType::Int)) && (r is Some ==> r == Some(
                SType::Int,
            ))
            &&& op is Len ==> (r is Some <==> (t is Some && t.unwrap() is Array)) && (r is Some ==> r == Some(
                SType::Int,
            ))
            &&& op is Ord ==> (t == Some(SType::Char) ==> r == Some(SType::Int)) && (r is Some ==> r == Some(
                SType::Int,
            ))
            &&& op is Chr ==> (t == Some(SType::Int) ==> r == Some(SType::Char)) && (r is Some ==> r == Some(
                SType::Char,
            ))
        }),
{
}

/* ======== What analysis makes of an expression ======== */

/// No field before position `j` has the name of the field at `j`.
pub open spec fn first_of_name(fs: Seq<(Ident, Expr)>, j: int) -> bool {
    forall|m: int| 0 <= m < j ==> #[trigger] fs[m].0@ != fs[j].0@
}

/// `n` is what analysis in the scopes `ts` makes of the expression `e`,
/// when `e` types: each type found is stored where the tree keeps one,
/// variables take the names the scopes give them, and the elements of
/// array literals that do not type keep their structure (`expr_skel`).
pub open spec fn expr_analysed(ts: Seq<STable>, e: Expr, n: Expr) -> bool
    decreases e,
{
    match e {
        Expr::PairLiter(a, b) => match n {
            Expr::PairLiter(a2, b2) => expr_type(ts, a.1) == Some(a2.0@) && expr_analysed(ts, a.1, a2.1)
                && expr_type(ts, b.1) == Some(b2.0@) && expr_analysed(ts, b.1, b2.1),
            _ => false,
        },
        Expr::ArrayLiter(al) => match n {
            Expr::ArrayLiter(al2) => expr_type(ts, e) == Some(SType::Array(Box::new(al2.0@))) && elems_analysed(
                ts,
                al.1@,
                al2.1@,
            ),
            _ => false,
        },
        Expr::StructLiter(sl) => match n {
            Expr::StructLiter(sl2) => sl2.id@ == sl.id@ && match scope_get(ts, sl.id@) {
                Some(SIdentInfo::TypeDef(def)) => fields_analysed(ts, def.fields, sl.fields@, sl2.fields@),
                _ => false,
            },
            _ => false,
        },
        Expr::Ident(id) => match n {
            Expr::Ident(id2) => id2@ == scope_rename(ts, id@),
            _ => false,
        },
        Expr::ArrayElem(ae) => match n {
            Expr::ArrayElem(ae2) => ae2.0@ == scope_rename(ts, ae.0@) && elems_analysed(ts, ae.1@, ae2.1@),
            _ => false,
        },
        Expr::StructElem(se) => match n {
            Expr::StructElem(se2) => expr_analysed(ts, *se.1, *se2.1) && se2.2 == se.2 && expr_type(ts, *se.1)
                == Some(SType::Custom(se2.0@)),
            _ => false,
        },
        Expr::PairElem(pe) => match *pe {
            PairElem::Fst(te) => match n {
                Expr::PairElem(pe2) => match *pe2 {
                    PairElem::Fst(te2) => expr_type(ts, e) == Some(te2.0@) && expr_analysed(ts, te.1, te2.1),
                    _ => false,
                },
                _ => false,
            },
            PairElem::Snd(te) => match n {
                Expr::PairElem(pe2) => match *pe2 {
                    PairElem::Snd(te2) => expr_type(ts, e) == Some(te2.0@) && expr_analysed(ts, te.1, te2.1),
                    _ => false,
                },
                _ => false,
            },
        },
        Expr::UnaryApp(op, x) => match n {
            Expr::UnaryApp(op2, x2) => op2 == op && expr_analysed(ts, *x, *x2),
            _ => false,
        },
        Expr::BinaryApp(a, op, b) => match n {
            Expr::BinaryApp(a2, op2, b2) => op2 == op && expr_analysed(ts, *a, *a2) && expr_analysed(ts, *b, *b2),
            _ => false,
        },
        Expr::Call(_, f, args) => match n {
            Expr::Call(t2, f2, args2) => expr_type(ts, *f) == Some(t2@) && expr_analysed(ts, *f, *f2)
                && elems_analysed(ts, args@, args2@),
            _ => false,
        },
        _ => n == e,
    }
}

/// Each expression of `ns` is what analysis makes of the one of `es`: as
/// `expr_analysed` where it types, with its structure kept where it does not.
pub open spec fn elems_analysed(ts: Seq<STable>, es: Seq<Expr>, ns: Seq<Expr>) -> bool
    decreases es,
{
    es.len() == ns.len() && (es.len() == 0 || (elems_analysed(ts, es.drop_last(), ns.drop_last()) && match expr_type(
        ts,
        es.last(),
    ) {
        Some(_) => expr_analysed(ts, es.last(), ns.last()),
        None => expr_skel(ns.last()) == expr_skel(es.last()),
    }))
}

/// The fields of a struct literal after analysis against the definition
/// `defs`: the first field of each name the definition has is analysed, the
/// others stay as they were.
pub open spec fn fields_analysed(
    ts: Seq<STable>,
    defs: Map<Seq<char>, (SType, i32)>,
    fs: Seq<(Ident, Expr)>,
    ns: Seq<(Ident, Expr)>,
) -> bool
    decreases fs,
{
    fs.len() == ns.len() && (fs.len() == 0 || (fields_analysed(ts, defs, fs.drop_last(), ns.drop_last())
        && ns.last().0@ == fs.last().0@ && if defs.contains_key(fs.last().0@) && first_of_name(fs, fs.len() - 1) {
        expr_analysed(ts, fs.last().1, ns.last().1)
    } else {
        ns.last().1 == fs.last().1
    }))
}

proof fn lemma_elems_analysed_step(ts: Seq<STable>, es: Seq<Expr>, ns: Seq<Expr>, i: int)
    requires
        0 <= i < es.len(),
        i < ns.len(),
        elems_analysed(ts, es.take(i), ns.take(i)),
        match expr_type(ts, es[i]) {
            Some(_) => expr_analysed(ts, es[i], ns[i]),
            None => expr_skel(ns[i]) == expr_skel(es[i]),
        },
    ensures
        elems_analysed(ts, es.take(i + 1), ns.take(i + 1)),
{
    assert(es.take(i + 1).drop_last() =~= es.take(i));
    assert(ns.take(i + 1).drop_last() =~= ns.take(i));
    assert(es.take(i + 1).last() == es[i]);
    assert(ns.take(i + 1).last() == ns[i]);
}

proof fn lemma_elems_analysed_empty(ts: Seq<STable>, es: Seq<Expr>, ns: Seq<Expr>)
    ensures
        elems_analysed(ts, es.take(0), ns.take(0)),
{
    assert(es.take(0) =~= Seq::<Expr>::empty());
    assert(ns.take(0) =~= Seq::<Expr>::empty());
}

/// The first field of a name comes before every other of that name.
pub proof fn lemma_first_field_first(fs: Seq<(Ident, Expr)>, k: Seq<char>, j: int)
    requires
        first_field(fs, k) == Some(j),
    ensures
        forall|m: int| 0 <= m < j ==> #[trigger] fs[m].0@ != k,
    decreases fs.len(),
{
    lemma_first_field_found(fs, k);
    if fs.len() > 0 && fs[0].0@ != k {
        lemma_first_field_first(fs.drop_first(), k, j - 1);
        assert forall|m: int| 0 <= m < j implies #[trigger] fs[m].0@ != k by {
            if m > 0 {
                assert(fs.drop_first()[m - 1] == fs[m]);
            }
        }
    }
}

proof fn lemma_fields_analysed(
    ts: Seq<STable>,
    defs: Map<Seq<char>, (SType, i32)>,
    fs: Seq<(Ident, Expr)>,
    ns: Seq<(Ident, Expr)>,
)
    requires
        fs.len() == ns.len(),
        forall|j: int| 0 <= j < fs.len() ==> (#[trigger] ns[j]).0@ == fs[j].0@,
        forall|j: int|
            0 <= j < fs.len() ==> if defs.contains_key(fs[j].0@) && first_of_name(fs, j) {
                expr_analysed(ts, fs[j].1, (#[trigger] ns[j]).1)
            } else {
                ns[j].1 == fs[j].1
            },
    ensures
        fields_analysed(ts, defs, fs, ns),
    decreases fs.len(),
{
    if fs.len() > 0 {
        let fs1 = fs.drop_last();
        let ns1 = ns.drop_last();
        assert forall|j: int| 0 <= j < fs1.len() implies first_of_name(fs1, j) == first_of_name(fs, j) by {
            if first_of_name(fs, j) {
                assert forall|m: int| 0 <= m < j implies #[trigger] fs1[m].0@ != fs1[j].0@ by {
                    assert(fs[m].0@ != fs[j].0@);
                }
            } else {
                let m = choose|m: int| 0 <= m < j && #[trigger] fs[m].0@ == fs[j].0@;
                assert(fs1[m].0@ == fs1[j].0@);
            }
        }
        assert forall|j: int| 0 <= j < fs1.len() implies if defs.contains_key(fs1[j].0@) && first_of_name(fs1, j) {
            expr_analysed(ts, fs1[j].1, (#[trigger] ns1[j]).1)
        } else {
            ns1[j].1 == fs1[j].1
        } by {
            assert(ns1[j] == ns[j]);
            assert(fs1[j] == fs[j]);
        }
        lemma_fields_analysed(ts, defs, fs1, ns1);
        let l = fs.len() - 1;
        assert(ns[l] == ns.last());
        assert(fs[l] == fs.last());
    }
}

/* ======== Messages ======== */

pub(crate) fn msg_type(prefix: &str, t: &Type) -> (r: String)
    ensures
        r@ == prefix@ + type_debug(t@),
{
    let mut s = to_string(prefix);
    t.push_debug(&mut s);
    s
}

pub(crate) fn msg_two_types(prefix: &str, t1: &Type, mid: &str, t2: &Type) -> (r: String)
    ensures
        r@ == prefix@ + type_debug(t1@) + mid@ + type_debug(t2@),
{
    let mut s = to_string(prefix);
    t1.push_debug(&mut s);
    push_str(&mut s, mid);
    t2.push_debug(&mut s);
    s
}

pub(crate) fn msg_ident(prefix: &str, id: &str) -> (r: String)
    ensures
        r@ == prefix@ + seq!['"'] + id@ + seq!['"'],
{
    let mut s = to_string(prefix);
    push_str(&mut s, "\"");
    push_str(&mut s, id);
    push_str(&mut s, "\"");
    proof {
        reveal_strlit("\"");
        assert(s@ =~= prefix@ + seq!['"'] + id@ + seq!['"']);
    }
    s
}

/// How a binary operator is written in messages.
pub open spec fn oper_name(op: BinaryOper) -> Seq<char> {
    match op {
        BinaryOper::Mul => "Mul"@,
        BinaryOper::Div => "Div"@,
        BinaryOper::Mod => "Mod"@,
        BinaryOper::Add => "Add"@,
        BinaryOper::Sub => "Sub"@,
        BinaryOper::Gt => "Gt"@,
        BinaryOper::Gte => "Gte"@,
        BinaryOper::Lt => "Lt"@,
        BinaryOper::Lte => "Lte"@,
        BinaryOper::Eq => "Eq"@,
        BinaryOper::Neq => "Neq"@,
        BinaryOper::And => "And"@,
        BinaryOper::Or => "Or"@,
    }
}

fn binary_oper_name(op: BinaryOper) -> (r: &'static str)
    ensures
        r@ == oper_name(op),
{
    match op {
        BinaryOper::Mul => "Mul",
        BinaryOper::Div => "Div",
        BinaryOper::Mod => "Mod",
        BinaryOper::Add => "Add",
        BinaryOper::Sub => "Sub",
        BinaryOper::Gt => "Gt",
        BinaryOper::Gte => "Gte",
        BinaryOper::Lt => "Lt",
        BinaryOper::Lte => "Lte",
        BinaryOper::Eq => "Eq",
        BinaryOper::Neq => "Neq",
        BinaryOper::And => "And",
        BinaryOper::Or => "Or",
    }
}

fn unsupported_type(op: BinaryOper, t: &Type) -> (r: SemanticError)
    ensures
        r is Normal,
        r->Normal_0@ == "TYPE ERROR: Unsupported type for "@ + oper_name(op) + "\n\tExpected: Int\n\tActual: "@
            + type_debug(t@),
{
    let mut s = to_string("TYPE ERROR: Unsupported type for ");
    push_str(&mut s, binary_oper_name(op));
    push_str(&mut s, "\n\tExpected: Int\n\tActual: ");
    t.push_debug(&mut s);
    SemanticError::Normal(s)
}

/* ======== Checks on analysed types ======== */

/* Errors if the type found does not fit the expected type. */
pub fn check_expected(expected: &Type, actual: AResult<Type>) -> (r: AResult<Type>)
    ensures
        r is Ok <==> (actual matches Ok(t) && fits(expected@, t@)),
        r matches Ok(t) ==> t@ == expected@,
        r matches Err(e) ==> (actual matches Err(x) ==> e == x),
        r matches Err(e) ==> (actual is Ok ==> e is Normal),
{
    let actual_type = actual?;
    if expected.deep_clone().unify(actual_type.deep_clone()).is_some() {
        Ok(expected.deep_clone())
    } else {
        Err(
            SemanticError::Normal(
                msg_two_types(
                    "TYPE ERROR: Unexpected type.\n\tExpected: ",
                    expected,
                    "\n\tActual: ",
                    &actual_type,
                ),
            ),
        )
    }
}

/* If the types are compatible, the unified type. Otherwise, error. */
pub fn check_equal(lhs_type: Type, rhs_type: Type) -> (r: AResult<Type>)
    ensures
        r is Ok <==> spec_unify(lhs_type@, rhs_type@) is Some,
        r matches Ok(t) ==> spec_unify(lhs_type@, rhs_type@) == Some(t@),
        r matches Err(e) ==> e is Normal,
{
    match lhs_type.deep_clone().unify(rhs_type.deep_clone()) {
        Some(t) => Ok(t),
        None => Err(
            SemanticError::Normal(
                msg_two_types(
                    "TYPE ERROR: Type mismatch between.\n\tType 1: ",
                    &lhs_type,
                    "Type 2:\n\t",
                    &rhs_type,
                ),
            ),
        ),
    }
}

/* ======== Analysis ======== */

impl TypedExpr {
    /// Types the expression and stores its type.
    pub fn analyse(&mut self, scope: &ScopeBuilder, _aux: ()) -> (r: AResult<Type>)
        requires
            scopes_wf(scope@),
        ensures
            r is Ok <==> expr_type(scope@, old(self).1) is Some,
            r matches Ok(t) ==> expr_type(scope@, old(self).1) == Some(t@),
            r matches Ok(t) ==> final(self).0@ == t@,
            r matches Err(e) ==> no_syntax(e@),
            expr_skel(final(self).1) == expr_skel(old(self).1),
            r is Ok ==> expr_analysed(scope@, old(self).1, final(self).1),
        decreases old(self).1, 1nat,
    {
        let t = self.1.analyse(scope, ())?;
        self.0 = t.deep_clone();
        Ok(t)
    }
}

impl Expr {
    /// Types the expression. Identifiers of local variables are renamed as
    /// the scope says; array literals, pair element accesses, struct element
    /// accesses and calls get the types they were found to have.
    pub fn analyse(&mut self, scope: &ScopeBuilder, _aux: ()) -> (r: AResult<Type>)
        requires
            scopes_wf(scope@),
        ensures
            r is Ok <==> expr_type(scope@, *old(self)) is Some,
            r matches Ok(t) ==> expr_type(scope@, *old(self)) == Some(t@),
            r matches Err(e) ==> no_syntax(e@),
            expr_skel(*final(self)) == expr_skel(*old(self)),
            r is Ok ==> expr_analysed(scope@, *old(self), *final(self)),
        decreases *old(self), 0nat,
    {
        let ghost ts = scope@;
        let ghost old_e = *self;
        match self {
            Expr::IntLiter(_) => Ok(Type::Int),
            Expr::BoolLiter(_) => Ok(Type::Bool),
            Expr::CharLiter(_) => Ok(Type::Char),
            Expr::StrLiter(_) => Ok(Type::String),
            Expr::NullPairLiter => {
                let r = Type::Pair(Box::new(Type::Any), Box::new(Type::Any));
                assert(Type::Any@ == SType::Any);
                Ok(r)
            },
            Expr::PairLiter(e1, e2) => {
                let r1 = e1.analyse(scope, ());
                let r2 = e2.analyse(scope, ());
                let (lhs_type, rhs_type) = join(r1, r2)?;
                let r = Type::Pair(Box::new(lhs_type), Box::new(rhs_type));
                assert(expr_type(ts, old_e) == Some(r@));
                Ok(r)
            },
            Expr::ArrayLiter(lit) => {
                let r = analyse_array_liter(lit, scope);
                assert(r matches Ok(rt) ==> expr_type(ts, old_e) == Some(rt@));
                r
            },
            Expr::StructLiter(lit) => {
                let r = analyse_struct_liter(lit, scope);
                assert(r matches Ok(rt) ==> expr_type(ts, old_e) == Some(rt@));
                r
            },
            Expr::PairElem(elem) => {
                let r = analyse_pair_elem(elem, scope);
                assert(r matches Ok(rt) ==> expr_type(ts, old_e) == Some(rt@));
                r
            },
            Expr::Ident(id) => {
                let ghost k = id@;
                match scope.get(id) {
                    Some(IdentInfo::LocalVar(t, _)) => {
                        assert(expr_type(ts, old_e) == Some(t@));
                        Ok(t)
                    },
                    Some(IdentInfo::Label(t, _)) => {
                        assert(expr_type(ts, old_e) == Some(t@));
                        Ok(t)
                    },
                    _ => Err(SemanticError::Normal(msg_ident("Use of undeclared variable: ", k_str(id)))),
                }
            },
            Expr::ArrayElem(elem) => {
                let r = analyse_array_elem(elem, scope);
                assert(r matches Ok(rt) ==> expr_type(ts, old_e) == Some(rt@));
                r
            },
            Expr::StructElem(elem) => {
                let r = analyse_struct_elem(elem, scope);
                assert(r matches Ok(rt) ==> expr_type(ts, old_e) == Some(rt@));
                r
            },
            Expr::Call(t, func_expr, args) => {
                let f = func_expr.analyse(scope, ())?;
                let r = analyse_call(scope, t, f, args);
                assert(r matches Ok(rt) ==> expr_type(ts, old_e) == Some(rt@));
                r
            },
            Expr::UnaryApp(op, exp) => {
                let operand = exp.analyse(scope, ());
                let r = unary_result(*op, operand);
                assert(r matches Ok(rt) ==> expr_type(ts, old_e) == Some(rt@));
                r
            },
            Expr::BinaryApp(exp1, op, exp2) => {
                let lhs_type = exp1.analyse(scope, ())?;
                let rhs_type = exp2.analyse(scope, ())?;
                let r = binary_result(*op, lhs_type, rhs_type);
                assert(r matches Ok(rt) ==> expr_type(ts, old_e) == Some(rt@));
                r
            },
        }
    }
}

pub(crate) fn k_str(id: &String) -> (r: &str)
    ensures
        r@ == id@,
{
    id.as_str()
}

/* The type of a unary application, from the type of its operand. */
pub(crate) fn unary_result(op: UnaryOper, operand: AResult<Type>) -> (r: AResult<Type>)
    ensures
        r is Ok <==> (operand is Ok && unary_type(op, Some(operand->Ok_0@)) is Some),
        r matches Ok(t) ==> unary_type(op, Some(operand->Ok_0@)) == Some(t@),
        r matches Err(e) ==> (operand matches Err(x) ==> e == x),
        r matches Err(e) ==> (operand is Ok ==> e is Normal),
{
    match op {
        UnaryOper::Bang => check_expected(&Type::Bool, operand),
        UnaryOper::Neg => check_expected(&Type::Int, operand),
        UnaryOper::Len => match operand? {
            Type::Array(_) => Ok(Type::Int),
            t => Err(
                SemanticError::Normal(
                    msg_type(
                        "TYPE ERROR: Attempt to find length of non array\n\tExpected: Array\n\tActual: ",
                        &t,
                    ),
                ),
            ),
        },
        UnaryOper::Ord => {
            check_expected(&Type::Char, operand)?;
            Ok(Type::Int)
        },
        UnaryOper::Chr => {
            check_expected(&Type::Int, operand)?;
            Ok(Type::Char)
        },
    }
}

/* The type of a binary application, from the types of its operands. Every
binary application requires both expressions to have the same type. */
pub(crate) fn binary_result(op: BinaryOper, lhs_type: Type, rhs_type: Type) -> (r: AResult<Type>)
    ensures
        r is Ok <==> (spec_unify(lhs_type@, rhs_type@) matches Some(u) && binary_type(op, u) is Some),
        r matches Ok(t) ==> binary_type(op, spec_unify(lhs_type@, rhs_type@).unwrap()) == Some(t@),
        r matches Err(e) ==> e is Normal,
{
    let expr_type = check_equal(lhs_type, rhs_type)?;
    match op {
        /* Maths can only be done on ints. */
        BinaryOper::Mul | BinaryOper::Div | BinaryOper::Mod | BinaryOper::Add | BinaryOper::Sub => {
            match expr_type {
                Type::Int => Ok(Type::Int),
                t => Err(unsupported_type(op, &t)),
            }
        },
        /* Ints and chars can be compared. */
        BinaryOper::Gt | BinaryOper::Gte | BinaryOper::Lt | BinaryOper::Lte => {
            match expr_type {
                Type::Int | Type::Char => Ok(Type::Bool),
                t => Err(unsupported_type(op, &t)),
            }
        },
        BinaryOper::Eq | BinaryOper::Neq => Ok(Type::Bool),
        /* Boolean operators can only be applied to booleans. */
        BinaryOper::And | BinaryOper::Or => match expr_type {
            Type::Bool => Ok(Type::Bool),
            t => Err(unsupported_type(op, &t)),
        },
    }
}

fn analyse_array_liter(lit: &mut ArrayLiter, scope: &ScopeBuilder) -> (r: AResult<Type>)
    requires
        scopes_wf(scope@),
    ensures
        r is Ok <==> array_liter_fold(exprs_types(scope@, old(lit).1@)) is Some,
        r matches Ok(t) ==> t@ == SType::Array(
            Box::new(array_liter_fold(exprs_types(scope@, old(lit).1@)).unwrap()),
        ),
        r matches Err(e) ==> no_syntax(e@),
        exprs_skel(final(lit).1@) == exprs_skel(old(lit).1@),
        elems_analysed(scope@, old(lit).1@, final(lit).1@),
        r matches Ok(t) ==> t@ == SType::Array(Box::new(final(lit).0@)),
    decreases *old(lit), 1nat,
{
    let ghost ts = scope@;
    let ghost old_es = lit.1@;
    /* The first element is the source of truth. */
    let mut array_type: Option<Type> = Some(Type::Any);
    let n = lit.1.len();
    let mut i: usize = 0;
    proof {
        lemma_exprs_types(ts, old_es);
        assert(old_es.take(0) =~= Seq::<Expr>::empty());
        lemma_elems_analysed_empty(ts, old_es, lit.1@);
    }
    /* Ensure every other element has same type. */
    while i < n
        invariant
            n == old_es.len(),
            lit.1@.len() == n,
            i <= n,
            forall|j: int| i <= j < n ==> lit.1@[j] == old_es[j],
            forall|j: int| 0 <= j < i ==> expr_skel(#[trigger] lit.1@[j]) == expr_skel(old_es[j]),
            elems_analysed(ts, old_es.take(i as int), lit.1@.take(i as int)),
            scopes_wf(ts),
            ts == scope@,
            (array_type is Some) == (array_liter_fold(exprs_types(ts, old_es.take(i as int))) is Some),
            array_type matches Some(t) ==> array_liter_fold(exprs_types(ts, old_es.take(i as int)))
                == Some(t@),
            old_es == old(lit).1@,
        decreases n - i,
    {
        proof {
            assert(decreases_to!(*old(lit) => old(lit).1));
            assert(decreases_to!(old(lit).1 => old(lit).1@));
            assert(decreases_to!(old(lit).1@ => old(lit).1@[i as int]));
        }
        let ghost before = lit.1@;
        let res = lit.1[i].analyse(scope, ());
        proof {
            assert(lit.1@.take(i as int) =~= before.take(i as int));
            lemma_elems_analysed_step(ts, old_es, lit.1@, i as int);
            let t1 = old_es.take(i + 1);
            assert(t1.drop_last() =~= old_es.take(i as int));
            assert(t1.last() == old_es[i as int]);
            let tys_i = exprs_types(ts, old_es.take(i as int));
            let tys_i1 = exprs_types(ts, t1);
            assert(tys_i1 == tys_i.push(expr_type(ts, old_es[i as int])));
            assert(tys_i1.drop_last() =~= tys_i);
            assert(tys_i1.last() == expr_type(ts, old_es[i as int]));
        }
        match res {
            Ok(expr_type) => {
                match array_type {
                    Some(t) => {
                        array_type = t.unify(expr_type);
                    },
                    None => {},
                }
            },
            Err(_) => {},
        }
        i = i + 1;
    }
    proof {
        assert(old_es.take(n as int) =~= old_es);
        assert(lit.1@.take(n as int) =~= lit.1@);
        lemma_exprs_skel_ext(lit.1@, old_es);
    }
    match array_type {
        Some(t) => {
            lit.0 = t.deep_clone();
            Ok(Type::Array(Box::new(t)))
        },
        None => Err(
            SemanticError::Normal(
                to_string("Expressions making up array literal have inconsistent types."),
            ),
        ),
    }
}

pub(crate) fn analyse_pair_elem(elem: &mut Box<PairElem>, scope: &ScopeBuilder) -> (r: AResult<Type>)
    requires
        scopes_wf(scope@),
    ensures
        ({
            let st = match **old(elem) {
                PairElem::Fst(te) => pair_elem_type(true, expr_type(scope@, te.1)),
                PairElem::Snd(te) => pair_elem_type(false, expr_type(scope@, te.1)),
            };
            &&& r is Ok <==> st is Some
            &&& r matches Ok(t) ==> st == Some(t@)
        }),
        r matches Err(e) ==> no_syntax(e@),
        expr_skel(Expr::PairElem(*final(elem))) == expr_skel(Expr::PairElem(*old(elem))),
        r is Ok ==> expr_analysed(scope@, Expr::PairElem(*old(elem)), Expr::PairElem(*final(elem))),
    decreases **old(elem), 1nat,
{
    let first = match &**elem {
        PairElem::Fst(_) => true,
        PairElem::Snd(_) => false,
    };
    /* Gets type of thing being accessed. */
    let pair_type = match &mut **elem {
        PairElem::Fst(p) => p.analyse(scope, ()),
        PairElem::Snd(p) => p.analyse(scope, ()),
    }?;
    /* Gets type of left and right element of pair. */
    let (left_type, right_type) = match pair_type {
        Type::Pair(lt, rt) => (*lt, *rt),
        t => {
            return Err(SemanticError::Normal(msg_type("TYPE ERROR:\n\tExpected: Pair\n\tActual:", &t)));
        },
    };
    /* The element of the null literal cannot be accessed. */
    if left_type.is_any() && right_type.is_any() {
        return Err(SemanticError::Normal(to_string("Cannot access element of null-literal")));
    }
    /* Gets the type of the element being accessed. */
    let elem_type = if first {
        left_type
    } else {
        right_type
    };
    /* Stores this on the syntax tree. */
    match &mut **elem {
        PairElem::Fst(p) => {
            p.0 = elem_type.deep_clone();
        },
        PairElem::Snd(p) => {
            p.0 = elem_type.deep_clone();
        },
    }
    Ok(elem_type)
}

pub(crate) fn analyse_array_elem(elem: &mut ArrayElem, scope: &ScopeBuilder) -> (r: AResult<Type>)
    requires
        scopes_wf(scope@),
    ensures
        ({
            let ts = scope@;
            let st = match ident_type(ts, old(elem).0@) {
                Some(base) => index_through(base, exprs_types(ts, old(elem).1@)),
                None => None,
            };
            &&& r is Ok <==> st is Some
            &&& r matches Ok(t) ==> st == Some(t@)
        }),
        r matches Err(e) ==> no_syntax(e@),
        exprs_skel(final(elem).1@) == exprs_skel(old(elem).1@),
        final(elem).0@ == scope_rename(scope@, old(elem).0@),
        r is Ok ==> elems_analysed(scope@, old(elem).1@, final(elem).1@),
    decreases *old(elem), 1nat,
{
    let ghost ts = scope@;
    let ghost old_idx = elem.1@;
    let ghost k = elem.0@;
    /* Gets type of the array being looked up. */
    let mut curr_type = match scope.get(&mut elem.0) {
        Some(IdentInfo::LocalVar(t, _)) => t,
        Some(IdentInfo::Label(t, _)) => t,
        _ => {
            return Err(SemanticError::Normal(msg_ident("Use of undeclared variable: ", k_str(&elem.0))));
        },
    };
    let ghost base = curr_type@;
    let ghost types = exprs_types(ts, old_idx);
    proof {
        lemma_exprs_types(ts, old_idx);
        assert(types.skip(0) =~= types);
    }
    let n = elem.1.len();
    let mut i: usize = 0;
    /* For each index, unwrap the type by one array: x[1][2] is an int when x
    is an array of arrays of ints. */
    while i < n
        invariant
            n == old_idx.len(),
            elem.1@.len() == n,
            i <= n,
            forall|j: int| i <= j < n ==> elem.1@[j] == old_idx[j],
            forall|j: int| 0 <= j < i ==> expr_skel(#[trigger] elem.1@[j]) == expr_skel(old_idx[j]),
            exprs_skel(elem.1@) == exprs_skel(old_idx),
            elem.0@ == scope_rename(ts, k),
            k == old(elem).0@,
            elems_analysed(ts, old_idx.take(i as int), elem.1@.take(i as int)),
            scopes_wf(ts),
            ts == scope@,
            types == exprs_types(ts, old_idx),
            types.len() == n,
            ident_type(ts, old(elem).0@) == Some(base),
            index_through(base, types) == index_through(curr_type@, types.skip(i as int)),
            old_idx == old(elem).1@,
        decreases n - i,
    {
        proof {
            assert(decreases_to!(*old(elem) => old(elem).1));
            assert(decreases_to!(old(elem).1 => old(elem).1@));
            assert(decreases_to!(old(elem).1@ => old(elem).1@[i as int]));
        }
        let ghost before = elem.1@;
        let res = elem.1[i].analyse(scope, ());
        proof {
            assert(elem.1@.take(i as int) =~= before.take(i as int));
            lemma_exprs_skel_ext(elem.1@, old_idx);
            lemma_exprs_types(ts, old_idx);
            assert(types.skip(i as int)[0] == types[i as int]);
            assert(types.skip(i as int).drop_first() =~= types.skip(i + 1));
            assert(types[i as int] == expr_type(ts, old_idx[i as int]));
            assert(index_through(curr_type@, types.skip(i as int)) == match types[i as int] {
                Some(it) => if fits(SType::Int, it) {
                    match curr_type@ {
                        SType::Array(t) => index_through(*t, types.skip(i + 1)),
                        _ => None,
                    }
                } else {
                    None
                },
                None => None,
            });
        }
        check_expected(&Type::Int, res)?;
        proof {
            lemma_elems_analysed_step(ts, old_idx, elem.1@, i as int);
        }
        curr_type = match curr_type {
            Type::Array(t) => *t,
            t => {
                return Err(SemanticError::Normal(msg_type("Expected array, found ", &t)));
            },
        };
        i = i + 1;
    }
    proof {
        assert(types.skip(n as int) =~= Seq::<Option<SType>>::empty());
        assert(old_idx.take(n as int) =~= old_idx);
        assert(elem.1@.take(n as int) =~= elem.1@);
    }
    Ok(curr_type)
}

pub(crate) fn analyse_struct_elem(elem: &mut StructElem, scope: &ScopeBuilder) -> (r: AResult<Type>)
    requires
        scopes_wf(scope@),
    ensures
        ({
            let ts = scope@;
            let st = match expr_type(ts, *old(elem).1) {
                Some(SType::Custom(name)) => struct_field_type(ts, name, old(elem).2@),
                _ => None,
            };
            &&& r is Ok <==> st is Some
            &&& r matches Ok(t) ==> st == Some(t@)
        }),
        r matches Err(e) ==> no_syntax(e@),
        expr_skel(*final(elem).1) == expr_skel(*old(elem).1),
        final(elem).2 == old(elem).2,
        r is Ok ==> expr_analysed(scope@, *old(elem).1, *final(elem).1) && expr_type(scope@, *old(elem).1) == Some(
            SType::Custom(final(elem).0@),
        ),
    decreases *old(elem), 1nat,
{
    let t = elem.1.analyse(scope, ())?;
    match t {
        Type::Custom(name) => {
            let mut def_name = name.clone();
            match scope.get_def(&mut def_name) {
                Some(def) => {
                    match def.fields.get(elem.2.as_str()) {
                        Some(field) => {
                            /* Stores the struct's name on the syntax tree. */
                            elem.0 = name;
                            Ok(field.0.deep_clone())
                        },
                        None => Err(SemanticError::Normal(msg_ident("Struct has no field: ", k_str(&elem.2)))),
                    }
                },
                None => Err(SemanticError::Normal(msg_ident("Cannot find type: ", k_str(&name)))),
            }
        },
        t => Err(SemanticError::Normal(msg_type("TYPE ERROR:\n\tExpected: Struct\n\tActual: ", &t))),
    }
}

/* Checks the arguments of a call against the parameters of the function
type found for the called expression. */
fn analyse_call(scope: &ScopeBuilder, t: &mut Type, func_type: Type, args: &mut Vec<Expr>) -> (r:
    AResult<Type>)
    requires
        scopes_wf(scope@),
    ensures
        ({
            let ts = scope@;
            let st = match func_type@ {
                SType::Func(ps, ret) => call_type(ps, *ret, exprs_types(ts, old(args)@)),
                _ => None,
            };
            &&& r is Ok <==> st is Some
            &&& r matches Ok(rt) ==> st == Some(rt@)
        }),
        r matches Err(e) ==> no_syntax(e@),
        exprs_skel(final(args)@) == exprs_skel(old(args)@),
        r is Ok ==> final(t)@ == func_type@ && elems_analysed(scope@, old(args)@, final(args)@),
    decreases *old(args), 1nat,
{
    let ghost ts = scope@;
    let ghost old_args = args@;
    let ghost ft = func_type@;
    match func_type {
        Type::Func(bx) => {
            /* Populate the type in call. */
            *t = Type::Func(Box::new(bx.deep_clone()));
            proof {
                lemma_elems_analysed_empty(ts, old_args, args@);
            }
            let ghost ps = types_view(bx.param_types@);
            let ghost types = exprs_types(ts, old_args);
            proof {
                lemma_exprs_types(ts, old_args);
                lemma_types_view_len(bx.param_types@);
            }
            let n = args.len();
            let m = bx.param_types.len();
            let k = if n < m {
                n
            } else {
                m
            };
            /* Types must be pairwise the same. */
            let mut result: AResult<()> = Ok(());
            let mut i: usize = 0;
            while i < k
                invariant
                    k <= n,
                    k <= m,
                    n == old_args.len(),
                    m == bx.param_types@.len(),
                    ps == types_view(bx.param_types@),
                    ps.len() == m,
                    types == exprs_types(ts, old_args),
                    types.len() == n,
                    args@.len() == n,
                    i <= k,
                    forall|j: int| i <= j < n ==> args@[j] == old_args[j],
                    forall|j: int| 0 <= j < i ==> expr_skel(#[trigger] args@[j]) == expr_skel(old_args[j]),
                    t@ == ft,
                    result is Ok ==> elems_analysed(ts, old_args.take(i as int), args@.take(i as int)),
                    scopes_wf(ts),
                    ts == scope@,
                    result is Ok <==> forall|j: int|
                        0 <= j < i ==> (#[trigger] types[j] matches Some(at) && fits(ps[j], at)),
                    result matches Err(e) ==> no_syntax(e@),
                    old_args == old(args)@,
                decreases k - i,
            {
                proof {
                    assert(decreases_to!(*old(args) => old(args)@));
                    assert(decreases_to!(old(args)@ => old(args)@[i as int]));
                    lemma_types_view_index(bx.param_types@, i as int);
                }
                let ghost before = args@;
                let res = args[i].analyse(scope, ());
                proof {
                    assert(args@.take(i as int) =~= before.take(i as int));
                    if res is Ok {
                        if result is Ok {
                            lemma_elems_analysed_step(ts, old_args, args@, i as int);
                        }
                    }
                    lemma_exprs_types(ts, old_args);
                    assert(types[i as int] == expr_type(ts, old_args[i as int]));
                    assert(ps[i as int] == bx.param_types@[i as int]@);
                }
                let checked = check_expected(&bx.param_types[i], res);
                result = match (result, checked) {
                    (Ok(()), Ok(_)) => Ok(()),
                    (Err(a), Ok(_)) => Err(a),
                    (Ok(()), Err(b)) => Err(b),
                    (Err(a), Err(b)) => {
                        let ghost av = a@;
                        let ghost bv = b@;
                        assert(no_syntax(av));
                        assert(no_syntax(bv));
                        let j = SemanticError::Join(Box::new(a), Box::new(b));
                        assert(j@ == SError::Join(Box::new(av), Box::new(bv)));
                        assert(no_syntax(j@));
                        Err(j)
                    },
                };
                i = i + 1;
            }
            proof {
                lemma_exprs_skel_ext(args@, old_args);
                if k == n {
                    assert(old_args.take(n as int) =~= old_args);
                    assert(args@.take(n as int) =~= args@);
                }
            }
            result?;
            /* Must be same amount of args as parameters. */
            if m != n {
                Err(SemanticError::Normal(to_string("Function called with wrong amount of arguments.")))
            } else {
                Ok(bx.return_type)
            }
        },
        t => Err(SemanticError::Normal(msg_type("TYPE ERROR:\n\tExpected: Function\n\tActual: ", &t))),
    }
}

pub proof fn lemma_first_field(fs: Seq<(Ident, Expr)>, k: Seq<char>, i: int)
    requires
        0 <= i < fs.len(),
        fs[i].0@ == k,
        forall|j: int| 0 <= j < i ==> #[trigger] fs[j].0@ != k,
    ensures
        first_field(fs, k) == Some(i),
    decreases i,
{
    if i > 0 {
        assert forall|j: int| 0 <= j < i - 1 implies #[trigger] fs.drop_first()[j].0@ != k by {
            assert(fs.drop_first()[j] == fs[j + 1]);
        }
        lemma_first_field(fs.drop_first(), k, i - 1);
    }
}

pub proof fn lemma_first_field_none(fs: Seq<(Ident, Expr)>, k: Seq<char>)
    requires
        forall|j: int| 0 <= j < fs.len() ==> #[trigger] fs[j].0@ != k,
    ensures
        first_field(fs, k) is None,
    decreases fs.len(),
{
    if fs.len() > 0 {
        assert forall|j: int| 0 <= j < fs.len() - 1 implies #[trigger] fs.drop_first()[j].0@ != k by {
            assert(fs.drop_first()[j] == fs[j + 1]);
        }
        lemma_first_field_none(fs.drop_first(), k);
    }
}

pub proof fn lemma_first_field_found(fs: Seq<(Ident, Expr)>, k: Seq<char>)
    requires
        first_field(fs, k) is Some,
    ensures
        0 <= first_field(fs, k).unwrap() < fs.len(),
        fs[first_field(fs, k).unwrap()].0@ == k,
    decreases fs.len(),
{
    if fs[0].0@ != k {
        lemma_first_field_found(fs.drop_first(), k);
    }
}

/// Where the first field of a name is depends on the names alone.
pub proof fn lemma_first_field_names(a: Seq<(Ident, Expr)>, b: Seq<(Ident, Expr)>, k: Seq<char>)
    requires
        a.len() == b.len(),
        forall|j: int| 0 <= j < a.len() ==> #[trigger] a[j].0@ == b[j].0@,
    ensures
        first_field(a, k) == first_field(b, k),
    decreases a.len(),
{
    if a.len() > 0 {
        assert forall|j: int| 0 <= j < a.len() - 1 implies #[trigger] a.drop_first()[j].0@
            == b.drop_first()[j].0@ by {
            assert(a.drop_first()[j] == a[j + 1]);
            assert(b.drop_first()[j] == b[j + 1]);
        }
        assert(a[0].0@ == b[0].0@);
        lemma_first_field_names(a.drop_first(), b.drop_first(), k);
    }
}

/// Struct names are not renamed.
pub proof fn lemma_rename_typedef(ts: Seq<STable>, k: Seq<char>)
    requires
        scope_get(ts, k) matches Some(SIdentInfo::TypeDef(_)),
    ensures
        scope_rename(ts, k) == k,
    decreases ts.len(),
{
    if ts.len() > 0 && !ts.last().map.contains_key(k) {
        lemma_rename_typedef(ts.drop_last(), k);
    }
}

/* Position of the first field of a struct literal with the given name. */
fn find_field(fields: &Vec<(Ident, Expr)>, name: &str) -> (r: Option<usize>)
    ensures
        r is Some <==> first_field(fields@, name@) is Some,
        r matches Some(i) ==> first_field(fields@, name@) == Some(i as int),
{
    let mut i: usize = 0;
    while i < fields.len()
        invariant
            i <= fields@.len(),
            forall|j: int| 0 <= j < i ==> #[trigger] fields@[j].0@ != name@,
        decreases fields@.len() - i,
    {
        if str_eq(fields[i].0.as_str(), name) {
            proof {
                lemma_first_field(fields@, name@, i as int);
            }
            return Some(i);
        }
        i = i + 1;
    }
    proof {
        lemma_first_field_none(fields@, name@);
    }
    None
}

#[verifier::loop_isolation(false)]
fn analyse_struct_liter(lit: &mut StructLiter, scope: &ScopeBuilder) -> (r: AResult<Type>)
    requires
        scopes_wf(scope@),
    ensures
        ({
            let ts = scope@;
            let st = struct_liter_type(ts, old(lit).id@, old(lit).fields@, fields_types(ts, old(lit).fields@));
            &&& r is Ok <==> st is Some
            &&& r matches Ok(t) ==> st == Some(t@)
        }),
        r matches Err(e) ==> no_syntax(e@),
        fields_skel(final(lit).fields@) == fields_skel(old(lit).fields@),
        r is Ok ==> final(lit).id@ == old(lit).id@ && (scope_get(scope@, old(lit).id@) matches Some(
            SIdentInfo::TypeDef(def),
        ) && fields_analysed(scope@, def.fields, old(lit).fields@, final(lit).fields@)),
    decreases *old(lit), 1nat,
{
    let ghost ts = scope@;
    let ghost old_fields = lit.fields@;
    let ghost id0 = lit.id@;
    let ghost ftypes = fields_types(ts, old_fields);
    proof {
        lemma_fields_types(ts, old_fields);
    }
    /* Fetch struct definition. */
    let def = match scope.get_def(&mut lit.id) {
        Some(def) => {
            proof {
                lemma_rename_typedef(ts, id0);
            }
            def
        },
        None => {
            return Err(SemanticError::Normal(msg_ident("Cannot find type: ", k_str(&lit.id))));
        },
    };
    /* Make sure definition and usage have same number of fields. */
    if lit.fields.len() != def.fields.len() {
        return Err(
            SemanticError::Normal(
                to_string("Struct literal has different amount of errors to definition."),
            ),
        );
    }
    def.fields.lemma_distinct();
    let n = def.fields.len();
    let mut i: usize = 0;
    let ghost mut done: Set<int> = Set::empty();
    /* Check all fields evaluate to correct type. */
    while i < n
        invariant
            n == def.fields.spec_len(),
            i <= n,
            def.fields.keys_distinct(),
            lit.fields@.len() == old_fields.len(),
            lit.id@ == id0,
            forall|j: int|
                0 <= j < old_fields.len() ==> #[trigger] lit.fields@[j].0@ == old_fields[j].0@,
            forall|j: int|
                0 <= j < old_fields.len() ==> expr_skel(#[trigger] lit.fields@[j].1) == expr_skel(old_fields[j].1),
            fields_skel(lit.fields@) == fields_skel(old_fields),
            forall|q: int|
                0 <= q < i ==> done.contains(
                    (#[trigger] first_field(old_fields, def.fields.spec_entries()[q].0)).unwrap(),
                ),
            forall|d: int|
                #[trigger] done.contains(d) ==> 0 <= d < old_fields.len() && expr_analysed(
                    ts,
                    old_fields[d].1,
                    lit.fields@[d].1,
                ),
            forall|j: int|
                0 <= j < old_fields.len() && !done.contains(j) ==> #[trigger] lit.fields@[j]
                    == old_fields[j],
            forall|d: int|
                #[trigger] done.contains(d) ==> exists|q: int|
                    0 <= q < i && first_field(old_fields, def.fields.spec_entries()[q].0) == Some(
                        d,
                    ),
            forall|q: int|
                0 <= q < i ==> (#[trigger] first_field(old_fields, def.fields.spec_entries()[q].0)
                    matches Some(j) && ftypes[j] matches Some(at) && fits(
                    def.fields.spec_entries()[q].1.0@,
                    at,
                )),
        decreases n - i,
    {
        let (field_name, entry) = def.fields.entry_at(i);
        /* Get expression this field is to be set to. */
        proof {
            let key = def.fields.spec_entries()[i as int].0;
            lemma_first_field_names(lit.fields@, old_fields, key);
            assert(def.fields.has_key(key));
            assert(def@.fields.contains_key(key));
        }
        let j = match find_field(&lit.fields, field_name.as_str()) {
            Some(j) => j,
            None => {
                return Err(
                    SemanticError::Normal(
                        msg_ident("Struct literal missing expression for field: ", k_str(field_name)),
                    ),
                );
            },
        };
        proof {
            let key = def.fields.spec_entries()[i as int].0;
            lemma_first_field_found(old_fields, key);
            if done.contains(j as int) {
                let q = choose|q: int|
                    0 <= q < i && first_field(old_fields, def.fields.spec_entries()[q].0) == Some(
                        j as int,
                    );
                lemma_first_field_found(old_fields, def.fields.spec_entries()[q].0);
                lemma_first_field_found(old_fields, key);
                assert(def.fields.spec_entries()[q].0 != def.fields.spec_entries()[i as int].0);
            }
            assert(decreases_to!(*old(lit) => old(lit).fields));
            assert(decreases_to!(old(lit).fields => old(lit).fields@));
            assert(decreases_to!(old(lit).fields@ => old(lit).fields@[j as int]));
            assert(decreases_to!(old(lit).fields@[j as int] => old(lit).fields@[j as int].1));
        }
        /* Assert its type is the same as the field is expecting. */
        let ghost before = lit.fields@;
        let res = lit.fields[j].1.analyse(scope, ());
        proof {
            lemma_fields_skel_ext(lit.fields@, old_fields);
        }
        check_expected(&entry.0, res)?;
        proof {
            assert(before[j as int] == old_fields[j as int]);
            assert forall|d: int| #[trigger] done.contains(d) implies 0 <= d < old_fields.len() && expr_analysed(
                ts,
                old_fields[d].1,
                lit.fields@[d].1,
            ) by {
                assert(d != j);
                assert(lit.fields@[d] == before[d]);
            }
            done = done.insert(j as int);
        }
        i = i + 1;
    }
    proof {
        let def_v = def@;
        let fs = old_fields;
        let ns = lit.fields@;
        assert forall|j: int|
            0 <= j < fs.len() implies if def_v.fields.contains_key(fs[j].0@) && first_of_name(fs, j) {
            expr_analysed(ts, fs[j].1, (#[trigger] ns[j]).1)
        } else {
            ns[j].1 == fs[j].1
        } by {
            let key = fs[j].0@;
            if def_v.fields.contains_key(key) && first_of_name(fs, j) {
                assert(def.fields.has_key(key));
                let q = def.fields.key_index(key);
                assert(def.fields.spec_entries()[q].0 == key);
                assert forall|m: int| 0 <= m < j implies #[trigger] fs[m].0@ != key by {
                    assert(fs[m].0@ != fs[j].0@);
                }
                lemma_first_field(fs, key, j);
                assert(done.contains(first_field(fs, def.fields.spec_entries()[q].0).unwrap()));
            } else if done.contains(j) {
                let q = choose|q: int|
                    0 <= q < n && first_field(old_fields, def.fields.spec_entries()[q].0) == Some(j);
                let k2 = def.fields.spec_entries()[q].0;
                lemma_first_field_found(fs, k2);
                lemma_first_field_first(fs, k2, j);
                def.fields.lemma_get_at(q);
                assert(def_v.fields.contains_key(key));
                assert forall|m: int| 0 <= m < j implies #[trigger] fs[m].0@ != fs[j].0@ by {}
                assert(first_of_name(fs, j));
            }
        }
        lemma_fields_analysed(ts, def_v.fields, fs, ns);
        assert forall|k: Seq<char>| #[trigger] def_v.fields.contains_key(k) implies (first_field(
            old_fields,
            k,
        ) matches Some(j) && ftypes[j] matches Some(at) && fits(def_v.fields[k].0, at)) by {
            let q = def.fields.key_index(k);
            def.fields.lemma_get_at(q);
        }
    }
    Ok(Type::Custom(lit.id.clone()))
}

} // verus!
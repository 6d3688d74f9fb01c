use vstd::prelude::*;

use super::shared::{comment_or_ws, ident, ident_spec, tok, tok_spec, ws_end};
use super::ParseError;
use crate::text::to_string;
use super::stat::{fresh_stat, stat, stat_spec};
use super::type_::{func_type, func_type_spec, parsed_type, type_, type_spec};
use crate::analyser::context::{IdentInfo, SymbolTable};
use crate::ast::{lemma_types_view_push, spec_size, stat_shape, types_view, SStat, Stat, Func, FuncSig, Ident, Program, SType, ScopedStat, Struct, Type};

verus! {

/// A function as the parser builds it.
pub open spec fn fresh_func(f: Func) -> bool {
    &&& f.params_st.is_blank()
    &&& f.body_st.is_blank()
    &&& forall|i: int| 0 <= i < f.signature.param_types@.len() ==> parsed_type(#[trigger] f.signature.param_types@[i])
    &&& fresh_stat(f.body)
}

/// A program as the parser builds it: fresh functions and main statement,
/// and a global table holding only struct definitions.
pub open spec fn fresh_program(p: Program) -> bool {
    &&& forall|i: int| 0 <= i < p.funcs@.len() ==> fresh_func(#[trigger] p.funcs@[i])
    &&& p.statement.0.is_blank()
    &&& fresh_stat(*p.statement.1)
    &&& p.symbol_table.size == 0
    &&& forall|k: Seq<char>| #[trigger] p.symbol_table.table.has_key(k) ==> p.symbol_table.table.spec_get(k).unwrap() is TypeDef
}

/// Each parameter by the value of its type and the characters of its name.
pub open spec fn params_view(ps: Seq<(Type, Ident)>) -> Seq<(SType, Seq<char>)> {
    ps.map_values(|x: (Type, Ident)| (x.0@, x.1@))
}

/// The parameter named after a type: the name read after `t` at `p`.
pub open spec fn named_spec(s: Seq<char>, t: Option<(SType, int)>) -> Option<((SType, Seq<char>), int)> {
    match t {
        Some((t, q)) => match ident_spec(s, q) {
            Some((id, q1)) => Some(((t, id), q1)),
            None => None,
        },
        None => None,
    }
}

/// What `param` reads: a function type and a name or, failing that, a
/// type and a name.
pub open spec fn param_spec(s: Seq<char>, p: int) -> Option<((SType, Seq<char>), int)> {
    match named_spec(s, func_type_spec(s, p)) {
        Some(r) => Some(r),
        None => named_spec(s, type_spec(s, p)),
    }
}

/// The parameters after the first of a list, each after ',', as long as
/// both read; appended to `acc`.
pub open spec fn more_params_spec(s: Seq<char>, p: int, acc: Seq<(SType, Seq<char>)>) -> (Seq<(SType, Seq<char>)>, int)
    decreases s.len() - p,
{
    match tok_spec(s, p, ","@) {
        Some(q1) => match param_spec(s, q1) {
            Some((x, q2)) => if p < q2 <= s.len() {
                more_params_spec(s, q2, acc.push(x))
            } else {
                (acc, p)
            },
            None => (acc, p),
        },
        None => (acc, p),
    }
}

/// What `param_list` reads: a comma separated list of parameters,
/// possibly empty.
pub open spec fn param_list_spec(s: Seq<char>, p: int) -> (Seq<(SType, Seq<char>)>, int) {
    match param_spec(s, p) {
        Some((x, q)) => more_params_spec(s, q, seq![x]),
        None => (Seq::empty(), p),
    }
}

proof fn lemma_params_view_push(ps: Seq<(Type, Ident)>, x: (Type, Ident))
    ensures
        params_view(ps.push(x)) == params_view(ps).push((x.0@, x.1@)),
{
    assert(params_view(ps.push(x)) =~= params_view(ps).push((x.0@, x.1@)));
}

/* param ::= (<func-type> | <type>) <ident> */
pub fn param(s: &Vec<char>, p: usize) -> (r: Option<((Type, Ident), usize)>)
    requires
        p <= s@.len(),
    ensures
        r matches Some((pr, q)) ==> p < q <= s@.len() && parsed_type(pr.0),
        match param_spec(s@, p as int) {
            Some(((t, id), q)) => r matches Some(((rt, rid), rq)) && rt@ == t && rid@ == id && rq == q,
            None => r is None,
        },
{
    if let Some((t, q)) = func_type(s, p) {
        if let Some((id, q)) = ident(s, q) {
            return Some(((t, id), q));
        }
    }
    let (t, q) = type_(s, p)?;
    let (id, q) = ident(s, q)?;
    Some(((t, id), q))
}

/* param-list ::= <param> (',' <param>)* */
pub fn param_list(s: &Vec<char>, p: usize) -> (r: (Vec<(Type, Ident)>, usize))
    requires
        p <= s@.len(),
    ensures
        p <= r.1 <= s@.len(),
        forall|i: int| 0 <= i < r.0@.len() ==> parsed_type(#[trigger] r.0@[i].0),
        (params_view(r.0@), r.1 as int) == param_list_spec(s@, p as int),
{
    let mut ps: Vec<(Type, Ident)> = Vec::new();
    let (first, mut q) = match param(s, p) {
        Some(r) => r,
        None => {
            proof {
                assert(params_view(ps@) =~= Seq::<(SType, Seq<char>)>::empty());
            }
            return (ps, p);
        },
    };
    proof {
        lemma_params_view_push(ps@, first);
        assert(params_view(ps@.push(first)) =~= seq![(first.0@, first.1@)]);
    }
    ps.push(first);
    loop
        invariant
            p < q <= s@.len(),
            forall|i: int| 0 <= i < ps@.len() ==> parsed_type(#[trigger] ps@[i].0),
            param_list_spec(s@, p as int) == more_params_spec(s@, q as int, params_view(ps@)),
        ensures
            p < q <= s@.len(),
            forall|i: int| 0 <= i < ps@.len() ==> parsed_type(#[trigger] ps@[i].0),
            param_list_spec(s@, p as int) == (params_view(ps@), q as int),
        decreases s@.len() - q,
    {
        proof {
            reveal_strlit(",");
        }
        match tok(s, q, ",") {
            Some(q1) => match param(s, q1) {
                Some((pr, q2)) => {
                    proof {
                        lemma_params_view_push(ps@, pr);
                    }
                    ps.push(pr);
                    q = q2;
                },
                None => {
                    break;
                },
            },
            None => {
                break;
            },
        }
    }
    (ps, q)
}

/// The size of a field of type `t`: a byte for a boolean or a character,
/// four bytes for anything else.
pub open spec fn stype_size(t: SType) -> int {
    match t {
        SType::Bool | SType::Char => 1,
        _ => 4,
    }
}

/// The fields of a struct whose fields `fs` are added in order, each at the
/// size reached before it, by name with their types and offsets; and the
/// size of the whole. A name given twice keeps its later place.
pub open spec fn struct_layout(fs: Seq<(SType, Seq<char>)>) -> (Map<Seq<char>, (SType, int)>, int)
    decreases fs.len(),
{
    if fs.len() == 0 {
        (Map::empty(), 0)
    } else {
        let (m, size) = struct_layout(fs.drop_last());
        (m.insert(fs.last().1, (fs.last().0, size)), size + stype_size(fs.last().0))
    }
}

/// `d` holds the fields and size that `struct_layout` gives for `fs`.
pub open spec fn struct_built(d: Struct, fs: Seq<(SType, Seq<char>)>) -> bool {
    &&& d.size == struct_layout(fs).1
    &&& forall|k: Seq<char>| #[trigger] d.fields.has_key(k) == struct_layout(fs).0.contains_key(k)
    &&& forall|k: Seq<char>|
        #[trigger] struct_layout(fs).0.contains_key(k) ==> (d.fields.spec_get(k) matches Some((t, o)) && t@
            == struct_layout(fs).0[k].0 && o == struct_layout(fs).0[k].1)
}

/// What `type_def` reads: 'struct' <ident> '{' <param-list> '}', the name
/// and the fields, when the struct's size fits in an `i32`.
pub open spec fn type_def_spec(s: Seq<char>, p: int) -> Option<((Seq<char>, Seq<(SType, Seq<char>)>), int)> {
    match tok_spec(s, p, "struct"@) {
        None => None,
        Some(q) => match ident_spec(s, q) {
            None => None,
            Some((id, q1)) => match tok_spec(s, q1, "{"@) {
                None => None,
                Some(q2) => {
                    let (fs, q3) = param_list_spec(s, q2);
                    match tok_spec(s, q3, "}"@) {
                        None => None,
                        Some(q4) => if struct_layout(fs).1 <= i32::MAX {
                            Some(((id, fs), q4))
                        } else {
                            None
                        },
                    }
                },
            },
        },
    }
}

proof fn lemma_size_view(t: Type)
    ensures
        spec_size(t) == stype_size(t@),
{
}

/// A struct only grows as fields are added.
proof fn lemma_layout_grows(fs: Seq<(SType, Seq<char>)>, i: int, j: int)
    requires
        0 <= i <= j <= fs.len(),
    ensures
        0 <= struct_layout(fs.take(i)).1 <= struct_layout(fs.take(j)).1,
    decreases j,
{
    if j > 0 {
        assert(fs.take(j).drop_last() =~= fs.take(j - 1));
        if i < j {
            lemma_layout_grows(fs, i, j - 1);
        } else {
            lemma_layout_grows(fs, i - 1, j - 1);
        }
    }
}

/* type-def ::= 'struct' <ident> '{' <param-list>? '}' */
fn type_def(s: &Vec<char>, p: usize) -> (r: Option<((Ident, Struct), usize)>)
    requires
        p <= s@.len(),
    ensures
        r matches Some((_, q)) ==> p < q <= s@.len(),
        match type_def_spec(s@, p as int) {
            Some(((id, fs), q)) => r matches Some(((rid, def), rq)) && rid@ == id && struct_built(def, fs) && rq == q,
            None => r is None,
        },
{
    proof {
        reveal_strlit("struct");
        reveal_strlit("{");
        reveal_strlit("}");
    }
    let q = tok(s, p, "struct")?;
    let (id, q) = ident(s, q)?;
    let q = tok(s, q, "{")?;
    let (fields, q) = param_list(s, q);
    let q = tok(s, q, "}")?;
    let ghost fs = params_view(fields@);
    /* Adds all fields to a struct definition. */
    let mut def = Struct::new();
    let mut i: usize = 0;
    proof {
        assert(fs.take(0) =~= Seq::<(SType, Seq<char>)>::empty());
        assert(type_def_spec(s@, p as int) == (if struct_layout(fs).1 <= i32::MAX {
            Some(((id@, fs), q as int))
        } else {
            None
        }));
    }
    while i < fields.len()
        invariant
            i <= fields@.len(),
            fs == params_view(fields@),
            forall|j: int| 0 <= j < fields@.len() ==> parsed_type(#[trigger] fields@[j].0),
            struct_built(def, fs.take(i as int)),
            type_def_spec(s@, p as int) == (if struct_layout(fs).1 <= i32::MAX {
                Some(((id@, fs), q as int))
            } else {
                None
            }),
        decreases fields@.len() - i,
    {
        let (t, f) = &fields[i];
        proof {
            lemma_layout_grows(fs, 0, i as int);
            lemma_size_view(*t);
            assert(fs.take(i + 1).drop_last() =~= fs.take(i as int));
        }
        if def.size > i32::MAX - t.size() {
            /* The struct would not fit in memory. */
            proof {
                assert(fs[i as int].0 == t@);
                assert(struct_layout(fs.take(i + 1)).1 == def.size + spec_size(*t));
                lemma_layout_grows(fs, i + 1, fs.len() as int);
                assert(fs.take(fs.len() as int) =~= fs);
            }
            return None;
        }
        let tc = t.deep_clone();
        proof {
            lemma_size_view(tc);
        }
        let ghost before = def;
        let _replaced = def.add_field(tc, f.clone());
        proof {
            let fs1 = fs.take(i + 1);
            assert(fs1.last() == fs[i as int]);
            assert forall|k: Seq<char>| #[trigger] struct_layout(fs1).0.contains_key(k) implies (def.fields.spec_get(k) matches Some((
                t,
                o,
            )) && t@ == struct_layout(fs1).0[k].0 && o == struct_layout(fs1).0[k].1) by {
                if k != f@ {
                    assert(before.fields.has_key(k));
                }
            }
            assert forall|k: Seq<char>| #[trigger] def.fields.has_key(k) == struct_layout(fs1).0.contains_key(k) by {
                if k != f@ {
                    assert(def.fields.spec_get(k) == before.fields.spec_get(k));
                    assert(before.fields.has_key(k) == struct_layout(fs.take(i as int)).0.contains_key(k));
                } else {
                    assert(def.fields.spec_get(k) is Some);
                }
            }
        }
        i = i + 1;
    }
    proof {
        assert(fs.take(fields@.len() as int) =~= fs);
    }
    Some(((id, def), q))
}

/// Mathematical value of a function as the parser builds it.
pub struct SFunc {
    pub ident: Seq<char>,
    pub param_types: Seq<SType>,
    pub param_ids: Seq<Seq<char>>,
    pub return_type: SType,
    pub body: SStat,
}

/// Names by their characters.
pub open spec fn idents_view(ids: Seq<Ident>) -> Seq<Seq<char>> {
    Seq::new(ids.len(), |i: int| ids[i]@)
}

/// The types of a list of parameters.
pub open spec fn param_types_of(ps: Seq<(SType, Seq<char>)>) -> Seq<SType> {
    Seq::new(ps.len(), |i: int| ps[i].0)
}

/// The names of a list of parameters.
pub open spec fn param_ids_of(ps: Seq<(SType, Seq<char>)>) -> Seq<Seq<char>> {
    Seq::new(ps.len(), |i: int| ps[i].1)
}

/// The value of a function: its name, parameters, return type and body.
pub open spec fn func_shape(f: Func) -> SFunc {
    SFunc {
        ident: f.ident@,
        param_types: types_view(f.signature.param_types@),
        param_ids: idents_view(f.param_ids@),
        return_type: f.signature.return_type@,
        body: stat_shape(f.body),
    }
}

/// What `func` reads: '(' <param-list> ')' 'is' <stat> 'end', the
/// parameters and the body of a function.
pub open spec fn func_spec(s: Seq<char>, p: int) -> Option<((Seq<(SType, Seq<char>)>, SStat), int)> {
    match tok_spec(s, p, "("@) {
        None => None,
        Some(q) => {
            let (ps, q1) = param_list_spec(s, q);
            match tok_spec(s, q1, ")"@) {
                None => None,
                Some(q2) => match tok_spec(s, q2, "is"@) {
                    None => None,
                    Some(q3) => match stat_spec(s, q3) {
                        None => None,
                        Some((body, q4)) => match tok_spec(s, q4, "end"@) {
                            None => None,
                            Some(q5) => Some(((ps, body), q5)),
                        },
                    },
                },
            }
        },
    }
}

/// What `named_func` reads: <type> <ident>, then what `func` reads.
pub open spec fn named_func_spec(s: Seq<char>, p: int) -> Option<(SFunc, int)> {
    match type_spec(s, p) {
        None => None,
        Some((rt, q)) => match ident_spec(s, q) {
            None => None,
            Some((id, q1)) => match func_spec(s, q1) {
                None => None,
                Some(((ps, body), q2)) => Some((
                    SFunc {
                        ident: id,
                        param_types: param_types_of(ps),
                        param_ids: param_ids_of(ps),
                        return_type: rt,
                        body,
                    },
                    q2,
                )),
            },
        },
    }
}

/* func ::= '(' <param-list>? ')' 'is' <stat> 'end' */
pub fn func(s: &Vec<char>, p: usize) -> (r: Option<((Vec<(Type, Ident)>, Stat), usize)>)
    requires
        p <= s@.len(),
    ensures
        r matches Some(((ps, body), q)) ==> p < q <= s@.len() && fresh_stat(body) && forall|i: int|
            0 <= i < ps@.len() ==> parsed_type(#[trigger] ps@[i].0),
        match func_spec(s@, p as int) {
            Some(((ps, body), q)) => r matches Some(((rps, rbody), rq)) && params_view(rps@) == ps && stat_shape(
                rbody,
            ) == body && rq == q,
            None => r is None,
        },
{
    proof {
        reveal_strlit("(");
        reveal_strlit(")");
        reveal_strlit("is");
        reveal_strlit("end");
    }
    let q = tok(s, p, "(")?;
    let (params, q) = param_list(s, q);
    let q = tok(s, q, ")")?;
    let q = tok(s, q, "is")?;
    let (body, q) = stat(s, q)?;
    let q = tok(s, q, "end")?;
    Some(((params, body), q))
}

/* func ::= <type> <ident> '(' <param-list>? ')' 'is' <stat> 'end' */
pub fn named_func(s: &Vec<char>, p: usize) -> (r: Option<(Func, usize)>)
    requires
        p <= s@.len(),
    ensures
        r matches Some((f, q)) ==> p < q <= s@.len() && fresh_func(f),
        match named_func_spec(s@, p as int) {
            Some((sf, q)) => r matches Some((f, rq)) && func_shape(f) == sf && rq == q,
            None => r is None,
        },
{
    let (return_type, q) = type_(s, p)?;
    let (id, q) = ident(s, q)?;
    let ((params, body), q) = func(s, q)?;
    let ghost ps = params_view(params@);
    let ghost expected = SFunc {
        ident: id@,
        param_types: param_types_of(ps),
        param_ids: param_ids_of(ps),
        return_type: return_type@,
        body: stat_shape(body),
    };
    let mut param_types: Vec<Type> = Vec::new();
    let mut param_ids: Vec<Ident> = Vec::new();
    let mut i: usize = 0;
    proof {
        assert(types_view(param_types@) =~= param_types_of(ps.take(0)));
        assert(idents_view(param_ids@) =~= param_ids_of(ps.take(0)));
    }
    while i < params.len()
        invariant
            i <= params@.len(),
            param_types@.len() == i,
            ps == params_view(params@),
            forall|j: int| 0 <= j < params@.len() ==> parsed_type(#[trigger] params@[j].0),
            forall|j: int| 0 <= j < i ==> parsed_type(#[trigger] param_types@[j]),
            types_view(param_types@) == param_types_of(ps.take(i as int)),
            idents_view(param_ids@) == param_ids_of(ps.take(i as int)),
        decreases params@.len() - i,
    {
        let t = params[i].0.deep_clone();
        let n = params[i].1.clone();
        proof {
            assert(t@ == params@[i as int].0@);
            assert(!(params@[i as int].0 is Any));
            lemma_types_view_push(param_types@, t);
            assert(param_types_of(ps.take(i + 1)) =~= param_types_of(ps.take(i as int)).push(ps[i as int].0));
            assert(param_ids_of(ps.take(i + 1)) =~= param_ids_of(ps.take(i as int)).push(ps[i as int].1));
            assert(idents_view(param_ids@.push(n)) =~= idents_view(param_ids@).push(n@));
        }
        param_types.push(t);
        param_ids.push(n);
        i = i + 1;
    }
    proof {
        assert(ps.take(params@.len() as int) =~= ps);
    }
    let f = Func {
        ident: id,
        param_ids,
        signature: FuncSig { param_types, return_type },
        body,
        params_st: SymbolTable::default_table(),
        body_st: SymbolTable::default_table(),
    };
    proof {
        assert(func_shape(f) == expected);
    }
    Some((f, q))
}

/// Mathematical value of a program as the parser reads it: its struct
/// definitions in order, each a name and its fields, its functions and its
/// main statement.
pub struct SProgram {
    pub type_defs: Seq<(Seq<char>, Seq<(SType, Seq<char>)>)>,
    pub funcs: Seq<SFunc>,
    pub statement: SStat,
}

/// The struct definitions read one after another at `p`, appended to `acc`.
pub open spec fn type_defs_spec(s: Seq<char>, p: int, acc: Seq<(Seq<char>, Seq<(SType, Seq<char>)>)>) -> (Seq<(Seq<char>, Seq<(SType, Seq<char>)>)>, int)
    decreases s.len() - p,
{
    match type_def_spec(s, p) {
        Some((d, q)) => if p < q <= s.len() {
            type_defs_spec(s, q, acc.push(d))
        } else {
            (acc, p)
        },
        None => (acc, p),
    }
}

/// The functions read one after another at `p`, appended to `acc`.
pub open spec fn funcs_spec(s: Seq<char>, p: int, acc: Seq<SFunc>) -> (Seq<SFunc>, int)
    decreases s.len() - p,
{
    match named_func_spec(s, p) {
        Some((f, q)) => if p < q <= s.len() {
            funcs_spec(s, q, acc.push(f))
        } else {
            (acc, p)
        },
        None => (acc, p),
    }
}

/// What `program` reads: white space and comments, 'begin', the struct
/// definitions, the functions, the main statement and 'end'.
pub open spec fn program_spec(s: Seq<char>, p: int) -> Option<(SProgram, int)> {
    match tok_spec(s, ws_end(s, p), "begin"@) {
        None => None,
        Some(q) => {
            let (tds, q1) = type_defs_spec(s, q, Seq::empty());
            let (fs, q2) = funcs_spec(s, q1, Seq::empty());
            match stat_spec(s, q2) {
                None => None,
                Some((st, q3)) => match tok_spec(s, q3, "end"@) {
                    None => None,
                    Some(q4) => Some((SProgram { type_defs: tds, funcs: fs, statement: st }, q4)),
                },
            }
        },
    }
}

/// The fields of each struct name, the later definition of a name standing.
pub open spec fn type_defs_table(tds: Seq<(Seq<char>, Seq<(SType, Seq<char>)>)>) -> Map<Seq<char>, Seq<(SType, Seq<char>)>>
    decreases tds.len(),
{
    if tds.len() == 0 {
        Map::empty()
    } else {
        type_defs_table(tds.drop_last()).insert(tds.last().0, tds.last().1)
    }
}

/// `st` holds exactly the struct definitions `tds`, each built from its fields.
pub open spec fn table_holds(st: SymbolTable, tds: Seq<(Seq<char>, Seq<(SType, Seq<char>)>)>) -> bool {
    &&& forall|k: Seq<char>| #[trigger] st.table.has_key(k) == type_defs_table(tds).contains_key(k)
    &&& forall|k: Seq<char>|
        #[trigger] type_defs_table(tds).contains_key(k) ==> (st.table.spec_get(k) matches Some(
            IdentInfo::TypeDef(d),
        ) && struct_built(d, type_defs_table(tds)[k]))
}

/// Functions by their values.
pub open spec fn funcs_view(fs: Seq<Func>) -> Seq<SFunc> {
    Seq::new(fs.len(), |i: int| func_shape(fs[i]))
}

/// `prog` is the program `sp` describes.
pub open spec fn program_shape(prog: Program, sp: SProgram) -> bool {
    &&& funcs_view(prog.funcs@) == sp.funcs
    &&& stat_shape(*prog.statement.1) == sp.statement
    &&& table_holds(prog.symbol_table, sp.type_defs)
}

/* program ::= 'begin' <type-def>* <func>* <stat> 'end' */
pub fn program(s: &Vec<char>, p: usize) -> (r: Option<(Program, usize)>)
    requires
        p <= s@.len(),
    ensures
        r matches Some((prog, q)) ==> p < q <= s@.len() && fresh_program(prog),
        match program_spec(s@, p as int) {
            Some((sp, q)) => r matches Some((prog, rq)) && program_shape(prog, sp) && rq == q,
            None => r is None,
        },
{
    match program_or_error(s, p) {
        Ok(r) => Some(r),
        Err(_) => None,
    }
}

/// Where reading a program at `p` stops, and what was expected there, when
/// it does not read: 'begin', the main statement (after the struct
/// definitions and functions that read), or 'end' after it.
pub open spec fn program_failure(s: Seq<char>, p: int) -> (int, Seq<char>) {
    let q = ws_end(s, p);
    match tok_spec(s, q, "begin"@) {
        None => (q, "expected 'begin'"@),
        Some(q0) => {
            let (_, q1) = type_defs_spec(s, q0, Seq::empty());
            let (_, q2) = funcs_spec(s, q1, Seq::empty());
            match stat_spec(s, q2) {
                None => (q2, "expected a statement"@),
                Some((_, q3)) => (q3, "expected 'end'"@),
            }
        },
    }
}

/* As `program`, saying where and why it stops when the program does not
read. */
pub fn program_or_error(s: &Vec<char>, p: usize) -> (r: Result<(Program, usize), ParseError>)
    requires
        p <= s@.len(),
    ensures
        r matches Ok((prog, q)) ==> p < q <= s@.len() && fresh_program(prog),
        match program_spec(s@, p as int) {
            Some((sp, q)) => r matches Ok((prog, rq)) && program_shape(prog, sp) && rq == q,
            None => r matches Err(e) && e.position == program_failure(s@, p as int).0 && e.message@
                == program_failure(s@, p as int).1,
        },
{
    proof {
        reveal_strlit("begin");
        reveal_strlit("end");
        reveal_strlit("expected 'begin'");
        reveal_strlit("expected a statement");
        reveal_strlit("expected 'end'");
    }
    let q = comment_or_ws(s, p);
    let mut q = match tok(s, q, "begin") {
        Some(q) => q,
        None => {
            return Err(ParseError { position: q, message: to_string("expected 'begin'") });
        },
    };
    let ghost q0 = q as int;
    let ghost mut tds: Seq<(Seq<char>, Seq<(SType, Seq<char>)>)> = Seq::empty();
    /* Struct definitions go in the global table. */
    let mut symbol_table = SymbolTable::default_table();
    loop
        invariant
            p < q0 <= q <= s@.len(),
            symbol_table.size == 0,
            forall|k: Seq<char>| #[trigger] symbol_table.table.has_key(k) ==> symbol_table.table.spec_get(k).unwrap() is TypeDef,
            type_defs_spec(s@, q0, Seq::empty()) == type_defs_spec(s@, q as int, tds),
            table_holds(symbol_table, tds),
        ensures
            p < q0 <= q <= s@.len(),
            symbol_table.size == 0,
            forall|k: Seq<char>| #[trigger] symbol_table.table.has_key(k) ==> symbol_table.table.spec_get(k).unwrap() is TypeDef,
            type_defs_spec(s@, q0, Seq::empty()) == (tds, q as int),
            table_holds(symbol_table, tds),
        decreases s@.len() - q,
    {
        match type_def(s, q) {
            Some(((name, def), q2)) => {
                let ghost old_st = symbol_table;
                let ghost nm = name@;
                let ghost fs = type_def_spec(s@, q as int).unwrap().0.1;
                symbol_table.table.insert(name, IdentInfo::TypeDef(def));
                proof {
                    let tds2 = tds.push((nm, fs));
                    assert(tds2.drop_last() =~= tds);
                    assert forall|k: Seq<char>| #[trigger] symbol_table.table.has_key(k) implies symbol_table.table.spec_get(k).unwrap() is TypeDef by {
                        if k != nm {
                            assert(symbol_table.table.spec_get(k) == old_st.table.spec_get(k));
                        }
                    }
                    assert forall|k: Seq<char>| #[trigger] symbol_table.table.has_key(k) == type_defs_table(tds2).contains_key(k) by {
                        if k != nm {
                            assert(symbol_table.table.spec_get(k) == old_st.table.spec_get(k));
                            assert(old_st.table.has_key(k) == type_defs_table(tds).contains_key(k));
                        } else {
                            assert(symbol_table.table.spec_get(k) is Some);
                        }
                    }
                    assert forall|k: Seq<char>| #[trigger] type_defs_table(tds2).contains_key(k) implies (symbol_table.table.spec_get(k) matches Some(
                        IdentInfo::TypeDef(d),
                    ) && struct_built(d, type_defs_table(tds2)[k])) by {
                        if k != nm {
                            assert(symbol_table.table.spec_get(k) == old_st.table.spec_get(k));
                            assert(type_defs_table(tds).contains_key(k));
                        }
                    }
                    tds = tds2;
                }
                q = q2;
            },
            None => {
                break;
            },
        }
    }
    let ghost q1 = q as int;
    let mut funcs: Vec<Func> = Vec::new();
    proof {
        assert(funcs_view(funcs@) =~= Seq::<SFunc>::empty());
    }
    loop
        invariant
            p < q1 <= q <= s@.len(),
            forall|i: int| 0 <= i < funcs@.len() ==> fresh_func(#[trigger] funcs@[i]),
            funcs_spec(s@, q1, Seq::empty()) == funcs_spec(s@, q as int, funcs_view(funcs@)),
        ensures
            p < q1 <= q <= s@.len(),
            forall|i: int| 0 <= i < funcs@.len() ==> fresh_func(#[trigger] funcs@[i]),
            funcs_spec(s@, q1, Seq::empty()) == (funcs_view(funcs@), q as int),
        decreases s@.len() - q,
    {
        match named_func(s, q) {
            Some((f, q2)) => {
                proof {
                    assert(funcs_view(funcs@.push(f)) =~= funcs_view(funcs@).push(func_shape(f)));
                }
                funcs.push(f);
                q = q2;
            },
            None => {
                break;
            },
        }
    }
    let (statement, q) = match stat(s, q) {
        Some(r) => r,
        None => {
            return Err(ParseError { position: q, message: to_string("expected a statement") });
        },
    };
    let q = match tok(s, q, "end") {
        Some(q2) => q2,
        None => {
            return Err(ParseError { position: q, message: to_string("expected 'end'") });
        },
    };
    let prog = Program { funcs, statement: ScopedStat::new(statement), symbol_table };
    Ok((prog, q))
}

} // verus!

use vstd::prelude::*;

use super::context::{
    declare, enter, scope_rename, lemma_declare_wf, lemma_enter_wf, lemma_total_size_nonneg, scopes_wf,
    table_wf, total_size, ScopeBuilder, STable,
};
use super::context::IdentInfo;
use super::expr::{
    analyse_array_elem, analyse_pair_elem, analyse_struct_elem, expr_analysed, expr_type, fits, ident_type, k_str,
    msg_ident,
};
use super::unify::spec_unify;
use super::expr::{check_equal, check_expected, msg_type};
use super::{join, no_syntax, AResult, SError, SemanticError};
use super::context::SymbolTable;
use crate::ast::Ident;
use crate::ast::{expr_skel, lhs_skel, rhs_skel, stat_skel, 
    spec_size, ArrayElem, AssignLhs, AssignRhs, Expr, PairElem, SType, ScopedStat, Stat,
    StructElem, Type, TypedExpr,
};
use crate::text::{int_str, to_string};

verus! {

#[derive(Debug, PartialEq)]
pub enum ReturnBehaviour {
    Never,  /* Statement never returns. */
    MidWay(Type),  /* Statement returns at least sometimes, but not at the end. */
    AtEnd(Type),  /* Statement always returns at the end. */
}

/// Mathematical value of a return behaviour.
pub enum SRB {
    Never,
    MidWay(SType),
    AtEnd(SType),
}

impl View for ReturnBehaviour {
    type V = SRB;

    open spec fn view(&self) -> SRB {
        match self {
            ReturnBehaviour::Never => SRB::Never,
            ReturnBehaviour::MidWay(t) => SRB::MidWay(t@),
            ReturnBehaviour::AtEnd(t) => SRB::AtEnd(t@),
        }
    }
}

/// The type returned, if the statement returns at all.
pub open spec fn rb_type(r: SRB) -> Option<SType> {
    match r {
        SRB::Never => None,
        SRB::MidWay(t) => Some(t),
        SRB::AtEnd(t) => Some(t),
    }
}

/// Two behaviours do not return values of incompatible types.
pub open spec fn spec_same_return(a: SRB, b: SRB) -> bool {
    !(rb_type(a) matches Some(x) && rb_type(b) matches Some(y) && spec_unify(x, y) is None)
}

/// Behaviour of `a; b`: even if `b` never returns, the sequence returns
/// sometimes when `a` does.
pub open spec fn seq_rb(a: SRB, b: SRB) -> SRB {
    if b is Never && rb_type(a) is Some {
        SRB::MidWay(rb_type(a).unwrap())
    } else {
        b
    }
}

/// Behaviour of an if statement from those of its branches.
pub open spec fn if_rb(a: SRB, b: SRB) -> SRB {
    if a is Never && b is Never {
        SRB::Never
    } else {
        let t = if rb_type(a) is Some {
            rb_type(a).unwrap()
        } else {
            rb_type(b).unwrap()
        };
        if a is AtEnd && b is AtEnd {
            SRB::AtEnd(t)
        } else {
            SRB::MidWay(t)
        }
    }
}

/// Behaviour of a loop from that of its body: the body might never run.
pub open spec fn loop_rb(b: SRB) -> SRB {
    match b {
        SRB::AtEnd(t) => SRB::MidWay(t),
        b => b,
    }
}

pub open spec fn lhs_type(ts: Seq<STable>, lhs: AssignLhs) -> Option<SType> {
    match lhs {
        AssignLhs::Ident(id) => ident_type(ts, id@),
        AssignLhs::ArrayElem(ae) => expr_type(ts, Expr::ArrayElem(ae)),
        AssignLhs::PairElem(p) => expr_type(ts, Expr::PairElem(Box::new(p))),
        AssignLhs::StructElem(se) => expr_type(ts, Expr::StructElem(se)),
    }
}

pub open spec fn rhs_type(ts: Seq<STable>, rhs: AssignRhs) -> Option<SType> {
    match rhs {
        AssignRhs::Expr(e) => expr_type(ts, e),
    }
}

/// The condition of a branch or loop is a boolean.
pub open spec fn cond_ok(ts: Seq<STable>, c: Expr) -> bool {
    match expr_type(ts, c) {
        Some(ct) => fits(SType::Bool, ct),
        None => false,
    }
}

/// The analysis of a statement in the scopes `ts`: how it returns and the
/// scopes after it, or `None` when it is ill typed.
pub open spec fn stat_spec(ts: Seq<STable>, s: Stat) -> Option<(SRB, Seq<STable>)>
    decreases s, 1nat,
{
    match s {
        Stat::Skip => Some((SRB::Never, ts)),
        Stat::Declaration(t, id, rhs) => {
            if rhs_type(ts, rhs) matches Some(at) && fits(t@, at) && !ts.last().map.contains_key(id@) {
                Some((SRB::Never, declare(ts, id@, t@, spec_size(t) as int)))
            } else {
                None
            }
        },
        Stat::Assignment(lhs, _, rhs) => match (lhs_type(ts, lhs), rhs_type(ts, rhs)) {
            (Some(a), Some(b)) => if spec_unify(a, b) is Some {
                Some((SRB::Never, ts))
            } else {
                None
            },
            _ => None,
        },
        Stat::Read(_, lhs) => match lhs_type(ts, lhs) {
            Some(SType::Int) | Some(SType::Char) => Some((SRB::Never, ts)),
            _ => None,
        },
        Stat::Free(te) => match expr_type(ts, te.1) {
            Some(SType::Pair(_, _)) | Some(SType::Array(_)) => Some((SRB::Never, ts)),
            _ => None,
        },
        Stat::Return(e) => match expr_type(ts, e) {
            Some(t) => Some((SRB::AtEnd(t), ts)),
            None => None,
        },
        Stat::Exit(e) => if expr_type(ts, e) matches Some(t) && fits(SType::Int, t) {
            Some((SRB::AtEnd(SType::Any), ts))
        } else {
            None
        },
        Stat::Print(te) | Stat::Println(te) => if expr_type(ts, te.1) is Some {
            Some((SRB::Never, ts))
        } else {
            None
        },
        Stat::Sequence(a, b) => match stat_spec(ts, *a) {
            Some((ra, ts1)) => match stat_spec(ts1, *b) {
                Some((rb, ts2)) => Some((seq_rb(ra, rb), ts2)),
                None => None,
            },
            None => None,
        },
        Stat::If(c, x, y) => match (scoped_spec(ts, x), scoped_spec(ts, y)) {
            (Some(rx), Some(ry)) => if cond_ok(ts, c) && spec_same_return(rx, ry) {
                Some((if_rb(rx, ry), ts))
            } else {
                None
            },
            _ => None,
        },
        Stat::While(c, body) => match scoped_spec(ts, body) {
            Some(rb) => if cond_ok(ts, c) {
                Some((loop_rb(rb), ts))
            } else {
                None
            },
            None => None,
        },
        Stat::Scope(body) => match scoped_spec(ts, body) {
            Some(rb) => Some((rb, ts)),
            None => None,
        },
        Stat::For(d, c, body, a) => {
            let first = for_scopes(ts, *d);
            match first {
                Some(ts1) => match stat_spec(ts1, *a) {
                    Some((ra, _)) => if cond_ok(ts1, c) && scoped_spec(ts1, body) is Some {
                        Some((loop_rb(ra), ts1))
                    } else {
                        None
                    },
                    None => None,
                },
                None => None,
            }
        },
    }
}

/// The scopes after the first part of a for loop: its declaration, after
/// which the loop variable is declared once more, or a skip.
pub open spec fn for_scopes(ts: Seq<STable>, d: Stat) -> Option<Seq<STable>>
    decreases d, 2nat,
{
    match d {
        Stat::Declaration(t, id, _) => match stat_spec(ts, d) {
            Some((_, ts_d)) => Some(declare(ts_d, id@, t@, spec_size(t) as int)),
            None => None,
        },
        _ => Some(ts),
    }
}

/// The analysis of a statement in a scope of its own, whose table is the one
/// it carries.
pub open spec fn scoped_spec(ts: Seq<STable>, ss: ScopedStat) -> Option<SRB>
    decreases ss, 1nat,
{
    match stat_spec(enter(ts, ss.0@), *ss.1) {
        Some((r, _)) => Some(r),
        None => None,
    }
}

/* ======== Laws of return behaviour ======== */

/// An if statement returns at its end only when both branches return at
/// their end; when both do, so does the if statement.
pub proof fn law_if_returns_at_end(ts: Seq<STable>, c: Expr, x: ScopedStat, y: ScopedStat)
    ensures
        ({
            let r = stat_spec(ts, Stat::If(c, x, y));
            let rx = scoped_spec(ts, x);
            let ry = scoped_spec(ts, y);
            &&& (r is Some && r.unwrap().0 is AtEnd) ==> (rx.unwrap() is AtEnd && ry.unwrap() is AtEnd)
            &&& (r is Some && rx.unwrap() is AtEnd && ry.unwrap() is AtEnd) ==> r.unwrap().0 is AtEnd
            &&& (r is Some && rx.unwrap() is Never && ry.unwrap() is Never) ==> r.unwrap().0 is Never
            &&& (r is Some && !(rx.unwrap() is Never && ry.unwrap() is Never)) ==> !(r.unwrap().0 is Never)
        }),
{
}

/// A sequence returns at its end exactly when its second statement does,
/// and never returns exactly when neither part does.
pub proof fn law_sequence_returns(ts: Seq<STable>, a: Stat, b: Stat)
    ensures
        ({
            let r = stat_spec(ts, Stat::Sequence(Box::new(a), Box::new(b)));
            let ra = stat_spec(ts, a);
            let rb = stat_spec(ra.unwrap().1, b);
            &&& r is Some ==> (r.unwrap().0 is AtEnd <==> rb.unwrap().0 is AtEnd)
            &&& r is Some ==> (r.unwrap().0 is Never <==> (ra.unwrap().0 is Never && rb.unwrap().0 is Never))
        }),
{
}

/// A loop never returns at its end: its body might not run.
pub proof fn law_loop_never_returns_at_end(ts: Seq<STable>, c: Expr, body: ScopedStat)
    ensures
        !(stat_spec(ts, Stat::While(c, body)) matches Some((SRB::AtEnd(_), _))),
{
}

/* ======== What analysis makes of a statement ======== */

/// The name a declaration in the scopes `ts` gives a variable of a type of
/// `sz` bytes: the innermost scope's prefix and the variable's offset.
pub open spec fn declared_name(ts: Seq<STable>, sz: int) -> Seq<char> {
    ts.last().prefix + int_str(ts.last().size + sz)
}

/// `n` is what analysis in the scopes `ts` makes of the left hand side `l`,
/// when it types (see `expr_analysed`).
pub open spec fn lhs_analysed(ts: Seq<STable>, l: AssignLhs, n: AssignLhs) -> bool {
    match l {
        AssignLhs::Ident(id) => n matches AssignLhs::Ident(id2) && id2@ == scope_rename(ts, id@),
        AssignLhs::ArrayElem(ae) => n matches AssignLhs::ArrayElem(ae2) && expr_analysed(
            ts,
            Expr::ArrayElem(ae),
            Expr::ArrayElem(ae2),
        ),
        AssignLhs::PairElem(p) => n matches AssignLhs::PairElem(p2) && expr_analysed(
            ts,
            Expr::PairElem(Box::new(p)),
            Expr::PairElem(Box::new(p2)),
        ),
        AssignLhs::StructElem(se) => n matches AssignLhs::StructElem(se2) && expr_analysed(
            ts,
            Expr::StructElem(se),
            Expr::StructElem(se2),
        ),
    }
}

pub open spec fn rhs_analysed(ts: Seq<STable>, r: AssignRhs, n: AssignRhs) -> bool {
    match (r, n) {
        (AssignRhs::Expr(e), AssignRhs::Expr(e2)) => expr_analysed(ts, e, e2),
    }
}

/// `n` is what analysis in the scopes `ts` makes of the statement `s`, when
/// it passes: the expressions as `expr_analysed` says, declared variables
/// named by `declared_name`, the types of assignments, reads, frees and
/// prints stored, and each scope's table holding its declarations.
pub open spec fn stat_analysed(ts: Seq<STable>, s: Stat, n: Stat) -> bool
    decreases s, 1nat,
{
    match s {
        Stat::Skip => n is Skip,
        Stat::Declaration(t, _, r) => match n {
            Stat::Declaration(t2, id2, r2) => t2 == t && id2@ == declared_name(ts, spec_size(t) as int)
                && rhs_analysed(ts, r, r2),
            _ => false,
        },
        Stat::Assignment(l, _, r) => match n {
            Stat::Assignment(l2, t2, r2) => lhs_analysed(ts, l, l2) && rhs_analysed(ts, r, r2) && Some(t2@)
                == spec_unify(lhs_type(ts, l).unwrap(), rhs_type(ts, r).unwrap()),
            _ => false,
        },
        Stat::Read(_, l) => match n {
            Stat::Read(t2, l2) => lhs_analysed(ts, l, l2) && lhs_type(ts, l) == Some(t2@),
            _ => false,
        },
        Stat::Free(te) => match n {
            Stat::Free(te2) => expr_type(ts, te.1) == Some(te2.0@) && expr_analysed(ts, te.1, te2.1),
            _ => false,
        },
        Stat::Return(e) => match n {
            Stat::Return(e2) => expr_analysed(ts, e, e2),
            _ => false,
        },
        Stat::Exit(e) => match n {
            Stat::Exit(e2) => expr_analysed(ts, e, e2),
            _ => false,
        },
        Stat::Print(te) => match n {
            Stat::Print(te2) => expr_type(ts, te.1) == Some(te2.0@) && expr_analysed(ts, te.1, te2.1),
            _ => false,
        },
        Stat::Println(te) => match n {
            Stat::Println(te2) => expr_type(ts, te.1) == Some(te2.0@) && expr_analysed(ts, te.1, te2.1),
            _ => false,
        },
        Stat::Sequence(a, b) => match n {
            Stat::Sequence(a2, b2) => stat_analysed(ts, *a, *a2) && stat_analysed(
                stat_spec(ts, *a).unwrap().1,
                *b,
                *b2,
            ),
            _ => false,
        },
        Stat::If(c, x, y) => match n {
            Stat::If(c2, x2, y2) => expr_analysed(ts, c, c2) && scoped_analysed(ts, x, x2) && scoped_analysed(
                ts,
                y,
                y2,
            ),
            _ => false,
        },
        Stat::While(c, b) => match n {
            Stat::While(c2, b2) => expr_analysed(ts, c, c2) && scoped_analysed(ts, b, b2),
            _ => false,
        },
        Stat::Scope(b) => match n {
            Stat::Scope(b2) => scoped_analysed(ts, b, b2),
            _ => false,
        },
        Stat::For(d, c, b, a) => match n {
            Stat::For(d2, c2, b2, a2) => {
                let ts1 = for_scopes(ts, *d).unwrap();
                stat_analysed(ts, *d, *d2) && expr_analysed(ts1, c, c2) && scoped_analysed(ts1, b, b2)
                    && stat_analysed(ts1, *a, *a2)
            },
            _ => false,
        },
    }
}

/// `n` is what analysis makes of the scoped statement `ss`: its statement
/// analysed in a new scope with the table it carries, and that table
/// replaced by the scope's table after it.
pub open spec fn scoped_analysed(ts: Seq<STable>, ss: ScopedStat, n: ScopedStat) -> bool
    decreases ss, 1nat,
{
    stat_analysed(enter(ts, ss.0@), *ss.1, *n.1) && n.0@ == stat_spec(enter(ts, ss.0@), *ss.1).unwrap().1.last()
}

/// The statement is one the analyser handles: no variable is declared of
/// the unknown type, a for loop starts with a declaration or a skip and
/// ends with an assignment, and the tables of nested scopes are well formed.
pub open spec fn stat_supported(s: Stat) -> bool
    decreases s,
{
    match s {
        Stat::Declaration(t, _, _) => !(t is Any),
        Stat::Sequence(a, b) => stat_supported(*a) && stat_supported(*b),
        Stat::If(_, x, y) => scoped_supported(x) && scoped_supported(y),
        Stat::While(_, b) => scoped_supported(b),
        Stat::Scope(b) => scoped_supported(b),
        Stat::For(d, _, b, a) => (*d is Skip || *d is Declaration) && stat_supported(*d) && *a is Assignment
            && scoped_supported(b),
        _ => true,
    }
}

pub open spec fn scoped_supported(ss: ScopedStat) -> bool
    decreases ss,
{
    table_wf(ss.0@) && stat_supported(*ss.1)
}

/// Bytes a statement declares in the scope it runs in.
pub open spec fn stat_growth(s: Stat) -> int
    decreases s,
{
    match s {
        Stat::Declaration(t, _, _) => spec_size(t) as int,
        Stat::Sequence(a, b) => stat_growth(*a) + stat_growth(*b),
        Stat::For(d, _, _, _) => 2 * stat_growth(*d),
        _ => 0,
    }
}

/// The most bytes the open scopes grow by while a statement is analysed.
pub open spec fn stat_peak(s: Stat) -> int
    decreases s,
{
    match s {
        Stat::Declaration(t, _, _) => spec_size(t) as int,
        Stat::Sequence(a, b) => {
            let pa = stat_peak(*a);
            let pb = stat_growth(*a) + stat_peak(*b);
            if pa >= pb {
                pa
            } else {
                pb
            }
        },
        Stat::If(_, x, y) => {
            let px = scoped_peak(x);
            let py = scoped_peak(y);
            if px >= py {
                px
            } else {
                py
            }
        },
        Stat::While(_, b) => scoped_peak(b),
        Stat::Scope(b) => scoped_peak(b),
        Stat::For(d, _, b, _) => {
            let pd = stat_peak(*d);
            let pb = 2 * stat_growth(*d) + scoped_peak(b);
            if pd >= pb {
                pd
            } else {
                pb
            }
        },
        _ => 0,
    }
}

pub open spec fn scoped_peak(ss: ScopedStat) -> int
    decreases ss,
{
    ss.0.size + stat_peak(*ss.1)
}

pub proof fn lemma_peak_growth(s: Stat)
    requires
        stat_supported(s),
    ensures
        0 <= stat_growth(s) <= stat_peak(s),
    decreases s,
{
    match s {
        Stat::Sequence(a, b) => {
            lemma_peak_growth(*a);
            lemma_peak_growth(*b);
        },
        Stat::For(d, _, b, _) => {
            lemma_peak_growth(*d);
            lemma_scoped_peak(b);
        },
        Stat::If(_, x, y) => {
            lemma_scoped_peak(x);
            lemma_scoped_peak(y);
        },
        Stat::While(_, b) => lemma_scoped_peak(b),
        Stat::Scope(b) => lemma_scoped_peak(b),
        _ => {},
    }
}

pub proof fn lemma_scoped_peak(ss: ScopedStat)
    requires
        scoped_supported(ss),
    ensures
        0 <= scoped_peak(ss),
        ss.0.size <= scoped_peak(ss),
    decreases ss,
{
    lemma_peak_growth(*ss.1);
}

/// Declaring a variable only grows the innermost scope, by its size.
pub proof fn lemma_declare_shape(ts: Seq<STable>, k: Seq<char>, t: SType, sz: int)
    requires
        ts.len() > 0,
    ensures
        declare(ts, k, t, sz).len() == ts.len(),
        total_size(declare(ts, k, t, sz)) == total_size(ts) + ((ts.last().size + sz) as i32 - ts.last().size),
        declare(ts, k, t, sz).drop_last() == ts.drop_last(),
        declare(ts, k, t, sz).last().prefix == ts.last().prefix,
{
    let d = declare(ts, k, t, sz);
    assert(d.drop_last() =~= ts.drop_last());
    super::context::lemma_total_size_update(ts, d.last());
}

/// Analysis of a statement only adds to the innermost scope, by the bytes it
/// declares.
#[verifier::spinoff_prover]
#[verifier::rlimit(80)]
pub proof fn lemma_stat_spec_shape(ts: Seq<STable>, s: Stat)
    requires
        ts.len() > 0,
        stat_spec(ts, s) is Some,
        ts.last().size + stat_growth(s) <= i32::MAX,
        stat_supported(s),
        0 <= ts.last().size,
    ensures
        stat_spec(ts, s).unwrap().1.len() == ts.len(),
        total_size(stat_spec(ts, s).unwrap().1) == total_size(ts) + stat_growth(s),
        stat_spec(ts, s).unwrap().1.drop_last() == ts.drop_last(),
        stat_spec(ts, s).unwrap().1.last().prefix == ts.last().prefix,
    decreases s, 1nat,
{
    let r = stat_spec(ts, s).unwrap().1;
    match s {
        Stat::Declaration(t, id, rhs) => {
            lemma_declare_shape(ts, id@, t@, spec_size(t) as int);
        },
        Stat::Sequence(a, b) => {
            lemma_peak_growth(*a);
            lemma_peak_growth(*b);
            lemma_stat_spec_shape(ts, *a);
            let ts1 = stat_spec(ts, *a).unwrap().1;
            assert(ts1.last().size == ts.last().size + stat_growth(*a)) by {
                lemma_last_size(ts, ts1);
            }
            lemma_stat_spec_shape(ts1, *b);
        },
        Stat::For(d, _, _, _) => {
            lemma_for_scopes_shape(ts, *d);
        },
        Stat::If(..) | Stat::While(..) | Stat::Scope(..) => {
            assert(r == ts);
        },
        _ => {
            assert(r == ts);
        },
    }
}

/// The first part of a for loop declares its variable twice in the
/// innermost scope, or does nothing.
#[verifier::spinoff_prover]
#[verifier::rlimit(40)]
pub proof fn lemma_for_scopes_shape(ts: Seq<STable>, d: Stat)
    requires
        ts.len() > 0,
        for_scopes(ts, d) is Some,
        d is Skip || d is Declaration,
        ts.last().size + 2 * stat_growth(d) <= i32::MAX,
        stat_supported(d),
        0 <= ts.last().size,
    ensures
        for_scopes(ts, d).unwrap().len() == ts.len(),
        total_size(for_scopes(ts, d).unwrap()) == total_size(ts) + 2 * stat_growth(d),
        for_scopes(ts, d).unwrap().drop_last() == ts.drop_last(),
        for_scopes(ts, d).unwrap().last().prefix == ts.last().prefix,
    decreases d, 2nat,
{
    match d {
        Stat::Declaration(t, id, _) => {
            let g = spec_size(t) as int;
            assert(stat_growth(d) == g);
            assert(stat_spec(ts, d) is Some);
            let ts_d = stat_spec(ts, d).unwrap().1;
            assert(for_scopes(ts, d) == Some(declare(ts_d, id@, t@, g)));
            lemma_stat_spec_shape(ts, d);
            assert(ts_d.last().size == ts.last().size + g) by {
                lemma_last_size(ts, ts_d);
            }
            lemma_declare_shape(ts_d, id@, t@, g);
            assert((ts_d.last().size + g) as i32 - ts_d.last().size == g);
        },
        _ => {},
    }
}

/// The innermost scope is no larger than all of them together.
pub proof fn lemma_last_le_total(ts: Seq<STable>)
    requires
        ts.len() > 0,
        forall|i: int| 0 <= i < ts.len() ==> table_wf(#[trigger] ts[i]),
    ensures
        ts.last().size <= total_size(ts),
{
    assert forall|i: int| 0 <= i < ts.drop_last().len() implies table_wf(#[trigger] ts.drop_last()[i]) by {
        assert(ts.drop_last()[i] == ts[i]);
    }
    lemma_total_size_nonneg(ts.drop_last());
}

/// Two chains of scopes that differ only in the innermost one differ in
/// total size by the difference of its sizes.
proof fn lemma_last_size(a: Seq<STable>, b: Seq<STable>)
    requires
        a.len() > 0,
        a.len() == b.len(),
        a.drop_last() == b.drop_last(),
    ensures
        total_size(b) - total_size(a) == b.last().size - a.last().size,
{
}

/* ======== Analysis ======== */

impl ReturnBehaviour {
    /// The type this behaviour returns, if it returns at all.
    pub fn returned(&self) -> (r: Option<&Type>)
        ensures
            match r {
                Some(t) => rb_type(self@) == Some(t@),
                None => rb_type(self@) is None,
            },
    {
        match self {
            ReturnBehaviour::Never => None,
            ReturnBehaviour::MidWay(t) => Some(t),
            ReturnBehaviour::AtEnd(t) => Some(t),
        }
    }

    /// Whether two behaviours never return values of incompatible types.
    pub fn same_return(&self, other: &ReturnBehaviour) -> (r: bool)
        ensures
            r == spec_same_return(self@, other@),
    {
        match (self.returned(), other.returned()) {
            (Some(a), Some(b)) => a.deep_clone().unify(b.deep_clone()).is_some(),
            _ => true,
        }
    }
}

impl AssignLhs {
    /// Types the left hand side of an assignment.
    pub fn analyse(&mut self, scope: &ScopeBuilder, _aux: ()) -> (r: AResult<Type>)
        requires
            scopes_wf(scope@),
        ensures
            r is Ok <==> lhs_type(scope@, *old(self)) is Some,
            r matches Ok(t) ==> lhs_type(scope@, *old(self)) == Some(t@),
            r matches Err(e) ==> no_syntax(e@),
            lhs_skel(*final(self)) == lhs_skel(*old(self)),
            r is Ok ==> lhs_analysed(scope@, *old(self), *final(self)),
    {
        match self {
            AssignLhs::Ident(id) => {
                let k = id.clone();
                match scope.get(id) {
                    Some(IdentInfo::LocalVar(t, _)) => Ok(t),
                    Some(IdentInfo::Label(t, _)) => Ok(t),
                    _ => Err(SemanticError::Normal(msg_ident("Use of undeclared variable: ", k_str(&k)))),
                }
            },
            AssignLhs::ArrayElem(elem) => analyse_array_elem(elem, scope),
            AssignLhs::PairElem(elem) => {
                let mut tmp = PairElem::Fst(TypedExpr::new(Expr::NullPairLiter));
                std::mem::swap(&mut tmp, elem);
                let mut boxed = Box::new(tmp);
                let r = analyse_pair_elem(&mut boxed, scope);
                *elem = *boxed;
                r
            },
            AssignLhs::StructElem(elem) => analyse_struct_elem(elem, scope),
        }
    }
}

impl AssignRhs {
    /// Types the right hand side of an assignment or declaration.
    pub fn analyse(&mut self, scope: &ScopeBuilder, _aux: ()) -> (r: AResult<Type>)
        requires
            scopes_wf(scope@),
        ensures
            r is Ok <==> rhs_type(scope@, *old(self)) is Some,
            r matches Ok(t) ==> rhs_type(scope@, *old(self)) == Some(t@),
            r matches Err(e) ==> no_syntax(e@),
            rhs_skel(*final(self)) == rhs_skel(*old(self)),
            r is Ok ==> rhs_analysed(scope@, *old(self), *final(self)),
    {
        match self {
            AssignRhs::Expr(exp) => exp.analyse(scope, ()),
        }
    }
}

impl ScopedStat {
    /// Analyses the statement in a new scope whose table is the one this
    /// statement carries; the table, with the declarations the statement
    /// made, is stored back.
    pub fn analyse(&mut self, scope: &mut ScopeBuilder, _aux: ()) -> (r: AResult<ReturnBehaviour>)
        requires
            old(scope).ok(),
            scoped_supported(*old(self)),
            total_size(old(scope)@) + scoped_peak(*old(self)) <= i32::MAX,
        ensures
            final(scope).ok(),
            final(scope).labels_used() == old(scope).labels_used(),
            final(scope)@ == old(scope)@,
            r is Ok <==> scoped_spec(old(scope)@, *old(self)) is Some,
            r matches Ok(b) ==> scoped_spec(old(scope)@, *old(self)) == Some(b@),
            r is Ok ==> final(self).0@ == stat_spec(enter(old(scope)@, old(self).0@), *old(self).1).unwrap().1.last(),
            r matches Err(e) ==> no_syntax(e@),
            stat_skel(*final(self).1) == stat_skel(*old(self).1),
            r is Ok ==> scoped_analysed(old(scope)@, *old(self), *final(self)),
        decreases *old(self), 1nat,
    {
        let ghost ts = scope@;
        let mut st = SymbolTable::default_table();
        std::mem::swap(&mut st, &mut self.0);
        proof {
            lemma_peak_growth(*self.1);
            lemma_total_size_nonneg(ts);
            assert(enter(ts, st@).drop_last() =~= ts);
        }
        /* Create a new scope, so declarations in the statement don't bleed
        into the surrounding scope. */
        scope.new_scope(st);
        let r = self.1.analyse(scope, ());
        proof {
            assert(scope@.len() >= 2);
        }
        self.0 = scope.exit_scope();
        r
    }
}

impl Stat {
    /// Type checks a statement. Declarations add to the current scope,
    /// scoping statements open scopes of their own. The result says whether,
    /// and with what type, the statement returns.
    #[verifier::spinoff_prover]
    #[verifier::rlimit(40)]
    pub fn analyse(&mut self, scope: &mut ScopeBuilder, _aux: ()) -> (r: AResult<ReturnBehaviour>)
        requires
            old(scope).ok(),
            stat_supported(*old(self)),
            total_size(old(scope)@) + stat_peak(*old(self)) <= i32::MAX,
        ensures
            final(scope).ok(),
            final(scope).labels_used() == old(scope).labels_used(),
            final(scope)@.len() == old(scope)@.len(),
            final(scope)@.drop_last() == old(scope)@.drop_last(),
            final(scope)@.last().prefix == old(scope)@.last().prefix,
            total_size(final(scope)@) <= total_size(old(scope)@) + stat_growth(*old(self)),
            r is Ok <==> stat_spec(old(scope)@, *old(self)) is Some,
            r matches Ok(b) ==> stat_spec(old(scope)@, *old(self)) == Some((b@, final(scope)@)),
            r matches Err(e) ==> no_syntax(e@),
            stat_skel(*final(self)) == stat_skel(*old(self)),
            r is Ok ==> stat_analysed(old(scope)@, *old(self), *final(self)),
        decreases *old(self), 1nat,
    {
        let ghost ts = scope@;
        proof {
            lemma_peak_growth(*self);
            lemma_total_size_nonneg(ts);
        }
        match self {
            Stat::Skip => Ok(ReturnBehaviour::Never),
            Stat::Declaration(expected, id, val) => analyse_declaration(expected, id, val, scope),
            Stat::Assignment(target, assigned_type, source) => {
                analyse_assignment(target, assigned_type, source, scope)
            },
            Stat::Read(read_type, dest) => analyse_read(read_type, dest, scope),
            Stat::Free(expr) => analyse_free(expr, scope),
            Stat::Return(expr) => {
                let returned = expr.analyse(&*scope, ())?;
                Ok(ReturnBehaviour::AtEnd(returned))
            },
            Stat::Exit(expr) => {
                /* Exit codes must be integers; an exit returns no value of a
                wrong type. */
                let code = expr.analyse(&*scope, ());
                check_expected(&Type::Int, code)?;
                Ok(ReturnBehaviour::AtEnd(Type::Any))
            },
            Stat::Print(expr) => {
                expr.analyse(&*scope, ())?;
                Ok(ReturnBehaviour::Never)
            },
            Stat::Println(expr) => {
                expr.analyse(&*scope, ())?;
                Ok(ReturnBehaviour::Never)
            },
            Stat::If(cond, if_stat, else_stat) => {
                let c = cond.analyse(&*scope, ());
                let c = check_expected(&Type::Bool, c);
                let rx = if_stat.analyse(scope, ());
                let ry = else_stat.analyse(scope, ());
                let ((_, true_behaviour), false_behaviour) = join(join(c, rx), ry)?;
                /* If branches return with different types, the if statement
                is an error. */
                if !true_behaviour.same_return(&false_behaviour) {
                    return Err(
                        SemanticError::Normal(
                            to_string("Branches of if statement return values of different types."),
                        ),
                    );
                }
                if_behaviour(true_behaviour, false_behaviour)
            },
            Stat::While(cond, body) => {
                let c = cond.analyse(&*scope, ());
                let c = check_expected(&Type::Bool, c);
                let rb = body.analyse(scope, ());
                let (_, b) = join(c, rb)?;
                Ok(loop_behaviour(b))
            },
            Stat::Scope(body) => body.analyse(scope, ()),
            Stat::Sequence(fst, snd) => {
                proof {
                    lemma_peak_growth(**fst);
                    lemma_peak_growth(**snd);
                }
                let ra = fst.analyse(scope, ());
                let rb = snd.analyse(scope, ());
                let (first, second) = join(ra, rb)?;
                Ok(sequence_behaviour(first, second))
            },
            Stat::For(..) => analyse_for(self, scope),
        }
    }
}

/* The right hand side must fit the declared type; the variable is declared
whether it does or not. */
fn analyse_declaration(expected: &Type, id: &mut Ident, val: &mut AssignRhs, scope: &mut ScopeBuilder) -> (r:
    AResult<ReturnBehaviour>)
    requires
        old(scope).ok(),
        !(expected is Any),
        total_size(old(scope)@) + spec_size(*expected) <= i32::MAX,
    ensures
        final(scope).ok(),
        final(scope).labels_used() == old(scope).labels_used(),
        final(scope)@.len() == old(scope)@.len(),
        final(scope)@.drop_last() == old(scope)@.drop_last(),
        final(scope)@.last().prefix == old(scope)@.last().prefix,
        total_size(final(scope)@) <= total_size(old(scope)@) + spec_size(*expected),
        ({
            let s = Stat::Declaration(*expected, *old(id), *old(val));
            &&& r is Ok <==> stat_spec(old(scope)@, s) is Some
            &&& r matches Ok(b) ==> stat_spec(old(scope)@, s) == Some((b@, final(scope)@))
        }),
        r matches Err(e) ==> no_syntax(e@),
        rhs_skel(*final(val)) == rhs_skel(*old(val)),
        r is Ok ==> rhs_analysed(old(scope)@, *old(val), *final(val)) && final(id)@ == declared_name(
            old(scope)@,
            spec_size(*expected) as int,
        ),
{
    let ghost ts = scope@;
    let r1 = val.analyse(&*scope, ());
    let r1 = check_expected(expected, r1);
    let decl_type = expected.deep_clone();
    proof {
        assert(decl_type@ == expected@);
        assert(!(decl_type is Any));
        assert(spec_size(decl_type) == spec_size(*expected));
        lemma_declare_shape(ts, id@, decl_type@, spec_size(decl_type) as int);
    }
    let r2 = scope.insert_var(id, decl_type);
    join(r1, r2)?;
    Ok(ReturnBehaviour::Never)
}

/* Both sides of an assignment must have the same type, which is stored. */
fn analyse_assignment(target: &mut AssignLhs, assigned_type: &mut Type, source: &mut AssignRhs, scope: &ScopeBuilder) -> (r:
    AResult<ReturnBehaviour>)
    requires
        scopes_wf(scope@),
    ensures
        ({
            let s = Stat::Assignment(*old(target), *old(assigned_type), *old(source));
            &&& r is Ok <==> stat_spec(scope@, s) is Some
            &&& r matches Ok(b) ==> stat_spec(scope@, s) == Some((b@, scope@))
        }),
        r matches Err(e) ==> no_syntax(e@),
        lhs_skel(*final(target)) == lhs_skel(*old(target)),
        rhs_skel(*final(source)) == rhs_skel(*old(source)),
        r is Ok ==> lhs_analysed(scope@, *old(target), *final(target)) && rhs_analysed(
            scope@,
            *old(source),
            *final(source),
        ) && Some(final(assigned_type)@) == spec_unify(
            lhs_type(scope@, *old(target)).unwrap(),
            rhs_type(scope@, *old(source)).unwrap(),
        ),
{
    let target_type = target.analyse(scope, ())?;
    let source_type = source.analyse(scope, ())?;
    let unified = check_equal(target_type, source_type)?;
    *assigned_type = unified;
    Ok(ReturnBehaviour::Never)
}

/* Only chars and ints can be read; the type read is stored. */
fn analyse_read(read_type: &mut Type, dest: &mut AssignLhs, scope: &ScopeBuilder) -> (r: AResult<ReturnBehaviour>)
    requires
        scopes_wf(scope@),
    ensures
        ({
            let s = Stat::Read(*old(read_type), *old(dest));
            &&& r is Ok <==> stat_spec(scope@, s) is Some
            &&& r matches Ok(b) ==> stat_spec(scope@, s) == Some((b@, scope@))
        }),
        r matches Err(e) ==> no_syntax(e@),
        lhs_skel(*final(dest)) == lhs_skel(*old(dest)),
        r is Ok ==> lhs_analysed(scope@, *old(dest), *final(dest)) && lhs_type(scope@, *old(dest)) == Some(
            final(read_type)@,
        ),
{
    let dest_type = dest.analyse(scope, ())?;
    match dest_type {
        Type::Int => {
            *read_type = Type::Int;
            Ok(ReturnBehaviour::Never)
        },
        Type::Char => {
            *read_type = Type::Char;
            Ok(ReturnBehaviour::Never)
        },
        _ => Err(SemanticError::Normal(to_string("Read statements must read char or int."))),
    }
}

/* Only pairs and arrays can be freed. */
fn analyse_free(expr: &mut TypedExpr, scope: &ScopeBuilder) -> (r: AResult<ReturnBehaviour>)
    requires
        scopes_wf(scope@),
    ensures
        ({
            let s = Stat::Free(*old(expr));
            &&& r is Ok <==> stat_spec(scope@, s) is Some
            &&& r matches Ok(b) ==> stat_spec(scope@, s) == Some((b@, scope@))
        }),
        r matches Err(e) ==> no_syntax(e@),
        expr_skel(final(expr).1) == expr_skel(old(expr).1),
        r is Ok ==> expr_type(scope@, old(expr).1) == Some(final(expr).0@) && expr_analysed(
            scope@,
            old(expr).1,
            final(expr).1,
        ),
{
    let freed = expr.analyse(scope, ())?;
    match freed {
        Type::Pair(_, _) => Ok(ReturnBehaviour::Never),
        Type::Array(_) => Ok(ReturnBehaviour::Never),
        actual => Err(
            SemanticError::Normal(
                msg_type("TYPE ERROR: Expected Type\n\tExpected: Pair or Array\n\tActual:", &actual),
            ),
        ),
    }
}

/* A for loop: its declaration (if any) is analysed and the loop variable is
declared once more, then the condition, the body and the assignment done at
the end of each iteration. How the loop returns is taken from that
assignment. */
#[verifier::spinoff_prover]
#[verifier::rlimit(80)]
fn analyse_for(s: &mut Stat, scope: &mut ScopeBuilder) -> (r: AResult<ReturnBehaviour>)
    requires
        *old(s) is For,
        old(scope).ok(),
        stat_supported(*old(s)),
        total_size(old(scope)@) + stat_peak(*old(s)) <= i32::MAX,
    ensures
        final(scope).ok(),
        final(scope).labels_used() == old(scope).labels_used(),
        final(scope)@.len() == old(scope)@.len(),
        final(scope)@.drop_last() == old(scope)@.drop_last(),
        final(scope)@.last().prefix == old(scope)@.last().prefix,
        total_size(final(scope)@) <= total_size(old(scope)@) + stat_growth(*old(s)),
        r is Ok <==> stat_spec(old(scope)@, *old(s)) is Some,
        r matches Ok(b) ==> stat_spec(old(scope)@, *old(s)) == Some((b@, final(scope)@)),
        r matches Err(e) ==> no_syntax(e@),
        stat_skel(*final(s)) == stat_skel(*old(s)),
        r is Ok ==> stat_analysed(old(scope)@, *old(s), *final(s)),
    decreases *old(s), 0nat,
{
    let ghost ts = scope@;
    let ghost s0 = *s;
    match s {
        Stat::For(decl, cond, body, assign) => {
            proof {
                lemma_peak_growth(**decl);
                lemma_scoped_peak(*body);
                lemma_total_size_nonneg(ts);
            }
            let ghost d0 = **decl;
            assert(stat_peak(s0) >= 2 * stat_growth(d0) + scoped_peak(*body));
            assert(stat_peak(s0) >= stat_peak(d0));
            assert(stat_growth(s0) == 2 * stat_growth(d0));
            declare_loop_var(decl, scope)?;
            let r = analyse_loop_rest(cond, body, assign, scope);
            r
        },
        _ => Err(SemanticError::Normal(String::new())),
    }
}

/* The condition, the body and the closing assignment of a for loop. How the
loop returns is taken from that assignment. */
#[verifier::spinoff_prover]
fn analyse_loop_rest(cond: &mut Expr, body: &mut ScopedStat, assign: &mut Box<Stat>, scope: &mut ScopeBuilder) -> (r:
    AResult<ReturnBehaviour>)
    requires
        old(scope).ok(),
        scoped_supported(*old(body)),
        **old(assign) is Assignment,
        total_size(old(scope)@) + scoped_peak(*old(body)) <= i32::MAX,
    ensures
        final(scope).ok(),
        final(scope).labels_used() == old(scope).labels_used(),
        final(scope)@ == old(scope)@,
        r is Ok <==> (cond_ok(old(scope)@, *old(cond)) && scoped_spec(old(scope)@, *old(body)) is Some
            && stat_spec(old(scope)@, **old(assign)) is Some),
        r matches Ok(b) ==> b@ == loop_rb(stat_spec(old(scope)@, **old(assign)).unwrap().0),
        r is Ok ==> stat_spec(old(scope)@, **old(assign)).unwrap().1 == old(scope)@,
        r matches Err(e) ==> no_syntax(e@),
        expr_skel(*final(cond)) == expr_skel(*old(cond)),
        stat_skel(*final(body).1) == stat_skel(*old(body).1),
        stat_skel(**final(assign)) == stat_skel(**old(assign)),
        r is Ok ==> expr_analysed(old(scope)@, *old(cond), *final(cond)) && scoped_analysed(
            old(scope)@,
            *old(body),
            *final(body),
        ) && stat_analysed(old(scope)@, **old(assign), **final(assign)),
    decreases *old(body), 2nat,
{
    let c = cond.analyse(&*scope, ());
    let c = check_expected(&Type::Bool, c);
    let rb = body.analyse(scope, ());
    let ra = match &mut **assign {
        Stat::Assignment(target, assigned_type, source) => analyse_assignment(
            target,
            assigned_type,
            source,
            &*scope,
        ),
        _ => Err(SemanticError::Normal(String::new())),
    };
    let (_, behaviour) = join(join(c, rb), ra)?;
    Ok(loop_behaviour(behaviour))
}

/* The first part of a for loop: a declaration, whose variable is declared
once more after it, or a skip. */
#[verifier::spinoff_prover]
fn declare_loop_var(decl: &mut Box<Stat>, scope: &mut ScopeBuilder) -> (r: AResult<()>)
    requires
        old(scope).ok(),
        stat_supported(**old(decl)),
        **old(decl) is Skip || **old(decl) is Declaration,
        total_size(old(scope)@) + 2 * stat_growth(**old(decl)) <= i32::MAX,
        total_size(old(scope)@) + stat_peak(**old(decl)) <= i32::MAX,
    ensures
        final(scope).ok(),
        final(scope).labels_used() == old(scope).labels_used(),
        final(scope)@.len() == old(scope)@.len(),
        final(scope)@.drop_last() == old(scope)@.drop_last(),
        final(scope)@.last().prefix == old(scope)@.last().prefix,
        total_size(final(scope)@) <= total_size(old(scope)@) + 2 * stat_growth(**old(decl)),
        r is Ok <==> for_scopes(old(scope)@, **old(decl)) is Some,
        r is Ok ==> for_scopes(old(scope)@, **old(decl)) == Some(final(scope)@),
        r matches Err(e) ==> no_syntax(e@),
        stat_skel(**final(decl)) == stat_skel(**old(decl)),
        r is Ok ==> stat_analysed(old(scope)@, **old(decl), **final(decl)),
    decreases **old(decl), 2nat,
{
    let ghost ts = scope@;
    let ghost d0 = **decl;
    proof {
        lemma_peak_growth(d0);
        lemma_total_size_nonneg(ts);
    }
    let decl_info: Option<(Type, Ident)> = match &**decl {
        Stat::Declaration(dt, did, _) => Some((dt.deep_clone(), did.clone())),
        _ => None,
    };
    match decl_info {
        Some((loop_type, loop_var)) => {
            decl.analyse(scope, ())?;
            let ghost mid = scope@;
            proof {
                assert(loop_type@ == d0->Declaration_0@);
                assert(!(d0->Declaration_0 is Any));
                assert(d0->Declaration_0@ != SType::Any);
                assert(!(loop_type is Any));
                assert(spec_size(loop_type) == stat_growth(d0));
            }
            let mut loop_var = loop_var;
            let ghost lv = loop_var@;
            let ghost lt = loop_type@;
            let ghost sz = spec_size(loop_type) as int;
            proof {
                lemma_last_le_total(mid);
                lemma_declare_shape(mid, lv, lt, sz);
            }
            let _redefined = scope.insert_var(&mut loop_var, loop_type);
            Ok(())
        },
        None => Ok(()),
    }
}

/* If both branches never return, the if statement never returns; otherwise
it returns the type one of its branches returns, at the end only when both
branches return at the end. */
fn if_behaviour(a: ReturnBehaviour, b: ReturnBehaviour) -> (r: AResult<ReturnBehaviour>)
    ensures
        r is Ok,
        r matches Ok(x) ==> x@ == if_rb(a@, b@),
{
    let t = match (a.returned(), b.returned()) {
        (Some(t), _) => t.deep_clone(),
        (None, Some(t)) => t.deep_clone(),
        (None, None) => {
            return Ok(ReturnBehaviour::Never);
        },
    };
    match (a, b) {
        (ReturnBehaviour::AtEnd(_), ReturnBehaviour::AtEnd(_)) => Ok(ReturnBehaviour::AtEnd(t)),
        _ => Ok(ReturnBehaviour::MidWay(t)),
    }
}

/* A loop's body might never run, so a body that always returns makes a loop
that only sometimes does. */
fn loop_behaviour(b: ReturnBehaviour) -> (r: ReturnBehaviour)
    ensures
        r@ == loop_rb(b@),
{
    match b {
        ReturnBehaviour::AtEnd(t) => ReturnBehaviour::MidWay(t),
        b => b,
    }
}

/* Even if the second statement never returns, the sequence might still
return when the first one does. */
fn sequence_behaviour(lhs: ReturnBehaviour, rhs: ReturnBehaviour) -> (r: ReturnBehaviour)
    ensures
        r@ == seq_rb(lhs@, rhs@),
{
    match rhs {
        ReturnBehaviour::Never => match lhs {
            ReturnBehaviour::MidWay(t) => ReturnBehaviour::MidWay(t),
            ReturnBehaviour::AtEnd(t) => ReturnBehaviour::MidWay(t),
            ReturnBehaviour::Never => ReturnBehaviour::Never,
        },
        rhs => rhs,
    }
}

} // verus!

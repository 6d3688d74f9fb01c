use vstd::prelude::*;

use super::context::{
    declare, enter, lemma_total_size_nonneg, scopes_wf, table_wf, total_size, IdentInfo,
    SIdentInfo, STable, ScopeBuilder, SymbolTable,
};
use super::expr::msg_two_types;
use super::stat::{
    declared_name, scoped_analysed, stat_analysed, stat_growth, lemma_declare_shape, lemma_last_le_total, lemma_peak_growth, lemma_scoped_peak, rb_type, scoped_peak,
    scoped_supported, scoped_spec, stat_peak, stat_spec, stat_supported, ReturnBehaviour, SRB,
};
use super::unify::spec_unify;
use super::{no_syntax, AResult, SError, SemanticError};
use crate::ast::{func_skel, stat_skel, spec_size, types_view, Func, FuncSig, Ident, Program, SType, ScopedStat, Stat, Type};
use crate::text::{push_str, to_string};

verus! {

/// Outcome of checking a function or a program: it passes, it is ill
/// typed, or its last statement is not a return or an exit.
pub enum Check {
    Pass,
    Fail,
    MissingReturn,
}

/// Bytes taken by values of the given types.
pub open spec fn types_size(tys: Seq<Type>) -> int
    decreases tys.len(),
{
    if tys.len() == 0 {
        0
    } else {
        types_size(tys.drop_last()) + spec_size(tys.last())
    }
}

/// None of the types is the unknown type.
pub open spec fn all_known(tys: Seq<Type>) -> bool {
    forall|i: int| 0 <= i < tys.len() ==> !(#[trigger] tys[i] is Any)
}

/// The scopes after declaring the parameters, the last one first, pairing
/// identifiers and types from the end; `None` when a name is repeated.
pub open spec fn declare_params(ts: Seq<STable>, ids: Seq<Ident>, tys: Seq<Type>) -> Option<Seq<STable>>
    decreases ids.len(),
{
    if ids.len() == 0 || tys.len() == 0 {
        Some(ts)
    } else if ts.last().map.contains_key(ids.last()@) {
        None
    } else {
        declare_params(
            declare(ts, ids.last()@, tys.last()@, spec_size(tys.last()) as int),
            ids.drop_last(),
            tys.drop_last(),
        )
    }
}

/// The check of a function in the scopes `ts`: its parameters are declared
/// in a scope of their own, its body is analysed in another one inside it,
/// and the body must end by returning a value of the declared type.
#[verifier::opaque]
pub open spec fn func_check(ts: Seq<STable>, f: Func) -> Check {
    match declare_params(enter(ts, f.params_st@), f.param_ids@, f.signature.param_types@) {
        None => Check::Fail,
        Some(ps) => body_check(ps, f),
    }
}

/// The check of a function's body in the scopes `ps` of its parameters.
pub open spec fn body_check(ps: Seq<STable>, f: Func) -> Check {
    match stat_spec(enter(ps, f.body_st@), f.body) {
        None => Check::Fail,
        Some((SRB::AtEnd(t), _)) => if spec_unify(t, f.signature.return_type@) is Some {
            Check::Pass
        } else {
            Check::Fail
        },
        Some(_) => Check::MissingReturn,
    }
}

/// A function the analyser handles, in scopes whose sizes add up to
/// `outer`: its tables are well formed, its parameters have known types,
/// its body is supported, and its frame fits in an `i32`.
pub open spec fn func_supported(outer: int, f: Func) -> bool {
    &&& table_wf(f.params_st@)
    &&& table_wf(f.body_st@)
    &&& all_known(f.signature.param_types@)
    &&& stat_supported(f.body)
    &&& outer + f.params_st.size + types_size(f.signature.param_types@) + f.body_st.size + stat_peak(f.body)
        <= i32::MAX
}

/// The label of a function: its name after "f_".
pub open spec fn func_label(id: Seq<char>) -> Seq<char> {
    "f_"@ + id
}

/// The type of a function with the given signature.
pub open spec fn sig_type(sig: FuncSig) -> SType {
    SType::Func(types_view(sig.param_types@), Box::new(sig.return_type@))
}

/// The global table after adding every function's label, in order; `None`
/// when a name is already taken.
pub open spec fn hoist(g: STable, fs: Seq<Func>) -> Option<STable>
    decreases fs.len(),
{
    if fs.len() == 0 {
        Some(g)
    } else if g.map.contains_key(fs[0].ident@) {
        None
    } else {
        hoist(
            STable {
                map: g.map.insert(fs[0].ident@, SIdentInfo::Label(sig_type(fs[0].signature), func_label(fs[0].ident@))),
                size: g.size,
                prefix: g.prefix,
            },
            fs.skip(1),
        )
    }
}

/// The functions checked in order: the first that does not pass decides.
pub open spec fn funcs_check(ts: Seq<STable>, fs: Seq<Func>) -> Check
    decreases fs.len(),
{
    if fs.len() == 0 {
        Check::Pass
    } else {
        match func_check(ts, fs[0]) {
            Check::Pass => funcs_check(ts, fs.skip(1)),
            c => c,
        }
    }
}

/// The global scope a program starts from.
pub open spec fn global_table(p: Program) -> STable {
    STable { map: p.symbol_table@.map, size: p.symbol_table.size, prefix: Seq::empty() }
}

/// The check of a whole program: labels of all functions are added first,
/// then the functions are checked, then the main statement, which may exit
/// but may not return a value.
pub open spec fn program_check(p: Program) -> Check {
    globals_check(global_table(p), p.funcs@, p.statement)
}

/// The check of a program's functions and main statement from the global
/// table `g0`.
pub open spec fn globals_check(g0: STable, fs: Seq<Func>, main: ScopedStat) -> Check {
    match hoist(g0, fs) {
        None => Check::Fail,
        Some(g) => match funcs_check(seq![g], fs) {
            Check::Pass => main_check(g, main),
            c => c,
        },
    }
}

/// The check of the main statement in the global scope `g`: it may exit
/// but not return a value.
#[verifier::opaque]
pub open spec fn main_check(g: STable, main: ScopedStat) -> Check {
    match scoped_spec(seq![g], main) {
        None => Check::Fail,
        Some(rb) => match rb_type(rb) {
            Some(t) => if t == SType::Any {
                Check::Pass
            } else {
                Check::Fail
            },
            None => Check::Pass,
        },
    }
}

/// A program the analyser handles: well formed tables, known types and
/// frames that fit in an `i32`.
pub open spec fn program_supported(p: Program) -> bool {
    &&& table_wf(global_table(p))
    &&& forall|i: int| 0 <= i < p.funcs@.len() ==> func_supported(p.symbol_table.size as int, #[trigger] p.funcs@[i])
    &&& scoped_supported(p.statement)
    &&& p.symbol_table.size + scoped_peak(p.statement) <= i32::MAX
}

/* ======== What analysis makes of a function and a program ======== */

/// The names analysis gives parameters declared from the last on, as
/// `declare_params` does: each the name its declaration gives it; names
/// left without a type keep theirs.
pub open spec fn param_names(ts: Seq<STable>, ids: Seq<Ident>, tys: Seq<Type>) -> Seq<Seq<char>>
    decreases ids.len(),
{
    if ids.len() == 0 || tys.len() == 0 {
        Seq::new(ids.len(), |i: int| ids[i]@)
    } else {
        param_names(
            declare(ts, ids.last()@, tys.last()@, spec_size(tys.last()) as int),
            ids.drop_last(),
            tys.drop_last(),
        ).push(declared_name(ts, spec_size(tys.last()) as int))
    }
}

/// `n` is what analysis in the scopes `ts` makes of the function `f`, when
/// it passes: its parameters renamed, its body analysed, and the tables of
/// its parameters and of its body stored.
pub open spec fn func_analysed(ts: Seq<STable>, f: Func, n: Func) -> bool {
    let pts = enter(ts, f.params_st@);
    let ps = declare_params(pts, f.param_ids@, f.signature.param_types@).unwrap();
    let bs = enter(ps, f.body_st@);
    &&& n.ident == f.ident
    &&& n.signature == f.signature
    &&& n.param_ids@.len() == f.param_ids@.len()
    &&& forall|i: int|
        0 <= i < f.param_ids@.len() ==> (#[trigger] n.param_ids@[i])@ == param_names(
            pts,
            f.param_ids@,
            f.signature.param_types@,
        )[i]
    &&& n.params_st@ == ps.last()
    &&& stat_analysed(bs, f.body, n.body)
    &&& n.body_st@ == stat_spec(bs, f.body).unwrap().1.last()
}

/// `n` is what analysis makes of the program `p`, when it passes: every
/// function and the main statement analysed in the global scope with the
/// functions' labels, which is stored as the program's table.
pub open spec fn program_analysed(p: Program, n: Program) -> bool {
    let g = hoist(global_table(p), p.funcs@).unwrap();
    &&& n.funcs@.len() == p.funcs@.len()
    &&& forall|i: int| 0 <= i < p.funcs@.len() ==> func_analysed(seq![g], p.funcs@[i], #[trigger] n.funcs@[i])
    &&& scoped_analysed(seq![g], p.statement, n.statement)
    &&& n.symbol_table@ == g
}

proof fn lemma_param_names_len(ts: Seq<STable>, ids: Seq<Ident>, tys: Seq<Type>)
    ensures
        param_names(ts, ids, tys).len() == ids.len(),
    decreases ids.len(),
{
    if ids.len() > 0 && tys.len() > 0 {
        lemma_param_names_len(
            declare(ts, ids.last()@, tys.last()@, spec_size(tys.last()) as int),
            ids.drop_last(),
            tys.drop_last(),
        );
    }
}

proof fn lemma_param_names_step(ts: Seq<STable>, ids: Seq<Ident>, tys: Seq<Type>, n: int, m: int)
    requires
        0 < n <= ids.len(),
        0 < m <= tys.len(),
    ensures
        param_names(ts, ids.take(n), tys.take(m)) == param_names(
            declare(ts, ids[n - 1]@, tys[m - 1]@, spec_size(tys[m - 1]) as int),
            ids.take(n - 1),
            tys.take(m - 1),
        ).push(declared_name(ts, spec_size(tys[m - 1]) as int)),
{
    assert(ids.take(n).drop_last() =~= ids.take(n - 1));
    assert(tys.take(m).drop_last() =~= tys.take(m - 1));
}

/// Pairing the parameters from the end one step further gives the same
/// scopes.
proof fn lemma_declare_params_step(ts: Seq<STable>, ids: Seq<Ident>, tys: Seq<Type>, n: int, m: int)
    requires
        0 < n <= ids.len(),
        0 < m <= tys.len(),
        !ts.last().map.contains_key(ids[n - 1]@),
    ensures
        declare_params(ts, ids.take(n), tys.take(m)) == declare_params(
            declare(ts, ids[n - 1]@, tys[m - 1]@, spec_size(tys[m - 1]) as int),
            ids.take(n - 1),
            tys.take(m - 1),
        ),
{
    assert(ids.take(n).drop_last() =~= ids.take(n - 1));
    assert(tys.take(m).drop_last() =~= tys.take(m - 1));
}

proof fn lemma_types_size_step(tys: Seq<Type>, m: int)
    requires
        0 < m <= tys.len(),
    ensures
        types_size(tys.take(m)) == types_size(tys.take(m - 1)) + spec_size(tys[m - 1]),
        types_size(tys.take(m - 1)) >= 0,
{
    assert(tys.take(m).drop_last() =~= tys.take(m - 1));
    lemma_types_size_nonneg(tys.take(m - 1));
}

proof fn lemma_types_size_nonneg(tys: Seq<Type>)
    ensures
        types_size(tys) >= 0,
    decreases tys.len(),
{
    if tys.len() > 0 {
        lemma_types_size_nonneg(tys.drop_last());
    }
}

impl Func {
    /// Declares the parameters in the innermost scope, the last one first,
    /// renaming each identifier as its declaration does.
    fn declare_params(&mut self, scope: &mut ScopeBuilder) -> (r: AResult<()>)
        requires
            old(scope).ok(),
            all_known(old(self).signature.param_types@),
            total_size(old(scope)@) + types_size(old(self).signature.param_types@) <= i32::MAX,
        ensures
            final(scope).ok(),
            final(scope).labels_used() == old(scope).labels_used(),
            final(scope)@.len() == old(scope)@.len(),
            final(scope)@.drop_last() == old(scope)@.drop_last(),
            final(scope)@.last().prefix == old(scope)@.last().prefix,
            total_size(final(scope)@) <= total_size(old(scope)@) + types_size(old(self).signature.param_types@),
            r is Ok <==> declare_params(old(scope)@, old(self).param_ids@, old(self).signature.param_types@) is Some,
            r is Ok ==> declare_params(old(scope)@, old(self).param_ids@, old(self).signature.param_types@) == Some(
                final(scope)@,
            ),
            r matches Err(e) ==> e is Normal,
            r is Ok ==> forall|i: int|
                0 <= i < old(self).param_ids@.len() ==> (#[trigger] final(self).param_ids@[i])@ == param_names(
                    old(scope)@,
                    old(self).param_ids@,
                    old(self).signature.param_types@,
                )[i],
            final(self).ident == old(self).ident,
            final(self).param_ids@.len() == old(self).param_ids@.len(),
            final(self).signature == old(self).signature,
            final(self).body == old(self).body,
            final(self).body_st == old(self).body_st,
            final(self).params_st == old(self).params_st,
    {
        let ghost ts0 = scope@;
        let ghost ids0 = self.param_ids@;
        let ghost tys = self.signature.param_types@;
        let nt = self.signature.param_types.len();
        let ni = self.param_ids.len();
        let m = if nt < ni {
            nt
        } else {
            ni
        };
        proof {
            assert(ids0.take(ni as int) =~= ids0);
            assert(tys.take(nt as int) =~= tys);
            lemma_param_names_len(ts0, ids0, tys);
            assert(param_names(ts0, ids0, tys).take(ni as int) =~= param_names(ts0, ids0, tys));
            lemma_types_size_nonneg(tys);
            lemma_total_size_nonneg(ts0);
        }
        let mut j: usize = 0;
        while j < m
            invariant
                m <= nt,
                m <= ni,
                nt == self.signature.param_types@.len(),
                ni == self.param_ids@.len(),
                tys == self.signature.param_types@,
                ids0.len() == ni,
                ids0 == old(self).param_ids@,
                ts0 == old(scope)@,
                j <= m,
                scope.ok(),
                scope.labels_used() == old(scope).labels_used(),
                scope@.len() == ts0.len(),
                scope@.drop_last() == ts0.drop_last(),
                scope@.last().prefix == ts0.last().prefix,
                total_size(scope@) + types_size(tys.take(nt - j)) <= total_size(ts0) + types_size(tys),
                total_size(ts0) + types_size(tys) <= i32::MAX,
                all_known(tys),
                forall|k: int| 0 <= k < ni - j ==> self.param_ids@[k] == ids0[k],
                forall|k: int|
                    ni - j <= k < ni ==> (#[trigger] self.param_ids@[k])@ == param_names(ts0, ids0, tys)[k],
                param_names(ts0, ids0, tys).len() == ni,
                param_names(ts0, ids0, tys).take(ni - j) == param_names(scope@, ids0.take(ni - j), tys.take(nt - j)),
                declare_params(ts0, ids0, tys) == declare_params(scope@, ids0.take(ni - j), tys.take(nt - j)),
                self.ident == old(self).ident,
                self.signature == old(self).signature,
                self.body == old(self).body,
                self.body_st == old(self).body_st,
                self.params_st == old(self).params_st,
            decreases m - j,
        {
            let ti = nt - 1 - j;
            let ii = ni - 1 - j;
            let t = self.signature.param_types[ti].deep_clone();
            let mut id = self.param_ids[ii].clone();
            let ghost cur = scope@;
            proof {
                assert(!(tys[ti as int] is Any));
                assert(t@ == tys[ti as int]@);
                assert(!(t is Any));
                assert(spec_size(t) == spec_size(tys[ti as int]));
                lemma_types_size_step(tys, nt - j);
                assert(id@ == ids0[ii as int]@);
                lemma_last_le_total(cur);
                lemma_declare_shape(cur, id@, t@, spec_size(t) as int);
            }
            let res = scope.insert_var(&mut id, t);
            if res.is_err() {
                proof {
                    assert(ids0.take(ni - j).last() == ids0[ii as int]);
                    assert(tys.take(nt - j).drop_last() =~= tys.take(nt - j - 1));
                }
                return res;
            }
            proof {
                lemma_declare_params_step(cur, ids0, tys, ni - j, nt - j);
                lemma_param_names_step(cur, ids0, tys, ni - j, nt - j);
                let full = param_names(ts0, ids0, tys);
                let rest = param_names(scope@, ids0.take(ni - j - 1), tys.take(nt - j - 1));
                lemma_param_names_len(scope@, ids0.take(ni - j - 1), tys.take(nt - j - 1));
                assert(full.take(ni - j) == rest.push(declared_name(cur, spec_size(tys[nt - j - 1]) as int)));
                assert(full.take(ni - j - 1) =~= full.take(ni - j).drop_last());
                assert(full[ii as int] == full.take(ni - j)[ii as int]);
            }
            self.param_ids.set(ii, id);
            j = j + 1;
        }
        proof {
            lemma_types_size_nonneg(tys.take(nt - j));
            let full = param_names(ts0, ids0, tys);
            assert forall|k: int| 0 <= k < ni implies (#[trigger] self.param_ids@[k])@ == full[k] by {
                if k < ni - j {
                    assert(full[k] == full.take(ni - j)[k]);
                    assert(ids0.take(ni - j)[k] == ids0[k]);
                }
            }
            if ni - j == 0 {
                assert(ids0.take(0).len() == 0);
            } else {
                assert(tys.take(nt - j).len() == 0);
            }
        }
        Ok(())
    }
}

impl Func {
    /// Type checks a function: its parameters are declared in a scope of
    /// their own and its body is analysed in another one inside it. The body
    /// must end by returning a value of the declared return type; a body
    /// whose last statement is not a return or an exit is a syntax error.
    pub fn analyse(&mut self, scope: &mut ScopeBuilder, _aux: ()) -> (r: AResult<()>)
        requires
            old(scope).ok(),
            func_supported(total_size(old(scope)@), *old(self)),
        ensures
            final(scope).ok(),
            final(scope).labels_used() == old(scope).labels_used(),
            final(scope)@ == old(scope)@,
            r is Ok <==> func_check(old(scope)@, *old(self)) is Pass,
            r matches Err(e) ==> (no_syntax(e@) <==> !(func_check(old(scope)@, *old(self)) is MissingReturn)),
            func_skel(*final(self)) == func_skel(*old(self)),
            r is Ok ==> func_analysed(old(scope)@, *old(self), *final(self)),
    {
        reveal(func_check);
        let ghost ts = scope@;
        let ghost f0 = *self;
        let mut params = SymbolTable::default_table();
        std::mem::swap(&mut params, &mut self.params_st);
        proof {
            lemma_total_size_nonneg(ts);
            lemma_types_size_nonneg(f0.signature.param_types@);
            lemma_peak_growth(f0.body);
            assert(enter(ts, params@).drop_last() =~= ts);
        }
        scope.new_scope(params);
        let r = match self.declare_params(scope) {
            Err(e) => Err(e),
            Ok(()) => self.analyse_body(scope),
        };
        self.params_st = scope.exit_scope();
        r
    }

    /* Analyses the body in a new scope inside the parameters' one. */
    fn analyse_body(&mut self, scope: &mut ScopeBuilder) -> (r: AResult<()>)
        requires
            old(scope).ok(),
            table_wf(old(self).body_st@),
            stat_supported(old(self).body),
            total_size(old(scope)@) + old(self).body_st.size + stat_peak(old(self).body) <= i32::MAX,
        ensures
            final(scope).ok(),
            final(scope).labels_used() == old(scope).labels_used(),
            final(scope)@ == old(scope)@,
            r is Ok <==> body_check(old(scope)@, *old(self)) is Pass,
            r matches Err(e) ==> (no_syntax(e@) <==> !(body_check(old(scope)@, *old(self)) is MissingReturn)),
            func_skel(*final(self)) == func_skel(*old(self)),
            final(self).ident == old(self).ident,
            final(self).signature == old(self).signature,
            final(self).param_ids == old(self).param_ids,
            final(self).params_st == old(self).params_st,
            r is Ok ==> stat_analysed(enter(old(scope)@, old(self).body_st@), old(self).body, final(self).body)
                && final(self).body_st@ == stat_spec(enter(old(scope)@, old(self).body_st@), old(self).body).unwrap().1.last(),
    {
        let ghost ps = scope@;
        let mut body_st = SymbolTable::default_table();
        std::mem::swap(&mut body_st, &mut self.body_st);
        proof {
            lemma_total_size_nonneg(ps);
            lemma_peak_growth(self.body);
            assert(enter(ps, body_st@).drop_last() =~= ps);
        }
        scope.new_scope(body_st);
        let r = self.body.analyse(scope, ());
        self.body_st = scope.exit_scope();
        match r {
            Err(e) => Err(e),
            Ok(ReturnBehaviour::AtEnd(t)) => {
                if t.deep_clone().unify(self.signature.return_type.deep_clone()).is_none() {
                    Err(
                        SemanticError::Normal(
                            msg_two_types(
                                "Function body returns ",
                                &t,
                                " but function signature expects ",
                                &self.signature.return_type,
                            ),
                        ),
                    )
                } else {
                    Ok(())
                }
            },
            Ok(_) => Err(SemanticError::Syntax(to_string("The last statement should be a return or exit."))),
        }
    }
}

proof fn lemma_single_total(g: STable)
    ensures
        total_size(seq![g]) == g.size,
{
    assert(seq![g].drop_last() =~= Seq::<STable>::empty());
    assert(total_size(Seq::<STable>::empty()) == 0);
    assert(seq![g].last() == g);
}

impl Program {
    /// Type checks a whole program: the labels of all functions are added to
    /// the global scope first, so that any function may call any other, then
    /// the functions are checked in order, then the main statement, which
    /// may exit but may not return a value. The global table, with the
    /// labels, is stored back.
    pub fn analyse(&mut self) -> (r: AResult<()>)
        requires
            program_supported(*old(self)),
        ensures
            r is Ok <==> program_check(*old(self)) is Pass,
            r matches Err(e) ==> (no_syntax(e@) <==> !(program_check(*old(self)) is MissingReturn)),
            final(self).funcs@.len() == old(self).funcs@.len(),
            forall|i: int|
                0 <= i < old(self).funcs@.len() ==> func_skel(#[trigger] final(self).funcs@[i]) == func_skel(
                    old(self).funcs@[i],
                ),
            stat_skel(*final(self).statement.1) == stat_skel(*old(self).statement.1),
            r is Ok ==> program_analysed(*old(self), *final(self)),
    {
        let mut st = SymbolTable::default_table();
        std::mem::swap(&mut st, &mut self.symbol_table);
        let mut scope = ScopeBuilder::new(st);
        proof {
            lemma_single_total(scope@[0]);
            assert(scope@[0] == global_table(*old(self)));
        }
        let r = analyse_globals(&mut self.funcs, &mut self.statement, &mut scope);
        self.symbol_table = scope.into_table();
        r
    }
}

/* Hoists the functions' labels, checks the functions, then the main
statement, all in the global scope. */
fn analyse_globals(funcs: &mut Vec<Func>, statement: &mut ScopedStat, scope: &mut ScopeBuilder) -> (r: AResult<()>)
    requires
        old(scope)@.len() == 1,
        old(scope).ok(),
        forall|i: int| 0 <= i < old(funcs)@.len() ==> func_supported(old(scope)@[0].size as int, #[trigger] old(funcs)@[i]),
        scoped_supported(*old(statement)),
        old(scope)@[0].size + scoped_peak(*old(statement)) <= i32::MAX,
    ensures
        final(scope)@.len() == 1,
        r is Ok <==> globals_check(old(scope)@[0], old(funcs)@, *old(statement)) is Pass,
        r matches Err(e) ==> (no_syntax(e@) <==> !(globals_check(old(scope)@[0], old(funcs)@, *old(statement)) is MissingReturn)),
        final(funcs)@.len() == old(funcs)@.len(),
        forall|i: int|
            0 <= i < old(funcs)@.len() ==> func_skel(#[trigger] final(funcs)@[i]) == func_skel(old(funcs)@[i]),
        stat_skel(*final(statement).1) == stat_skel(*old(statement).1),
        r is Ok ==> ({
            let g = hoist(old(scope)@[0], old(funcs)@).unwrap();
            &&& final(scope)@ == seq![g]
            &&& forall|i: int|
                0 <= i < old(funcs)@.len() ==> func_analysed(seq![g], old(funcs)@[i], #[trigger] final(funcs)@[i])
            &&& scoped_analysed(seq![g], *old(statement), *final(statement))
        }),
{
    let ghost g0 = scope@[0];
    let ghost fs0 = funcs@;
    proof {
        assert(fs0.skip(0) =~= fs0);
    }
    /* Add all function signatures to the global scope before analysing
    (hoisting). */
    let mut i: usize = 0;
    while i < funcs.len()
        invariant
            funcs@ == fs0,
            fs0 == old(funcs)@,
            g0 == old(scope)@[0],
            *statement == *old(statement),
            i <= fs0.len(),
            scope.ok(),
            scope@.len() == 1,
            scope@[0].size == g0.size,
            hoist(g0, fs0) == hoist(scope@[0], fs0.skip(i as int)),
        decreases fs0.len() - i,
    {
        let ghost cur = scope@[0];
        let mut label = to_string("f_");
        push_str(&mut label, funcs[i].ident.as_str());
        let sig = funcs[i].signature.deep_clone();
        let info = IdentInfo::Label(Type::Func(Box::new(sig)), label);
        proof {
            reveal_strlit("f_");
            assert(label@ == func_label(fs0[i as int].ident@));
            assert(info@ == SIdentInfo::Label(sig_type(fs0[i as int].signature), func_label(fs0[i as int].ident@)));
            assert(fs0.skip(i as int)[0] == fs0[i as int]);
            assert(fs0.skip(i as int).skip(1) =~= fs0.skip(i + 1));
        }
        match scope.insert(&funcs[i].ident, info) {
            Err(e) => {
                proof {
                    assert(cur.map.contains_key(fs0[i as int].ident@));
                    assert(hoist(cur, fs0.skip(i as int)) is None);
                }
                return Err(e);
            },
            Ok(()) => {},
        }
        proof {
            assert(scope@[0] == scope@.last());
        }
        i = i + 1;
    }
    let ghost g = scope@[0];
    proof {
        assert(fs0.skip(fs0.len() as int) =~= Seq::<Func>::empty());
        assert(hoist(g0, fs0) == Some(g));
        assert(scope@ =~= seq![g]);
        lemma_single_total(g);
    }
    /* Analyse the functions. */
    let mut i: usize = 0;
    while i < funcs.len()
        invariant
            fs0 == old(funcs)@,
            g0 == old(scope)@[0],
            *statement == *old(statement),
            hoist(g0, fs0) == Some(g),
            funcs@.len() == fs0.len(),
            forall|k: int| i <= k < fs0.len() ==> funcs@[k] == fs0[k],
            forall|k: int| 0 <= k < i ==> func_skel(#[trigger] funcs@[k]) == func_skel(fs0[k]),
            forall|k: int| 0 <= k < i ==> func_analysed(seq![g], fs0[k], #[trigger] funcs@[k]),
            i <= fs0.len(),
            scope.ok(),
            scope@ == seq![g],
            total_size(seq![g]) == g0.size,
            forall|k: int| 0 <= k < fs0.len() ==> func_supported(g0.size as int, #[trigger] fs0[k]),
            funcs_check(seq![g], fs0) == funcs_check(seq![g], fs0.skip(i as int)),
        decreases fs0.len() - i,
    {
        let mut f = funcs.remove(i);
        proof {
            assert(f == fs0[i as int]);
            assert(fs0.skip(i as int)[0] == fs0[i as int]);
            assert(fs0.skip(i as int).skip(1) =~= fs0.skip(i + 1));
        }
        let r = f.analyse(scope, ());
        funcs.insert(i, f);
        r?;
        i = i + 1;
    }
    proof {
        assert(fs0.skip(fs0.len() as int) =~= Seq::<Func>::empty());
    }
    /* The main statement may exit but never return a value. */
    reveal(main_check);
    let rb = statement.analyse(scope, ())?;
    match rb.returned() {
        Some(t) => {
            if t.is_any() {
                Ok(())
            } else {
                Err(SemanticError::Normal(to_string("Cannot have 'return' statement in main")))
            }
        },
        None => Ok(()),
    }
}

/* ======== Whether a program's frames fit ======== */

/* The bytes a statement declares in its scope, when no more than fit in an
i32. */
fn growth_of(s: &Stat) -> (r: Option<i64>)
    requires
        stat_supported(*s),
    ensures
        r matches Some(v) ==> v == stat_growth(*s) && v <= i32::MAX,
        r is None ==> stat_growth(*s) > i32::MAX,
    decreases s,
{
    proof {
        lemma_peak_growth(*s);
    }
    match s {
        Stat::Declaration(t, _, _) => Some(t.size() as i64),
        Stat::Sequence(a, b) => {
            proof {
                lemma_peak_growth(**a);
                lemma_peak_growth(**b);
            }
            let x = growth_of(a)?;
            let y = growth_of(b)?;
            if x + y > 2147483647 {
                None
            } else {
                Some(x + y)
            }
        },
        Stat::For(d, _, _, _) => {
            proof {
                lemma_peak_growth(**d);
            }
            let g = growth_of(d)?;
            if 2 * g > 2147483647 {
                None
            } else {
                Some(2 * g)
            }
        },
        _ => Some(0),
    }
}

/* The most bytes a statement makes the scopes grow by, when no more than
fit in an i32. */
fn peak_of(s: &Stat) -> (r: Option<i64>)
    requires
        stat_supported(*s),
    ensures
        r matches Some(v) ==> v == stat_peak(*s) && v <= i32::MAX,
        r is None ==> stat_peak(*s) > i32::MAX,
    decreases s, 1nat,
{
    proof {
        lemma_peak_growth(*s);
    }
    match s {
        Stat::Declaration(t, _, _) => Some(t.size() as i64),
        Stat::Sequence(a, b) => {
            proof {
                lemma_peak_growth(**a);
                lemma_peak_growth(**b);
            }
            let pa = peak_of(a)?;
            let ga = growth_of(a)?;
            let pb = peak_of(b)?;
            if ga + pb > 2147483647 {
                return None;
            }
            if pa >= ga + pb {
                Some(pa)
            } else {
                Some(ga + pb)
            }
        },
        Stat::If(_, x, y) => {
            let px = scoped_peak_of(x)?;
            let py = scoped_peak_of(y)?;
            if px >= py {
                Some(px)
            } else {
                Some(py)
            }
        },
        Stat::While(_, b) => scoped_peak_of(b),
        Stat::Scope(b) => scoped_peak_of(b),
        Stat::For(d, _, b, _) => {
            proof {
                lemma_peak_growth(**d);
                lemma_scoped_peak(*b);
            }
            let pd = peak_of(d)?;
            let gd = growth_of(d)?;
            let pbody = scoped_peak_of(b)?;
            if 2 * gd + pbody > 2147483647 {
                return None;
            }
            if pd >= 2 * gd + pbody {
                Some(pd)
            } else {
                Some(2 * gd + pbody)
            }
        },
        _ => Some(0),
    }
}

fn scoped_peak_of(ss: &ScopedStat) -> (r: Option<i64>)
    requires
        scoped_supported(*ss),
    ensures
        r matches Some(v) ==> v == scoped_peak(*ss) && v <= i32::MAX,
        r is None ==> scoped_peak(*ss) > i32::MAX,
    decreases ss, 0nat,
{
    proof {
        lemma_scoped_peak(*ss);
        lemma_peak_growth(*ss.1);
    }
    let pb = peak_of(&ss.1)?;
    if ss.0.size as i64 + pb > 2147483647 {
        None
    } else {
        Some(ss.0.size as i64 + pb)
    }
}

/* The bytes taken by the values of the types, when no more than fit in an
i32. */
fn types_size_of(tys: &Vec<Type>) -> (r: Option<i64>)
    ensures
        r matches Some(v) ==> v == types_size(tys@) && v <= i32::MAX,
        r is None ==> types_size(tys@) > i32::MAX,
{
    let mut total: i64 = 0;
    let mut i: usize = 0;
    proof {
        assert(tys@.take(0) =~= Seq::<Type>::empty());
    }
    while i < tys.len()
        invariant
            i <= tys@.len(),
            total == types_size(tys@.take(i as int)),
            0 <= total <= i32::MAX,
        decreases tys@.len() - i,
    {
        proof {
            lemma_types_size_step(tys@, i + 1);
            assert(tys@.take(i + 1).take(i as int) =~= tys@.take(i as int));
        }
        let sz: i64 = match &tys[i] {
            Type::Bool | Type::Char => 1,
            _ => 4,
        };
        total = total + sz;
        if total > 2147483647 {
            proof {
                lemma_types_size_prefix(tys@, i + 1);
            }
            return None;
        }
        i = i + 1;
    }
    proof {
        assert(tys@.take(i as int) =~= tys@);
    }
    Some(total)
}

proof fn lemma_types_size_prefix(tys: Seq<Type>, n: int)
    requires
        0 <= n <= tys.len(),
    ensures
        types_size(tys.take(n)) <= types_size(tys),
    decreases tys.len() - n,
{
    if n < tys.len() {
        lemma_types_size_prefix(tys, n + 1);
        lemma_types_size_step(tys, n + 1);
        assert(tys.take(n + 1).take(n) =~= tys.take(n));
    } else {
        assert(tys.take(n) =~= tys);
    }
}

/// Whether the frames of a program fit in an `i32`: for a program whose
/// tables, types and statements the analyser handles, this is whether it
/// handles the program.
pub fn program_fits(p: &Program) -> (r: bool)
    requires
        table_wf(global_table(*p)),
        forall|i: int|
            0 <= i < p.funcs@.len() ==> {
                &&& table_wf((#[trigger] p.funcs@[i]).params_st@)
                &&& table_wf(p.funcs@[i].body_st@)
                &&& all_known(p.funcs@[i].signature.param_types@)
                &&& stat_supported(p.funcs@[i].body)
            },
        scoped_supported(p.statement),
    ensures
        r == program_supported(*p),
{
    let outer = p.symbol_table.size as i64;
    let mut i: usize = 0;
    while i < p.funcs.len()
        invariant
            i <= p.funcs@.len(),
            outer == p.symbol_table.size,
            forall|j: int|
                0 <= j < p.funcs@.len() ==> {
                    &&& table_wf((#[trigger] p.funcs@[j]).params_st@)
                    &&& table_wf(p.funcs@[j].body_st@)
                    &&& all_known(p.funcs@[j].signature.param_types@)
                    &&& stat_supported(p.funcs@[j].body)
                },
            forall|j: int| 0 <= j < i ==> func_supported(outer as int, #[trigger] p.funcs@[j]),
        decreases p.funcs@.len() - i,
    {
        let f = &p.funcs[i];
        proof {
            lemma_types_size_nonneg(f.signature.param_types@);
            lemma_peak_growth(f.body);
        }
        let ts = match types_size_of(&f.signature.param_types) {
            Some(v) => v,
            None => {
                return false;
            },
        };
        let pk = match peak_of(&f.body) {
            Some(v) => v,
            None => {
                return false;
            },
        };
        if outer + f.params_st.size as i64 + ts + f.body_st.size as i64 + pk > 2147483647 {
            return false;
        }
        i = i + 1;
    }
    match scoped_peak_of(&p.statement) {
        Some(v) => outer + v <= 2147483647,
        None => {
            proof {
                lemma_scoped_peak(p.statement);
            }
            false
        },
    }
}

} // verus!

use vstd::prelude::*;

use super::{AResult, SError, SemanticError};
use crate::ast::{Ident, SStruct, SType, Struct, Type, spec_size};
use crate::generator::arm::{Label, Offset};
use crate::ident_map::IdentMap;
use crate::text::{concat_num, int_str, push_char, to_string};

verus! {

#[derive(PartialEq, Clone, Debug)]
pub enum IdentInfo {
    /* Ident is top level function, what is it's label? */
    Label(Type, Label),
    /* Ident is local var, what is it's offset from stack pointer? */
    LocalVar(Type, Offset),
    /* Ident is a struct definition. */
    TypeDef(Struct),
}

/// Mathematical value of what an identifier stands for.
pub enum SIdentInfo {
    Label(SType, Seq<char>),
    LocalVar(SType, i32),
    TypeDef(SStruct),
}

impl View for IdentInfo {
    type V = SIdentInfo;

    open spec fn view(&self) -> SIdentInfo {
        match self {
            IdentInfo::Label(t, l) => SIdentInfo::Label(t@, l@),
            IdentInfo::LocalVar(t, o) => SIdentInfo::LocalVar(t@, *o),
            IdentInfo::TypeDef(s) => SIdentInfo::TypeDef(s@),
        }
    }
}

impl IdentInfo {
    pub fn deep_clone(&self) -> (r: IdentInfo)
        ensures
            r@ == self@,
    {
        match self {
            IdentInfo::Label(t, l) => IdentInfo::Label(t.deep_clone(), l.clone()),
            IdentInfo::LocalVar(t, o) => IdentInfo::LocalVar(t.deep_clone(), *o),
            IdentInfo::TypeDef(s) => IdentInfo::TypeDef(s.deep_clone()),
        }
    }
}

/* Associates each ident with an offset from the TOP of this stack frame,
also stores the total size of this stack frame. */
#[derive(PartialEq, Clone, Debug)]
pub struct SymbolTable {
    /* The offsets stored here are distances from THE TOP of the scope
    (NOT FROM THE STACK POINTER). */
    pub table: IdentMap<IdentInfo>,
    /* Sum of offsets in table. */
    pub size: Offset,
    /* One '_' for each scope above this one. */
    pub prefix: String,
}

impl SymbolTable {
    /* Makes an empty symbol table with size = offset, this has the effect
    of recognising the stack pointer having moved down by {offset} bytes. */
    pub fn empty(size: Offset) -> (r: SymbolTable)
        ensures
            r.table.spec_len() == 0,
            forall|k: Seq<char>| r.table.spec_get(k) is None,
            r.size == size,
            r.prefix@ == Seq::<char>::empty(),
    {
        SymbolTable { table: IdentMap::new(), size, prefix: String::new() }
    }

    pub open spec fn is_blank(&self) -> bool {
        &&& self.table.spec_len() == 0
        &&& forall|k: Seq<char>| self.table.spec_get(k) is None
        &&& self.size == 0
        &&& self.prefix@ == Seq::<char>::empty()
    }

    pub fn default_table() -> (r: SymbolTable)
        ensures
            r.is_blank(),
    {
        SymbolTable::empty(0)
    }
}

impl Default for SymbolTable {
    fn default() -> (r: SymbolTable)
        ensures
            r.is_blank(),
    {
        SymbolTable::default_table()
    }
}

/// Mathematical value of a symbol table.
pub struct STable {
    pub map: Map<Seq<char>, SIdentInfo>,
    pub size: i32,
    pub prefix: Seq<char>,
}

pub open spec fn table_map(m: IdentMap<IdentInfo>) -> Map<Seq<char>, SIdentInfo> {
    Map::new(|k: Seq<char>| m.has_key(k), |k: Seq<char>| m.spec_get(k).unwrap()@)
}

impl View for SymbolTable {
    type V = STable;

    open spec fn view(&self) -> STable {
        STable { map: table_map(self.table), size: self.size, prefix: self.prefix@ }
    }
}

/// A local variable's offset lies within the size of its table.
pub open spec fn offset_ok(info: SIdentInfo, size: i32) -> bool {
    match info {
        SIdentInfo::LocalVar(_, off) => 0 <= off <= size,
        _ => true,
    }
}

/// Local variable offsets lie within the table's size, which is not negative.
pub open spec fn table_wf(t: STable) -> bool {
    &&& 0 <= t.size
    &&& forall|k: Seq<char>| #[trigger] t.map.contains_key(k) ==> offset_ok(t.map[k], t.size)
}

/// Sum of the sizes of a chain of scopes.
pub open spec fn total_size(ts: Seq<STable>) -> int
    decreases ts.len(),
{
    if ts.len() == 0 {
        0
    } else {
        total_size(ts.drop_last()) + ts.last().size
    }
}

pub open spec fn scopes_wf(ts: Seq<STable>) -> bool {
    &&& forall|i: int| 0 <= i < ts.len() ==> table_wf(#[trigger] ts[i])
    &&& total_size(ts) <= i32::MAX
}

/// What an identifier stands for, seen from the innermost scope of `ts`
/// (the last one). Local variable offsets are distances from the bottom of
/// the innermost scope: the offset within the declaring scope, measured from
/// its bottom, plus the sizes of all scopes inside it.
pub open spec fn scope_get(ts: Seq<STable>, k: Seq<char>) -> Option<SIdentInfo>
    decreases ts.len(),
{
    if ts.len() == 0 {
        None
    } else {
        let cur = ts.last();
        if cur.map.contains_key(k) {
            match cur.map[k] {
                SIdentInfo::LocalVar(t, off) => Some(SIdentInfo::LocalVar(t, (cur.size - off) as i32)),
                info => Some(info),
            }
        } else {
            match scope_get(ts.drop_last(), k) {
                Some(SIdentInfo::LocalVar(t, o)) => Some(SIdentInfo::LocalVar(t, (o + cur.size) as i32)),
                r => r,
            }
        }
    }
}

/// The name a local variable gets in the generated code: the prefix of its
/// scope followed by its offset. Other identifiers keep their name.
pub open spec fn scope_rename(ts: Seq<STable>, k: Seq<char>) -> Seq<char>
    decreases ts.len(),
{
    if ts.len() == 0 {
        k
    } else {
        let cur = ts.last();
        if cur.map.contains_key(k) {
            match cur.map[k] {
                SIdentInfo::LocalVar(_, off) => cur.prefix + int_str(off as int),
                _ => k,
            }
        } else {
            scope_rename(ts.drop_last(), k)
        }
    }
}

/// The scopes after declaring `k` in the innermost one, as a variable of a
/// type `t` that takes `sz` bytes.
pub open spec fn declare(ts: Seq<STable>, k: Seq<char>, t: SType, sz: int) -> Seq<STable> {
    let cur = ts.last();
    ts.update(
        ts.len() - 1,
        STable {
            map: cur.map.insert(k, SIdentInfo::LocalVar(t, (cur.size + sz) as i32)),
            size: (cur.size + sz) as i32,
            prefix: cur.prefix,
        },
    )
}

/// The scopes after entering a scope whose table is `t`.
pub open spec fn enter(ts: Seq<STable>, t: STable) -> Seq<STable> {
    ts.push(STable { map: t.map, size: t.size, prefix: ts.last().prefix + seq!['_'] })
}

pub proof fn lemma_total_size_nonneg(ts: Seq<STable>)
    requires
        forall|i: int| 0 <= i < ts.len() ==> table_wf(#[trigger] ts[i]),
    ensures
        total_size(ts) >= 0,
        ts.len() > 0 ==> total_size(ts) >= ts.last().size,
    decreases ts.len(),
{
    if ts.len() > 0 {
        assert(table_wf(ts[ts.len() - 1]));
        lemma_total_size_nonneg(ts.drop_last());
    }
}

pub proof fn lemma_total_size_prefix(ts: Seq<STable>, n: int)
    requires
        0 <= n <= ts.len(),
        forall|i: int| 0 <= i < ts.len() ==> table_wf(#[trigger] ts[i]),
    ensures
        0 <= total_size(ts.take(n)) <= total_size(ts),
    decreases ts.len(),
{
    if n < ts.len() {
        assert(table_wf(ts[ts.len() - 1]));
        assert(ts.drop_last().take(n) =~= ts.take(n));
        lemma_total_size_prefix(ts.drop_last(), n);
    } else {
        assert(ts.take(n) =~= ts);
    }
    lemma_total_size_nonneg(ts.take(n));
}

/// Offsets found by lookup lie within the total size of the scopes.
pub proof fn lemma_scope_get_bounded(ts: Seq<STable>, k: Seq<char>)
    requires
        forall|i: int| 0 <= i < ts.len() ==> table_wf(#[trigger] ts[i]),
        total_size(ts) <= i32::MAX,
    ensures
        scope_get(ts, k) matches Some(SIdentInfo::LocalVar(_, o)) ==> 0 <= o <= total_size(ts),
    decreases ts.len(),
{
    if ts.len() > 0 {
        assert(table_wf(ts[ts.len() - 1]));
        lemma_total_size_nonneg(ts);
        lemma_total_size_nonneg(ts.drop_last());
        lemma_scope_get_bounded(ts.drop_last(), k);
    }
}

/// Changing only the innermost table changes the total by its change in size.
pub proof fn lemma_total_size_update(ts: Seq<STable>, t: STable)
    requires
        ts.len() > 0,
    ensures
        total_size(ts.update(ts.len() - 1, t)) == total_size(ts) - ts.last().size + t.size,
{
    let u = ts.update(ts.len() - 1, t);
    assert(u.drop_last() =~= ts.drop_last());
}

/// Declaring a variable keeps the scopes well formed.
pub proof fn lemma_declare_wf(ts: Seq<STable>, k: Seq<char>, t: SType, sz: int)
    requires
        ts.len() > 0,
        scopes_wf(ts),
        0 <= sz,
        total_size(ts) + sz <= i32::MAX,
    ensures
        scopes_wf(declare(ts, k, t, sz)),
        declare(ts, k, t, sz).len() == ts.len(),
        total_size(declare(ts, k, t, sz)) == total_size(ts) + sz,
{
    let d = declare(ts, k, t, sz);
    lemma_total_size_nonneg(ts);
    lemma_total_size_update(ts, d.last());
    assert forall|i: int| 0 <= i < d.len() implies table_wf(#[trigger] d[i]) by {
        if i < ts.len() - 1 {
            assert(d[i] == ts[i]);
        } else {
            assert(table_wf(ts[i]));
            assert forall|k2: Seq<char>| #[trigger] d[i].map.contains_key(k2) implies offset_ok(
                d[i].map[k2],
                d[i].size,
            ) by {
                if k2 != k {
                    assert(ts[i].map.contains_key(k2));
                }
            }
        }
    }
}

/// Entering a scope keeps the scopes well formed.
pub proof fn lemma_enter_wf(ts: Seq<STable>, t: STable)
    requires
        ts.len() > 0,
        scopes_wf(ts),
        table_wf(t),
        total_size(ts) + t.size <= i32::MAX,
    ensures
        scopes_wf(enter(ts, t)),
        total_size(enter(ts, t)) == total_size(ts) + t.size,
{
    let e = enter(ts, t);
    assert(e.drop_last() =~= ts);
    assert forall|i: int| 0 <= i < e.len() implies table_wf(#[trigger] e[i]) by {
        if i < ts.len() {
            assert(e[i] == ts[i]);
        }
    }
}

#[derive(Debug)]
pub struct ScopeBuilder {
    /* The chain of scopes: the global scope first, the current scope last. */
    scopes: Vec<SymbolTable>,
    next_label: u32,
}

impl View for ScopeBuilder {
    type V = Seq<STable>;

    /// The chain of open scopes, outermost first.
    closed spec fn view(&self) -> Seq<STable> {
        self.scopes@.map_values(|t: SymbolTable| t@)
    }
}

impl ScopeBuilder {
    /// How many fresh identifiers have been handed out.
    pub closed spec fn labels_used(self) -> nat {
        self.next_label as nat
    }

    pub open spec fn ok(self) -> bool {
        &&& self@.len() >= 1
        &&& scopes_wf(self@)
    }

    /* Makes a scope builder whose global scope is `symbol_table`. */
    pub fn new(symbol_table: SymbolTable) -> (r: ScopeBuilder)
        ensures
            r@ == seq![
                STable { map: symbol_table@.map, size: symbol_table.size, prefix: Seq::empty() },
            ],
            r.labels_used() == 0,
    {
        /* This is base symbol table, depth = 0. */
        let mut symbol_table = symbol_table;
        symbol_table.prefix = String::new();
        let mut scopes = Vec::new();
        scopes.push(symbol_table);
        let r = ScopeBuilder { scopes, next_label: 0 };
        assert(r@ =~= seq![STable { map: symbol_table@.map, size: symbol_table.size, prefix: Seq::empty() }]);
        r
    }

    /// Gives back the innermost table.
    pub fn into_table(self) -> (r: SymbolTable)
        requires
            self@.len() >= 1,
        ensures
            r@ == self@.last(),
    {
        let mut scopes = self.scopes;
        scopes.pop().unwrap()
    }

    /// A fresh identifier, "af_{n}:" for the n-th call.
    fn get_ident(&mut self) -> (r: Ident)
        requires
            old(self).labels_used() < u32::MAX,
        ensures
            r@ == seq!['a', 'f', '_'] + int_str(old(self).labels_used() as int) + seq![':'],
            final(self).labels_used() == old(self).labels_used() + 1,
            final(self)@ == old(self)@,
    {
        let ret = self.next_label;
        self.next_label = self.next_label + 1;
        let mut s = concat_num("af_", ret as i64);
        push_char(&mut s, ':');
        proof {
            reveal_strlit("af_");
        }
        assert(s@ =~= seq!['a', 'f', '_'] + int_str(ret as int) + seq![':']);
        s
    }

    /// A fresh identifier, different from every earlier one.
    pub fn get_unique(&mut self) -> (r: Ident)
        requires
            old(self).labels_used() < u32::MAX,
        ensures
            r@ == seq!['a', 'f', '_'] + int_str(old(self).labels_used() as int) + seq![':'],
            final(self).labels_used() == old(self).labels_used() + 1,
            final(self)@ == old(self)@,
    {
        self.get_ident()
    }

    /* Get the information about this ident, renames it if it's a local
    variable (global rename). The offsets returned are distances from THE
    BOTTOM of this scope (THE STACK POINTER). */
    pub fn get(&self, ident: &mut Ident) -> (r: Option<IdentInfo>)
        requires
            scopes_wf(self@),
        ensures
            r is Some <==> scope_get(self@, old(ident)@) is Some,
            r matches Some(info) ==> scope_get(self@, old(ident)@) == Some(info@),
            final(ident)@ == scope_rename(self@, old(ident)@),
    {
        proof {
            assert(self@.take(self@.len() as int) =~= self@);
        }
        self.get_at(self.scopes.len(), ident)
    }

    /* Looks the identifier up in the chain of the first `n` scopes. */
    fn get_at(&self, n: usize, ident: &mut Ident) -> (r: Option<IdentInfo>)
        requires
            n <= self@.len(),
            scopes_wf(self@),
        ensures
            r is Some <==> scope_get(self@.take(n as int), old(ident)@) is Some,
            r matches Some(info) ==> scope_get(self@.take(n as int), old(ident)@) == Some(info@),
            final(ident)@ == scope_rename(self@.take(n as int), old(ident)@),
        decreases n,
    {
        let ghost ts = self@.take(n as int);
        let ghost k = ident@;
        if n == 0 {
            return None;
        }
        proof {
            assert(ts.drop_last() =~= self@.take(n - 1));
            assert forall|i: int| 0 <= i < ts.len() implies table_wf(#[trigger] ts[i]) by {
                assert(table_wf(self@[i]));
            }
            lemma_total_size_prefix(self@, n as int);
            lemma_total_size_nonneg(ts);
            lemma_total_size_nonneg(ts.drop_last());
            lemma_scope_get_bounded(ts.drop_last(), k);
            assert(ts.last() == self.scopes@[n - 1]@);
            assert(table_wf(self@[n - 1]));
        }
        let cur = &self.scopes[n - 1];
        match cur.table.get(ident.as_str()) {
            /* Identifier declared in this scope, return. */
            Some(info) => {
                proof {
                    assert(cur@.map.contains_key(k));
                    assert(offset_ok(cur@.map[k], cur.size));
                }
                match info {
                    IdentInfo::LocalVar(type_, offset) => {
                        /* Local variables get renamed. */
                        *ident = concat_num(cur.prefix.as_str(), *offset as i64);
                        Some(IdentInfo::LocalVar(type_.deep_clone(), cur.size - *offset))
                    },
                    _ => Some(info.deep_clone()),
                }
            },
            /* Look for identifier in parent scope, recurse. */
            None => {
                assert(!cur@.map.contains_key(k));
                match self.get_at(n - 1, ident) {
                    Some(IdentInfo::LocalVar(t, offset)) => Some(IdentInfo::LocalVar(t, offset + cur.size)),
                    r => r,
                }
            },
        }
    }

    pub fn get_var(&self, ident: &mut Ident) -> (r: Option<(Type, Offset)>)
        requires
            scopes_wf(self@),
        ensures
            r is Some <==> scope_get(self@, old(ident)@) matches Some(SIdentInfo::LocalVar(_, _)),
            r matches Some((t, o)) ==> scope_get(self@, old(ident)@) == Some(SIdentInfo::LocalVar(t@, o)),
            final(ident)@ == scope_rename(self@, old(ident)@),
    {
        match self.get(ident) {
            Some(IdentInfo::LocalVar(t, offset)) => Some((t, offset)),
            _ => None,
        }
    }

    pub fn get_def(&self, ident: &mut Ident) -> (r: Option<Struct>)
        requires
            scopes_wf(self@),
        ensures
            r is Some <==> scope_get(self@, old(ident)@) matches Some(SIdentInfo::TypeDef(_)),
            r matches Some(def) ==> scope_get(self@, old(ident)@) == Some(SIdentInfo::TypeDef(def@)),
            final(ident)@ == scope_rename(self@, old(ident)@),
    {
        match self.get(ident) {
            Some(IdentInfo::TypeDef(def)) => Some(def),
            _ => None,
        }
    }

    pub fn get_label(&self, ident: &mut Ident) -> (r: Option<(Type, Label)>)
        requires
            scopes_wf(self@),
        ensures
            r is Some <==> scope_get(self@, old(ident)@) matches Some(SIdentInfo::Label(_, _)),
            r matches Some((t, l)) ==> scope_get(self@, old(ident)@) == Some(SIdentInfo::Label(t@, l@)),
            final(ident)@ == scope_rename(self@, old(ident)@),
    {
        match self.get(ident) {
            Some(IdentInfo::Label(t, label)) => Some((t, label)),
            _ => None,
        }
    }

    /// Declares a local variable of type `t` in the current scope: the scope
    /// grows by the size of `t`, the variable's offset is the new size, and
    /// the identifier is renamed to the scope's prefix followed by that
    /// offset. Redeclaring a name in the same scope is an error (the entry is
    /// still overwritten and the scope still grows, but the name is kept).
    pub fn insert_var(&mut self, ident: &mut Ident, t: Type) -> (r: AResult<()>)
        requires
            old(self).ok(),
            !(t is Any),
            total_size(old(self)@) + spec_size(t) <= i32::MAX,
        ensures
            final(self).ok(),
            final(self).labels_used() == old(self).labels_used(),
            final(self)@ == declare(old(self)@, old(ident)@, t@, spec_size(t) as int),
            r is Err <==> old(self)@.last().map.contains_key(old(ident)@),
            r matches Err(e) ==> e@ == SError::Normal(redefine_msg()),
            r is Ok ==> final(ident)@ == old(self)@.last().prefix + int_str(
                old(self)@.last().size + spec_size(t),
            ),
            r is Err ==> final(ident)@ == old(ident)@,
    {
        let ghost k = ident@;
        let last = self.scopes.len() - 1;
        let mut cur = SymbolTable::default_table();
        std::mem::swap(&mut cur, &mut self.scopes[last]);
        proof {
            lemma_total_size_nonneg(old(self)@);
            assert(table_wf(old(self)@[last as int]));
            assert(cur@ == old(self)@.last());
        }
        /* Local variables increase the size of this scope. */
        cur.size = cur.size + t.size();
        /* Offset of this variable from top of stack frame will be size of
        stack frame. */
        let offset = cur.size;
        let ghost tv = t@;
        let ghost old_table = cur.table;
        let res = match cur.table.insert(ident.clone(), IdentInfo::LocalVar(t, offset)) {
            Some(_) => Err(SemanticError::Normal(redefine_message())),
            None => Ok(()),
        };
        proof {
            assert(table_map(cur.table) =~= table_map(old_table).insert(k, SIdentInfo::LocalVar(tv, offset))) by {
                assert forall|k2: Seq<char>| #[trigger] cur.table.has_key(k2) == (old_table.has_key(k2) || k2 == k) by {
                    if k2 != k {
                        assert(cur.table.spec_get(k2) == old_table.spec_get(k2));
                    }
                }
            }
        }
        if res.is_ok() {
            /* Local variables get renamed. */
            *ident = concat_num(cur.prefix.as_str(), offset as i64);
        }
        std::mem::swap(&mut cur, &mut self.scopes[last]);
        proof {
            assert(self@ =~= declare(old(self)@, k, tv, spec_size(t) as int));
            lemma_declare_wf(old(self)@, k, tv, spec_size(t) as int);
        }
        res
    }

    /* Sets the information of an identifier in the current scope. An
    identifier already there is replaced, and that is an error. */
    pub fn insert(&mut self, ident: &Ident, val: IdentInfo) -> (r: AResult<()>)
        requires
            old(self).ok(),
            offset_ok(val@, old(self)@.last().size),
        ensures
            final(self).ok(),
            final(self).labels_used() == old(self).labels_used(),
            final(self)@ == old(self)@.update(
                old(self)@.len() - 1,
                STable {
                    map: old(self)@.last().map.insert(ident@, val@),
                    size: old(self)@.last().size,
                    prefix: old(self)@.last().prefix,
                },
            ),
            r is Err <==> old(self)@.last().map.contains_key(ident@),
            r matches Err(e) ==> e@ == SError::Normal(redefine_msg()),
    {
        let ghost k = ident@;
        let ghost vv = val@;
        let last = self.scopes.len() - 1;
        let mut cur = SymbolTable::default_table();
        std::mem::swap(&mut cur, &mut self.scopes[last]);
        let ghost old_table = cur.table;
        proof {
            assert(cur@ == old(self)@.last());
        }
        let res = match cur.table.insert(ident.clone(), val) {
            /* Val replaced something but we aren't allowed to change the type
            of variables. */
            Some(_) => Err(SemanticError::Normal(redefine_message())),
            /* No conflict, first time this identifier used in this scope. */
            None => Ok(()),
        };
        proof {
            assert(table_map(cur.table) =~= table_map(old_table).insert(k, vv)) by {
                assert forall|k2: Seq<char>| #[trigger] cur.table.has_key(k2) == (old_table.has_key(k2) || k2 == k) by {
                    if k2 != k {
                        assert(cur.table.spec_get(k2) == old_table.spec_get(k2));
                    }
                }
            }
        }
        std::mem::swap(&mut cur, &mut self.scopes[last]);
        proof {
            let o = old(self)@;
            let nt = STable { map: o.last().map.insert(k, vv), size: o.last().size, prefix: o.last().prefix };
            assert(self@ =~= o.update(o.len() - 1, nt));
            lemma_total_size_update(o, nt);
            assert forall|i: int| 0 <= i < self@.len() implies table_wf(#[trigger] self@[i]) by {
                if i < last {
                    assert(self@[i] == o[i]);
                } else {
                    assert(table_wf(o[i]));
                    assert forall|k2: Seq<char>| #[trigger] self@[i].map.contains_key(k2) implies offset_ok(
                        self@[i].map[k2],
                        self@[i].size,
                    ) by {
                        if k2 != k {
                            assert(o[i].map.contains_key(k2));
                        }
                    }
                }
            }
        }
        res
    }

    /// Enters a new scope: `symbol_table` becomes the innermost scope, its
    /// prefix one '_' longer than the current one.
    pub fn new_scope(&mut self, symbol_table: SymbolTable)
        requires
            old(self).ok(),
            table_wf(symbol_table@),
            total_size(old(self)@) + symbol_table.size <= i32::MAX,
        ensures
            final(self).ok(),
            final(self).labels_used() == old(self).labels_used(),
            final(self)@ == enter(old(self)@, symbol_table@),
    {
        /* Every time we enter a new scope, add another _ to all the variable
        names. */
        let mut symbol_table = symbol_table;
        proof {
            assert(old(self)@.last() == old(self).scopes@[old(self).scopes@.len() - 1]@);
        }
        let mut prefix = self.scopes[self.scopes.len() - 1].prefix.clone();
        push_char(&mut prefix, '_');
        assert(prefix@ =~= old(self)@.last().prefix + seq!['_']);
        let ghost st = symbol_table@;
        symbol_table.prefix = prefix;
        self.scopes.push(symbol_table);
        proof {
            assert(self@.drop_last() =~= old(self)@);
            assert(self@.last() == symbol_table@);
            assert(self@ =~= enter(old(self)@, st));
            lemma_enter_wf(old(self)@, st);
        }
    }

    /// Leaves the innermost scope and gives back its table.
    pub fn exit_scope(&mut self) -> (r: SymbolTable)
        requires
            old(self).ok(),
            old(self)@.len() >= 2,
        ensures
            final(self).ok(),
            final(self).labels_used() == old(self).labels_used(),
            final(self)@ == old(self)@.drop_last(),
            r@ == old(self)@.last(),
            table_wf(r@),
    {
        let r = self.scopes.pop().unwrap();
        proof {
            let ts = self@;
            assert(ts =~= old(self)@.drop_last());
            assert(table_wf(old(self)@[old(self)@.len() - 1]));
            assert forall|i: int| 0 <= i < ts.len() implies table_wf(#[trigger] ts[i]) by {
                assert(ts[i] == old(self)@[i]);
            }
            lemma_total_size_nonneg(old(self)@);
        }
        r
    }
}

/// A variable declared in the innermost scope is found there, as a local
/// variable of its type at offset 0 from the bottom of the scope.
pub proof fn law_declared_found(ts: Seq<STable>, k: Seq<char>, t: SType, sz: int)
    requires
        ts.len() > 0,
        0 <= ts.last().size + sz <= i32::MAX,
    ensures
        scope_get(declare(ts, k, t, sz), k) == Some(SIdentInfo::LocalVar(t, 0)),
        scope_rename(declare(ts, k, t, sz), k) == ts.last().prefix + int_str(ts.last().size + sz),
{
    let d = declare(ts, k, t, sz);
    assert(d.last().map.contains_key(k));
}

/// Declaring a variable leaves what every other identifier stands for
/// unchanged, except that local variables of outer scopes are the size of
/// the new variable further from the bottom of the innermost scope.
pub proof fn law_declare_others(ts: Seq<STable>, k: Seq<char>, t: SType, sz: int, other: Seq<char>)
    requires
        ts.len() > 0,
        scopes_wf(ts),
        0 <= sz,
        total_size(ts) + sz <= i32::MAX,
        other != k,
    ensures
        ({
            let d = declare(ts, k, t, sz);
            match scope_get(ts, other) {
                Some(SIdentInfo::LocalVar(u, o)) => scope_get(d, other) == Some(
                    SIdentInfo::LocalVar(u, (o + sz) as i32),
                ),
                r => scope_get(d, other) == r,
            }
        }),
{
    let d = declare(ts, k, t, sz);
    assert(d.drop_last() =~= ts.drop_last());
    lemma_total_size_nonneg(ts);
    assert(table_wf(ts[ts.len() - 1]));
    let inner = ts.drop_last();
    assert forall|i: int| 0 <= i < inner.len() implies table_wf(#[trigger] inner[i]) by {
        assert(inner[i] == ts[i]);
    }
    lemma_total_size_nonneg(inner);
    lemma_scope_get_bounded(inner, other);
    if ts.last().map.contains_key(other) {
        assert(offset_ok(ts.last().map[other], ts.last().size));
    }
}

/// Entering a scope whose table does not have an identifier leaves what it
/// stands for unchanged, except that local variables are the size of the new
/// scope further from its bottom.
pub proof fn law_enter_shifts(ts: Seq<STable>, t: STable, k: Seq<char>)
    requires
        !t.map.contains_key(k),
    ensures
        match scope_get(ts, k) {
            Some(SIdentInfo::LocalVar(u, o)) => scope_get(enter(ts, t), k) == Some(
                SIdentInfo::LocalVar(u, (o + t.size) as i32),
            ),
            r => scope_get(enter(ts, t), k) == r,
        },
{
    assert(enter(ts, t).drop_last() =~= ts);
}

/// The message for a name declared twice in one scope.
pub open spec fn redefine_msg() -> Seq<char> {
    "Attempt to redefine identifier in current scope."@
}

fn redefine_message() -> (r: String)
    ensures
        r@ == redefine_msg(),
{
    to_string("Attempt to redefine identifier in current scope.")
}

} // verus!

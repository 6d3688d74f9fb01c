use vstd::prelude::*;

use crate::analyser::context::{IdentInfo, SIdentInfo, SymbolTable};
use crate::ast::{Ident, SStruct, Struct};
use crate::ident_map::IdentMap;
use crate::text::{concat_num, int_str};

verus! {

/* The code generator's view of symbol tables. By the time code is
generated, the analyser has renamed every local variable of the syntax tree
to its scope's prefix followed by its offset, so tables are read by those
names. */

/// The name a table entry is read by: a local variable's new name, or the
/// identifier itself.
pub open spec fn entry_name(k: Seq<char>, info: SIdentInfo, prefix: Seq<char>) -> Seq<char> {
    match info {
        SIdentInfo::LocalVar(_, off) => prefix + int_str(off as int),
        _ => k,
    }
}

/// The entries of a table, indexed by the names they are read by; a later
/// entry read by the same name as an earlier one replaces it.
pub open spec fn renamed(es: Seq<(Seq<char>, IdentInfo)>, prefix: Seq<char>) -> Map<Seq<char>, SIdentInfo>
    decreases es.len(),
{
    if es.len() == 0 {
        Map::empty()
    } else {
        renamed(es.drop_last(), prefix).insert(
            entry_name(es.last().0, es.last().1@, prefix),
            es.last().1@,
        )
    }
}

/// What an identifier stands for, from the innermost scope outwards.
pub open spec fn reader_get(scopes: Seq<Map<Seq<char>, SIdentInfo>>, k: Seq<char>) -> Option<SIdentInfo>
    decreases scopes.len(),
{
    if scopes.len() == 0 {
        None
    } else if scopes.last().contains_key(k) {
        Some(scopes.last()[k])
    } else {
        reader_get(scopes.drop_last(), k)
    }
}

pub open spec fn info_map(m: IdentMap<IdentInfo>) -> Map<Seq<char>, SIdentInfo> {
    Map::new(|k: Seq<char>| m.has_key(k), |k: Seq<char>| m.spec_get(k).unwrap()@)
}

/// The tables of the open scopes, innermost last, by the names of the
/// generated code.
pub struct ScopeReader {
    scopes: Vec<IdentMap<IdentInfo>>,
}

impl View for ScopeReader {
    type V = Seq<Map<Seq<char>, SIdentInfo>>;

    closed spec fn view(&self) -> Seq<Map<Seq<char>, SIdentInfo>> {
        self.scopes@.map_values(|m: IdentMap<IdentInfo>| info_map(m))
    }
}

/* The table's entries, by the names they are read by. */
fn renamed_table(st: &SymbolTable) -> (r: IdentMap<IdentInfo>)
    ensures
        info_map(r) == renamed(st.table.spec_entries(), st.prefix@),
{
    let mut out: IdentMap<IdentInfo> = IdentMap::new();
    let n = st.table.len();
    let ghost es = st.table.spec_entries();
    let mut i: usize = 0;
    proof {
        assert(es.take(0) =~= Seq::<(Seq<char>, IdentInfo)>::empty());
        assert(info_map(out) =~= Map::<Seq<char>, SIdentInfo>::empty());
    }
    while i < n
        invariant
            n == es.len(),
            es == st.table.spec_entries(),
            i <= n,
            info_map(out) == renamed(es.take(i as int), st.prefix@),
        decreases n - i,
    {
        let (id, entry) = st.table.entry_at(i);
        let ghost old_out = out;
        let name = match entry {
            IdentInfo::LocalVar(_, offset) => concat_num(st.prefix.as_str(), *offset as i64),
            _ => id.clone(),
        };
        let ghost nm = name@;
        let ghost v = entry@;
        out.insert(name, entry.deep_clone());
        proof {
            let t = es.take(i + 1);
            assert(t.drop_last() =~= es.take(i as int));
            assert(t.last() == es[i as int]);
            assert(nm == entry_name(es[i as int].0, v, st.prefix@));
            assert(info_map(out) =~= info_map(old_out).insert(nm, v)) by {
                assert forall|k: Seq<char>| #[trigger] out.has_key(k) == (old_out.has_key(k) || k == nm) by {
                    if k != nm {
                        assert(out.spec_get(k) == old_out.spec_get(k));
                    }
                }
            }
        }
        i = i + 1;
    }
    proof {
        assert(es.take(n as int) =~= es);
    }
    out
}

impl ScopeReader {
    /* A reader whose only scope is the given table. */
    pub fn new(st: &SymbolTable) -> (r: ScopeReader)
        ensures
            r@ == seq![renamed(st.table.spec_entries(), st.prefix@)],
    {
        let mut scopes = Vec::new();
        scopes.push(renamed_table(st));
        let r = ScopeReader { scopes };
        assert(r@ =~= seq![renamed(st.table.spec_entries(), st.prefix@)]);
        r
    }

    /* The reader with the given table as a new innermost scope. */
    pub fn new_scope(self, st: &SymbolTable) -> (r: ScopeReader)
        ensures
            r@ == self@.push(renamed(st.table.spec_entries(), st.prefix@)),
    {
        let mut scopes = self.scopes;
        let ghost before = scopes@;
        scopes.push(renamed_table(st));
        let r = ScopeReader { scopes };
        proof {
            assert forall|i: int| 0 <= i < before.len() implies r@[i] == self@[i] by {
                assert(r.scopes@[i] == before[i]);
            }
            assert(r@ =~= self@.push(renamed(st.table.spec_entries(), st.prefix@)));
        }
        r
    }

    /* The reader without its innermost scope, when there is one around it. */
    pub fn exit_scope(self) -> (r: ScopeReader)
        ensures
            self@.len() > 1 ==> r@ == self@.drop_last(),
            self@.len() <= 1 ==> r@ == self@,
    {
        let mut scopes = self.scopes;
        if scopes.len() > 1 {
            scopes.pop();
            let r = ScopeReader { scopes };
            assert(r@ =~= self@.drop_last());
            r
        } else {
            ScopeReader { scopes }
        }
    }

    /* What the identifier stands for, from the innermost scope outwards. */
    pub fn get(&self, ident: &Ident) -> (r: Option<IdentInfo>)
        ensures
            r is Some <==> reader_get(self@, ident@) is Some,
            r matches Some(info) ==> reader_get(self@, ident@) == Some(info@),
    {
        let mut n = self.scopes.len();
        proof {
            assert(self@.take(n as int) =~= self@);
        }
        while n > 0
            invariant
                n <= self.scopes@.len(),
                reader_get(self@, ident@) == reader_get(self@.take(n as int), ident@),
            decreases n,
        {
            let ghost ts = self@.take(n as int);
            proof {
                assert(ts.drop_last() =~= self@.take(n - 1));
                assert(ts.last() == info_map(self.scopes@[n - 1]));
            }
            match self.scopes[n - 1].get(ident.as_str()) {
                Some(info) => {
                    return Some(info.deep_clone());
                },
                None => {},
            }
            n = n - 1;
        }
        None
    }

    /* The struct definition the identifier names. */
    pub fn get_def(&self, ident: &Ident) -> (r: Option<Struct>)
        ensures
            r is Some <==> reader_get(self@, ident@) matches Some(SIdentInfo::TypeDef(_)),
            r matches Some(def) ==> reader_get(self@, ident@) == Some(SIdentInfo::TypeDef(def@)),
    {
        match self.get(ident) {
            Some(IdentInfo::TypeDef(def)) => Some(def),
            _ => None,
        }
    }
}

} // verus!

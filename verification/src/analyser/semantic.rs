use vstd::prelude::*;

use super::symbol_table::scope_types;
use crate::ast::{SType, Type};
use crate::ident_map::IdentMap;
use crate::text::to_string;

verus! {

/* A chain of symbol tables mapping names to types, the innermost first. */

/// The position of the first table that has `k`.
pub open spec fn first_with(tables: Seq<Map<Seq<char>, SType>>, k: Seq<char>) -> Option<int>
    decreases tables.len(),
{
    if tables.len() == 0 {
        None
    } else if tables[0].contains_key(k) {
        Some(0)
    } else {
        match first_with(tables.drop_first(), k) {
            Some(i) => Some(i + 1),
            None => None,
        }
    }
}

pub open spec fn tables_view(tables: Seq<IdentMap<Type>>) -> Seq<Map<Seq<char>, SType>> {
    tables.map_values(|m: IdentMap<Type>| scope_types(m))
}

proof fn lemma_first_with(tables: Seq<Map<Seq<char>, SType>>, k: Seq<char>, n: int)
    requires
        0 <= n <= tables.len(),
        forall|j: int| 0 <= j < n ==> !(#[trigger] tables[j]).contains_key(k),
    ensures
        first_with(tables, k) == match first_with(tables.skip(n), k) {
            Some(i) => Some(i + n),
            None => None,
        },
    decreases n,
{
    if n > 0 {
        assert(tables.skip(1).skip(n - 1) =~= tables.skip(n));
        assert forall|j: int| 0 <= j < n - 1 implies !(#[trigger] tables.skip(1)[j]).contains_key(k) by {
            assert(tables.skip(1)[j] == tables[j + 1]);
        }
        lemma_first_with(tables.skip(1), k, n - 1);
        assert(tables.drop_first() =~= tables.skip(1));
    } else {
        assert(tables.skip(0) =~= tables);
    }
}

/* A copy of a table, types and all. */
fn copy_table(m: &IdentMap<Type>) -> (r: IdentMap<Type>)
    ensures
        scope_types(r) == scope_types(*m),
{
    let mut out: IdentMap<Type> = IdentMap::new();
    let n = m.len();
    let mut i: usize = 0;
    m.lemma_distinct();
    while i < n
        invariant
            n == m.spec_len(),
            i <= n,
            m.keys_distinct(),
            forall|k: Seq<char>| #[trigger] out.has_key(k) <==> exists|j: int| 0 <= j < i && m.spec_entries()[j].0 == k,
            forall|j: int| 0 <= j < i ==> out.spec_get(#[trigger] m.spec_entries()[j].0) is Some && out.spec_get(m.spec_entries()[j].0).unwrap()@ == m.spec_entries()[j].1@,
        decreases n - i,
    {
        let (k, t) = m.entry_at(i);
        let ghost old_out = out;
        let ghost kv = k@;
        out.insert(k.clone(), t.deep_clone());
        proof {
            assert forall|k2: Seq<char>| #[trigger] out.has_key(k2) <==> exists|j: int| 0 <= j < i + 1 && m.spec_entries()[j].0 == k2 by {
                if k2 == kv {
                    assert(m.spec_entries()[i as int].0 == k2);
                } else {
                    assert(out.spec_get(k2) == old_out.spec_get(k2));
                }
            }
            assert forall|j: int| 0 <= j < i + 1 implies out.spec_get(#[trigger] m.spec_entries()[j].0) is Some && out.spec_get(m.spec_entries()[j].0).unwrap()@ == m.spec_entries()[j].1@ by {
                if j < i {
                    assert(m.spec_entries()[j].0 != kv);
                }
            }
        }
        i = i + 1;
    }
    proof {
        assert(scope_types(out) =~= scope_types(*m)) by {
            assert forall|k: Seq<char>| #[trigger] out.has_key(k) == m.has_key(k) by {
                if m.has_key(k) {
                    let j = m.key_index(k);
                    assert(m.spec_entries()[j].0 == k);
                }
            }
            assert forall|k: Seq<char>| out.has_key(k) implies #[trigger] out.spec_get(k).unwrap()@ == m.spec_get(k).unwrap()@ by {
                let j = choose|j: int| 0 <= j < n && m.spec_entries()[j].0 == k;
                m.lemma_get_at(j);
            }
        }
    }
    out
}

/// Looks a name up in the tables, the innermost first: its type, or
/// "not found".
pub fn table_lookup(symbol_tables: &Vec<IdentMap<Type>>, var: &str) -> (r: Result<Type, String>)
    ensures
        match first_with(tables_view(symbol_tables@), var@) {
            Some(i) => r matches Ok(t) && t@ == tables_view(symbol_tables@)[i][var@],
            None => r matches Err(e) && e@ == "not found"@,
        },
{
    let ghost tv = tables_view(symbol_tables@);
    let mut i: usize = 0;
    while i < symbol_tables.len()
        invariant
            i <= symbol_tables@.len(),
            tv == tables_view(symbol_tables@),
            forall|j: int| 0 <= j < i ==> !(#[trigger] tv[j]).contains_key(var@),
        decreases symbol_tables@.len() - i,
    {
        match symbol_tables[i].get(var) {
            Some(t) => {
                proof {
                    lemma_first_with(tv, var@, i as int);
                    assert(tv[i as int].contains_key(var@));
                    assert(tv.skip(i as int)[0] == tv[i as int]);
                }
                return Ok(t.deep_clone());
            },
            None => {
                assert(!tv[i as int].contains_key(var@));
            },
        }
        i = i + 1;
    }
    proof {
        lemma_first_with(tv, var@, i as int);
        assert(tv.skip(i as int).len() == 0);
    }
    Err(to_string("not found"))
}

/// Sets the type of a name. When it is `present`, the first table that has it
/// gets the new type; otherwise it is added to the innermost table unless
/// that already has it. The table changed is returned.
pub fn table_update(symbol_tables: &mut Vec<IdentMap<Type>>, var: &str, val: Type, present: bool) -> (r: Result<IdentMap<Type>, String>)
    requires
        old(symbol_tables)@.len() > 0,
        present ==> first_with(tables_view(old(symbol_tables)@), var@) is Some,
    ensures
        present ==> ({
            let i = first_with(tables_view(old(symbol_tables)@), var@).unwrap();
            &&& tables_view(final(symbol_tables)@) == tables_view(old(symbol_tables)@).update(
                i,
                tables_view(old(symbol_tables)@)[i].insert(var@, val@),
            )
            &&& r matches Ok(m) && scope_types(m) == tables_view(final(symbol_tables)@)[i]
        }),
        !present ==> ({
            let front = tables_view(old(symbol_tables)@)[0];
            &&& tables_view(final(symbol_tables)@) == tables_view(old(symbol_tables)@).update(
                0,
                if front.contains_key(var@) {
                    front
                } else {
                    front.insert(var@, val@)
                },
            )
            &&& r matches Ok(m) && scope_types(m) == tables_view(final(symbol_tables)@)[0]
        }),
{
    let ghost tv = tables_view(symbol_tables@);
    let idx: usize = if present {
        let mut i: usize = 0;
        while i < symbol_tables.len() && !symbol_tables[i].contains_key(var)
            invariant
                i <= symbol_tables@.len(),
                tv == tables_view(symbol_tables@),
                symbol_tables@ == old(symbol_tables)@,
                first_with(tv, var@) is Some,
                forall|j: int| 0 <= j < i ==> !(#[trigger] tv[j]).contains_key(var@),
            decreases symbol_tables@.len() - i,
        {
            i = i + 1;
        }
        proof {
            lemma_first_with(tv, var@, i as int);
            if i == symbol_tables.len() {
                assert(tv.skip(i as int).len() == 0);
            } else {
                assert(tv.skip(i as int)[0] == tv[i as int]);
            }
        }
        i
    } else {
        0
    };
    let mut table = IdentMap::new();
    std::mem::swap(&mut table, &mut symbol_tables[idx]);
    let ghost old_table = table;
    let ghost vv = val@;
    if present || !table.contains_key(var) {
        table.insert(to_string(var), val);
        proof {
            assert(scope_types(table) =~= scope_types(old_table).insert(var@, vv)) by {
                assert forall|k2: Seq<char>| #[trigger] table.has_key(k2) == (old_table.has_key(k2) || k2 == var@) by {
                    if k2 != var@ {
                        assert(table.spec_get(k2) == old_table.spec_get(k2));
                    }
                }
            }
        }
    }
    let copy = copy_table(&table);
    std::mem::swap(&mut table, &mut symbol_tables[idx]);
    proof {
        assert(tables_view(symbol_tables@) =~= tv.update(idx as int, scope_types(copy)));
    }
    Ok(copy)
}

} // verus!

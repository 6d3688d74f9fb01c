use vstd::prelude::*;

use super::{AResult, SError, SemanticError};
use crate::ast::{Ident, SType, Type};
use crate::ident_map::IdentMap;
use crate::text::to_string;

verus! {

/// The types of the identifiers of one scope.
pub open spec fn scope_types(m: IdentMap<Type>) -> Map<Seq<char>, SType> {
    Map::new(|k: Seq<char>| m.has_key(k), |k: Seq<char>| m.spec_get(k).unwrap()@)
}

/// A chain of scopes, each mapping identifiers to types; the innermost
/// scope is the last one.
pub struct SymbolTable {
    scopes: Vec<IdentMap<Type>>,
}

impl View for SymbolTable {
    type V = Seq<Map<Seq<char>, SType>>;

    closed spec fn view(&self) -> Seq<Map<Seq<char>, SType>> {
        self.scopes@.map_values(|m: IdentMap<Type>| scope_types(m))
    }
}

/// The type of `k`, looked up from the innermost scope outwards.
pub open spec fn lookup(scopes: Seq<Map<Seq<char>, SType>>, k: Seq<char>) -> Option<SType>
    decreases scopes.len(),
{
    if scopes.len() == 0 {
        None
    } else if scopes.last().contains_key(k) {
        Some(scopes.last()[k])
    } else {
        lookup(scopes.drop_last(), k)
    }
}

/// After an identifier is given a type in the innermost scope, looking it
/// up gives that type.
pub proof fn law_insert_lookup(scopes: Seq<Map<Seq<char>, SType>>, k: Seq<char>, t: SType)
    requires
        scopes.len() > 0,
    ensures
        lookup(scopes.update(scopes.len() - 1, scopes.last().insert(k, t)), k) == Some(t),
{
}

/// Giving an identifier a type leaves the type of every other identifier
/// unchanged.
pub proof fn law_insert_others(scopes: Seq<Map<Seq<char>, SType>>, k: Seq<char>, t: SType, other: Seq<char>)
    requires
        scopes.len() > 0,
        other != k,
    ensures
        lookup(scopes.update(scopes.len() - 1, scopes.last().insert(k, t)), other) == lookup(scopes, other),
{
    let u = scopes.update(scopes.len() - 1, scopes.last().insert(k, t));
    assert(u.drop_last() =~= scopes.drop_last());
}

/// An identifier of an inner scope hides the one of an outer scope, and
/// leaving the inner scope makes the outer one visible again.
pub proof fn law_shadowing(scopes: Seq<Map<Seq<char>, SType>>, k: Seq<char>, t: SType)
    ensures
        lookup(scopes.push(Map::empty().insert(k, t)), k) == Some(t),
        lookup(scopes.push(Map::empty()), k) == lookup(scopes, k),
{
    assert(scopes.push(Map::<Seq<char>, SType>::empty()).drop_last() =~= scopes);
}

/// The message for an identifier given a type twice in one scope.
pub open spec fn change_type_msg() -> Seq<char> {
    "Attempt to change type of variable in current scope."@
}

impl SymbolTable {
    /* Makes new Symbol table with initial global scope. */
    pub fn new() -> (r: Self)
        ensures
            r@ == seq![Map::<Seq<char>, SType>::empty()],
    {
        let mut scopes = Vec::new();
        scopes.push(IdentMap::new());
        let r = SymbolTable { scopes };
        assert(r@ =~= seq![Map::<Seq<char>, SType>::empty()]) by {
            assert(scope_types(r.scopes@[0]) =~= Map::<Seq<char>, SType>::empty());
        }
        r
    }

    /* Returns type of given ident. */
    pub fn get(&self, ident: &Ident) -> (r: Option<&Type>)
        ensures
            r is Some <==> lookup(self@, ident@) is Some,
            r matches Some(t) ==> lookup(self@, ident@) == Some(t@),
    {
        let mut n = self.scopes.len();
        proof {
            assert(self@.take(n as int) =~= self@);
        }
        while n > 0
            invariant
                n <= self.scopes@.len(),
                lookup(self@, ident@) == lookup(self@.take(n as int), ident@),
            decreases n,
        {
            let ghost ts = self@.take(n as int);
            proof {
                assert(ts.drop_last() =~= self@.take(n - 1));
                assert(ts.last() == scope_types(self.scopes@[n - 1]));
            }
            match self.scopes[n - 1].get(ident.as_str()) {
                Some(t) => {
                    return Some(t);
                },
                None => {},
            }
            n = n - 1;
        }
        None
    }

    /* Sets the type of an identifier in the innermost scope. An identifier
    already there keeps its new type, and that is an error. */
    pub fn insert(&mut self, ident: &Ident, val: Type) -> (r: AResult<()>)
        requires
            old(self)@.len() > 0,
        ensures
            final(self)@ == old(self)@.update(
                old(self)@.len() - 1,
                old(self)@.last().insert(ident@, val@),
            ),
            r is Err <==> old(self)@.last().contains_key(ident@),
            r matches Err(e) ==> e@ == SError::Normal(change_type_msg()),
    {
        let last = self.scopes.len() - 1;
        let mut cur = IdentMap::new();
        std::mem::swap(&mut cur, &mut self.scopes[last]);
        let ghost old_cur = cur;
        let ghost k = ident@;
        let ghost v = val@;
        let res = match cur.insert(ident.clone(), val) {
            Some(_) => Err(SemanticError::Normal(to_string("Attempt to change type of variable in current scope."))),
            None => Ok(()),
        };
        proof {
            assert(scope_types(cur) =~= scope_types(old_cur).insert(k, v)) by {
                assert forall|k2: Seq<char>| #[trigger] cur.has_key(k2) == (old_cur.has_key(k2) || k2 == k) by {
                    if k2 != k {
                        assert(cur.spec_get(k2) == old_cur.spec_get(k2));
                    }
                }
            }
        }
        std::mem::swap(&mut cur, &mut self.scopes[last]);
        proof {
            assert(self@ =~= old(self)@.update(last as int, old(self)@.last().insert(k, v)));
        }
        res
    }

    /* The table with a new, empty, innermost scope. */
    pub fn new_scope(self) -> (r: Self)
        ensures
            r@ == self@.push(Map::<Seq<char>, SType>::empty()),
    {
        let mut scopes = self.scopes;
        let ghost before = scopes@;
        scopes.push(IdentMap::new());
        let r = SymbolTable { scopes };
        assert(r@ =~= self@.push(Map::<Seq<char>, SType>::empty())) by {
            assert(scope_types(r.scopes@.last()) =~= Map::<Seq<char>, SType>::empty());
            assert forall|i: int| 0 <= i < before.len() implies r@[i] == self@[i] by {
                assert(r.scopes@[i] == before[i]);
            }
        }
        r
    }

    /* The table without its innermost scope, when there is one around it. */
    pub fn exit_scope(self) -> (r: Self)
        ensures
            self@.len() > 1 ==> r@ == self@.drop_last(),
            self@.len() <= 1 ==> r@ == self@,
    {
        let mut scopes = self.scopes;
        if scopes.len() > 1 {
            let ghost before = scopes@;
            scopes.pop();
            let r = SymbolTable { scopes };
            assert(r@ =~= self@.drop_last());
            r
        } else {
            SymbolTable { scopes }
        }
    }
}

} // verus!

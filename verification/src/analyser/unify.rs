use vstd::prelude::*;

use crate::ast::{lemma_types_view_index, lemma_types_view_len, type_view, types_view, SType, Type};

verus! {

/// The most specific type compatible with both `a` and `b`: `Any` stands for
/// any type, and pairs are unified component by component.
pub open spec fn spec_unify(a: SType, b: SType) -> Option<SType>
    decreases a,
{
    if a is Any {
        Some(b)
    } else if b is Any {
        Some(a)
    } else if a == b {
        Some(a)
    } else {
        match (a, b) {
            (SType::Pair(x1, x2), SType::Pair(y1, y2)) => match (
                spec_unify(*x1, *y1),
                spec_unify(*x2, *y2),
            ) {
                (Some(l), Some(r)) => Some(SType::Pair(Box::new(l), Box::new(r))),
                _ => None,
            },
            _ => None,
        }
    }
}

/// Equality of two types, by value.
#[verifier::loop_isolation(false)]
pub fn types_eq(a: &Type, b: &Type) -> (r: bool)
    ensures
        r == (a@ == b@),
    decreases a,
{
    match (a, b) {
        (Type::Int, Type::Int) => true,
        (Type::Bool, Type::Bool) => true,
        (Type::Char, Type::Char) => true,
        (Type::String, Type::String) => true,
        (Type::Any, Type::Any) => true,
        (Type::Array(x), Type::Array(y)) => types_eq(&**x, &**y),
        (Type::Pair(x1, x2), Type::Pair(y1, y2)) => types_eq(&**x1, &**y1) && types_eq(
            &**x2,
            &**y2,
        ),
        (Type::Func(f), Type::Func(g)) => {
            if !types_eq(&f.return_type, &g.return_type) {
                return false;
            }
            let n = f.param_types.len();
            if n != g.param_types.len() {
                proof {
                    lemma_types_view_len(f.param_types@);
                    lemma_types_view_len(g.param_types@);
                }
                return false;
            }
            let mut i: usize = 0;
            while i < n
                invariant
                    n == f.param_types@.len(),
                    n == g.param_types@.len(),
                    i <= n,
                    forall|j: int|
                        0 <= j < i ==> #[trigger] type_view(f.param_types@[j]) == type_view(
                            g.param_types@[j],
                        ),
                decreases n - i,
            {
                proof {
                    assert(decreases_to!(*a => **f));
                    assert(decreases_to!(**f => f.param_types));
                    assert(decreases_to!(f.param_types => f.param_types@));
                    assert(decreases_to!(f.param_types@ => f.param_types@[i as int]));
                }
                if !types_eq(&f.param_types[i], &g.param_types[i]) {
                    proof {
                        lemma_types_view_index(f.param_types@, i as int);
                        lemma_types_view_index(g.param_types@, i as int);
                        assert(types_view(f.param_types@)[i as int] != types_view(
                            g.param_types@,
                        )[i as int]);
                    }
                    return false;
                }
                i = i + 1;
            }
            proof {
                lemma_types_view_len(f.param_types@);
                lemma_types_view_len(g.param_types@);
                assert forall|j: int|
                    0 <= j < n implies types_view(f.param_types@)[j] == types_view(
                        g.param_types@,
                    )[j] by {
                    lemma_types_view_index(f.param_types@, j);
                    lemma_types_view_index(g.param_types@, j);
                }
                assert(types_view(f.param_types@) =~= types_view(g.param_types@));
                assert(a@ == b@);
            }
            true
        },
        (Type::Custom(x), Type::Custom(y)) => {
            crate::ident_map::str_eq(x.as_str(), y.as_str())
        },
        _ => false,
    }
}

impl Type {
    /* If the two types are compatible, the most specific type compatible with
    both. */
    pub fn unify(self, t: Type) -> (r: Option<Type>)
        ensures
            r is Some <==> spec_unify(self@, t@) is Some,
            r matches Some(u) ==> spec_unify(self@, t@) == Some(u@),
        decreases self,
    {
        if self.is_any() {
            return Some(t);
        }
        if t.is_any() {
            return Some(self);
        }
        if types_eq(&self, &t) {
            return Some(self);
        }
        match (self, t) {
            (Type::Pair(x1, x2), Type::Pair(y1, y2)) => {
                let l = match (*x1).unify(*y1) {
                    Some(l) => l,
                    None => return None,
                };
                let r = match (*x2).unify(*y2) {
                    Some(r) => r,
                    None => return None,
                };
                Some(Type::Pair(Box::new(l), Box::new(r)))
            },
            _ => None,
        }
    }
}

/// Unification does not depend on the order of its arguments.
pub proof fn unify_commutative(a: SType, b: SType)
    ensures
        spec_unify(a, b) == spec_unify(b, a),
    decreases a,
{
    match (a, b) {
        (SType::Pair(x1, x2), SType::Pair(y1, y2)) => {
            unify_commutative(*x1, *y1);
            unify_commutative(*x2, *y2);
        },
        _ => {},
    }
}

/// `Any` unifies with every type, giving that type.
pub proof fn unify_any_identity(t: SType)
    ensures
        spec_unify(SType::Any, t) == Some(t),
        spec_unify(t, SType::Any) == Some(t),
{
}

/// Every type unifies with itself, giving itself.
pub proof fn unify_idempotent(t: SType)
    ensures
        spec_unify(t, t) == Some(t),
{
}

/// The unified type is compatible with each argument, and unifying with it
/// gives it back.
pub proof fn unify_absorbs(a: SType, b: SType)
    requires
        spec_unify(a, b) is Some,
    ensures
        spec_unify(a, spec_unify(a, b).unwrap()) == spec_unify(a, b),
        spec_unify(b, spec_unify(a, b).unwrap()) == spec_unify(a, b),
    decreases a,
{
    unify_commutative(a, b);
    if !(a is Any) && !(b is Any) && a != b {
        match (a, b) {
            (SType::Pair(x1, x2), SType::Pair(y1, y2)) => {
                unify_absorbs(*x1, *y1);
                unify_absorbs(*x2, *y2);
                let c = spec_unify(a, b).unwrap();
                let l = spec_unify(*x1, *y1).unwrap();
                let r = spec_unify(*x2, *y2).unwrap();
                assert(c == SType::Pair(Box::new(l), Box::new(r)));
                if a != c {
                    assert(spec_unify(a, c) == Some(
                        SType::Pair(Box::new(spec_unify(*x1, l).unwrap()), Box::new(spec_unify(*x2, r).unwrap())),
                    ));
                }
                if b != c {
                    assert(spec_unify(b, c) == Some(
                        SType::Pair(Box::new(spec_unify(*y1, l).unwrap()), Box::new(spec_unify(*y2, r).unwrap())),
                    ));
                }
            },
            _ => {},
        }
    }
}

} // verus!

use vstd::prelude::*;
use crate::types::{Bond, Constraint, Ty};
use crate::unify::{
    bond_of, constraint_vars, constraints_size, find_from, holds_trivially, lemma_measure_bound,
    lemma_measure_rest, lemma_measure_split, lemma_resolve_compose, lemma_resolve_past_end,
    lemma_unify_solves, occurs, resolve, resolve_all, split_front, unify_spec,
};

verus! {

/// A type for every type variable.
pub type Instance = spec_fn(Seq<char>) -> Ty;

/// The type with each variable replaced by the type that the instance gives
/// it.
pub open spec fn apply_sub(sigma: Instance, t: Ty) -> Ty
    decreases t,
{
    match t {
        Ty::Int | Ty::Bool => t,
        Ty::Var(x) => sigma(x),
        Ty::Fn(i, o) => Ty::Fn(Box::new(apply_sub(sigma, *i)), Box::new(apply_sub(sigma, *o))),
    }
}

/// The instance makes the two sides of every constraint the same type.
pub open spec fn satisfies(sigma: Instance, c: Seq<Constraint>) -> bool {
    forall|i: int| 0 <= i < c.len() ==> apply_sub(sigma, (#[trigger] c[i]).0) == apply_sub(sigma, c[i].1)
}

/// The instance that a substitution is: each variable resolved.
pub open spec fn via(s: Seq<Bond>) -> Instance {
    |x: Seq<char>| resolve(Ty::Var(x), s)
}

/// The substitution `s` followed by the instance `sigma`.
pub open spec fn following(sigma: Instance, s: Seq<Bond>) -> Instance {
    |x: Seq<char>| apply_sub(sigma, resolve(Ty::Var(x), s))
}

/// An instance that satisfies constraints satisfies any part of them.
pub proof fn lemma_satisfies_parts(sigma: Instance, a: Seq<Constraint>, b: Seq<Constraint>)
    requires
        satisfies(sigma, a + b),
    ensures
        satisfies(sigma, a),
        satisfies(sigma, b),
{
    let all = a + b;
    assert forall|i: int| 0 <= i < a.len() implies apply_sub(sigma, (#[trigger] a[i]).0) == apply_sub(
        sigma,
        a[i].1,
    ) by {
        assert(all[i] == a[i]);
    }
    assert forall|i: int| 0 <= i < b.len() implies apply_sub(sigma, (#[trigger] b[i]).0) == apply_sub(
        sigma,
        b[i].1,
    ) by {
        assert(all[a.len() + i] == b[i]);
    }
}

/// Resolving is applying the instance that the substitution is.
pub proof fn lemma_via_is_resolve(s: Seq<Bond>, t: Ty)
    ensures
        apply_sub(via(s), t) == resolve(t, s),
    decreases t,
{
    match t {
        Ty::Fn(i, o) => {
            lemma_via_is_resolve(s, *i);
            lemma_via_is_resolve(s, *o);
        },
        _ => {},
    }
}

/// Applying an instance after a substitution is applying the two in turn.
pub proof fn lemma_following_is_both(sigma: Instance, s: Seq<Bond>, t: Ty)
    ensures
        apply_sub(following(sigma, s), t) == apply_sub(sigma, resolve(t, s)),
    decreases t,
{
    match t {
        Ty::Fn(i, o) => {
            lemma_following_is_both(sigma, s, *i);
            lemma_following_is_both(sigma, s, *o);
        },
        _ => {},
    }
}

/// Two instances that agree on the variables of a type give it the same
/// type.
pub proof fn lemma_apply_agree(first: Instance, second: Instance, t: Ty)
    requires
        forall|z: Seq<char>| #[trigger] t.vars().contains(z) ==> first(z) == second(z),
    ensures
        apply_sub(first, t) == apply_sub(second, t),
    decreases t,
{
    match t {
        Ty::Fn(i, o) => {
            assert forall|z: Seq<char>| #[trigger] i.vars().contains(z) implies first(z) == second(
                z,
            ) by {
                assert(t.vars().contains(z));
            }
            assert forall|z: Seq<char>| #[trigger] o.vars().contains(z) implies first(z) == second(
                z,
            ) by {
                assert(t.vars().contains(z));
            }
            lemma_apply_agree(first, second, *i);
            lemma_apply_agree(first, second, *o);
        },
        Ty::Var(x) => {
            assert(t.vars().contains(x));
        },
        _ => {},
    }
}

/// An instance that gives a variable and a type the same type is not
/// changed by binding the one to the other.
pub proof fn lemma_bond_respected(sigma: Instance, u: Ty, b: Bond)
    requires
        sigma(b.0) == apply_sub(sigma, b.1),
    ensures
        apply_sub(sigma, resolve(u, seq![b])) == apply_sub(sigma, u),
    decreases u,
{
    let s = seq![b];
    match u {
        Ty::Fn(i, o) => {
            lemma_bond_respected(sigma, *i, b);
            lemma_bond_respected(sigma, *o, b);
        },
        Ty::Var(y) => {
            assert(find_from(s, y, 1) == 1);
            if y == b.0 {
                lemma_resolve_past_end(b.1, s, 1);
            }
        },
        _ => {},
    }
}

/// The solver's substitution is most general: an instance that satisfies
/// the constraints is not changed by it.
pub proof fn lemma_solution_factors(sigma: Instance, c: Seq<Constraint>, t: Ty)
    requires
        satisfies(sigma, c),
        unify_spec(c) is Ok,
    ensures
        apply_sub(sigma, resolve(t, unify_spec(c)->Ok_0)) == apply_sub(sigma, t),
    decreases constraint_vars(c).len(), constraints_size(c),
{
    if c.len() == 0 {
        lemma_resolve_past_end(t, Seq::<Bond>::empty(), 0);
    } else {
        let lhs = c[0].0;
        let rhs = c[0].1;
        let rest = c.drop_first();
        let s = unify_spec(c)->Ok_0;
        assert(apply_sub(sigma, c[0].0) == apply_sub(sigma, c[0].1));
        assert forall|i: int| 0 <= i < rest.len() implies apply_sub(sigma, (#[trigger] rest[i]).0)
            == apply_sub(sigma, rest[i].1) by {
            assert(rest[i] == c[i + 1]);
        }
        if holds_trivially(lhs, rhs) {
            lemma_measure_rest(c);
            lemma_solution_factors(sigma, rest, t);
        } else if bond_of(lhs, rhs) is Some {
            let b = bond_of(lhs, rhs)->Some_0;
            let next = resolve_all(rest, seq![b]);
            let tail = unify_spec(next)->Ok_0;
            lemma_measure_bound(c);
            assert(s == seq![b] + tail);
            assert(sigma(b.0) == apply_sub(sigma, b.1));
            assert forall|i: int| 0 <= i < next.len() implies apply_sub(sigma, (#[trigger] next[i]).0)
                == apply_sub(sigma, next[i].1) by {
                lemma_bond_respected(sigma, rest[i].0, b);
                lemma_bond_respected(sigma, rest[i].1, b);
            }
            lemma_solution_factors(sigma, next, resolve(t, seq![b]));
            lemma_resolve_compose(t, b, tail);
            lemma_bond_respected(sigma, t, b);
        } else {
            let n = split_front(lhs, rhs, rest);
            lemma_measure_split(c);
            assert forall|i: int| 0 <= i < n.len() implies apply_sub(sigma, (#[trigger] n[i]).0)
                == apply_sub(sigma, n[i].1) by {
                if i >= 2 {
                    assert(n[i] == rest[i - 2]);
                }
            }
            lemma_solution_factors(sigma, n, t);
        }
    }
}

/// A solution, and any instance after it, satisfies the constraints.
pub proof fn lemma_solution_satisfies(sigma: Instance, c: Seq<Constraint>)
    requires
        unify_spec(c) is Ok,
    ensures
        satisfies(via(unify_spec(c)->Ok_0), c),
        satisfies(following(sigma, unify_spec(c)->Ok_0), c),
{
    let s = unify_spec(c)->Ok_0;
    assert forall|i: int| 0 <= i < c.len() implies apply_sub(via(s), (#[trigger] c[i]).0) == apply_sub(
        via(s),
        c[i].1,
    ) by {
        lemma_unify_solves(c, i);
        lemma_via_is_resolve(s, c[i].0);
        lemma_via_is_resolve(s, c[i].1);
    }
    assert forall|i: int| 0 <= i < c.len() implies apply_sub(following(sigma, s), (#[trigger] c[i]).0)
        == apply_sub(following(sigma, s), c[i].1) by {
        lemma_unify_solves(c, i);
        lemma_following_is_both(sigma, s, c[i].0);
        lemma_following_is_both(sigma, s, c[i].1);
    }
}

/// A type that holds a variable is, under an instance, no smaller than
/// what the instance gives the variable, and greater where it is more than
/// the variable itself.
pub proof fn lemma_occurs_grows(sigma: Instance, x: Seq<char>, t: Ty)
    requires
        occurs(x, t),
    ensures
        apply_sub(sigma, t).size() >= sigma(x).size(),
        t is Fn ==> apply_sub(sigma, t).size() > sigma(x).size(),
    decreases t,
{
    match t {
        Ty::Fn(i, o) => {
            if occurs(x, *i) {
                lemma_occurs_grows(sigma, x, *i);
            } else {
                lemma_occurs_grows(sigma, x, *o);
            }
        },
        _ => {},
    }
}

/// The solver fails only where nothing can be done: no instance satisfies
/// constraints that it rejects.
pub proof fn lemma_unsolvable(sigma: Instance, c: Seq<Constraint>)
    requires
        unify_spec(c) is Err,
    ensures
        !satisfies(sigma, c),
    decreases constraint_vars(c).len(), constraints_size(c),
{
    let lhs = c[0].0;
    let rhs = c[0].1;
    let rest = c.drop_first();
    if satisfies(sigma, c) {
        assert(apply_sub(sigma, c[0].0) == apply_sub(sigma, c[0].1));
        assert forall|i: int| 0 <= i < rest.len() implies apply_sub(sigma, (#[trigger] rest[i]).0)
            == apply_sub(sigma, rest[i].1) by {
            assert(rest[i] == c[i + 1]);
        }
        if holds_trivially(lhs, rhs) {
            lemma_measure_rest(c);
            lemma_unsolvable(sigma, rest);
        } else if bond_of(lhs, rhs) is Some {
            let b = bond_of(lhs, rhs)->Some_0;
            let next = resolve_all(rest, seq![b]);
            lemma_measure_bound(c);
            assert(sigma(b.0) == apply_sub(sigma, b.1));
            assert forall|i: int| 0 <= i < next.len() implies apply_sub(sigma, (#[trigger] next[i]).0)
                == apply_sub(sigma, next[i].1) by {
                lemma_bond_respected(sigma, rest[i].0, b);
                lemma_bond_respected(sigma, rest[i].1, b);
            }
            lemma_unsolvable(sigma, next);
        } else if lhs is Fn && rhs is Fn {
            let n = split_front(lhs, rhs, rest);
            lemma_measure_split(c);
            assert forall|i: int| 0 <= i < n.len() implies apply_sub(sigma, (#[trigger] n[i]).0)
                == apply_sub(sigma, n[i].1) by {
                if i >= 2 {
                    assert(n[i] == rest[i - 2]);
                }
            }
            lemma_unsolvable(sigma, n);
        } else {
            if lhs is Var {
                lemma_occurs_grows(sigma, lhs->Var_0, rhs);
            } else if rhs is Var {
                lemma_occurs_grows(sigma, rhs->Var_0, lhs);
            }
        }
    }
}

/// The solver decides: it gives a solution exactly where some instance
/// satisfies the constraints.
pub proof fn lemma_unify_decides(c: Seq<Constraint>)
    ensures
        unify_spec(c) is Ok <==> exists|sigma: Instance| satisfies(sigma, c),
{
    if unify_spec(c) is Ok {
        let sigma: Instance = |z: Seq<char>| Ty::Int;
        lemma_solution_satisfies(sigma, c);
        assert(satisfies(via(unify_spec(c)->Ok_0), c));
    } else {
        assert forall|sigma: Instance| !satisfies(sigma, c) by {
            lemma_unsolvable(sigma, c);
        }
    }
}

} // verus!

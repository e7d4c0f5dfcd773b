use vstd::prelude::*;
use crate::ast::Term;
use crate::closing::{closed, closing, lemma_closing_insert, plain_subst};
use crate::environment::{
    env_free_vars, env_insert, env_lookup, free_vars, lemma_keep_outside_member, Entry,
};
use crate::freshness::{
    constraints_known, inv, let_binding, lemma_resolve_vars_unbound, lemma_scheme_untouched,
};
use crate::instances::{
    apply_sub, following, lemma_apply_agree, lemma_following_is_both, lemma_solution_factors,
    lemma_solution_satisfies, satisfies, Instance,
};
use crate::interpret::{run, Outcome};
use crate::scopes::{
    holds_entry, lemma_env_free_member, lemma_free_vars_member, lemma_lookup_insert,
    lemma_lookup_is_entry, lemma_lookup_resolved, lemma_resolve_var_part,
};
use crate::typecheck::{generalize_spec, resolve_binding, resolve_env};
use crate::types::{Binding, Constraint, Ty};
use crate::unify::{find_from, lemma_find_from_bounds, resolve, unify_spec};

verus! {

/// The type that an instance gives a variable.
pub open spec fn at(sigma: Instance, z: Seq<char>) -> Ty {
    sigma(z)
}

/// What a call of the function `v` on the value `w` comes down to, by an
/// evaluator that has made `c` names: the body with `w` for the parameter.
pub open spec fn call(v: Term, w: Term, c: nat) -> (Term, nat) {
    (plain_subst(*v->Fn_body, w, v->Fn_arg), c)
}

/// The values of a type: the integers, the booleans, and of a function type
/// the closed functions whose call on every value of the argument type
/// comes to an end, with a value of the result type or at an overflow. A
/// type variable stands for the integers: what holds of a type with
/// variables is stated of the type under an instance.
pub open spec fn value_of(t: Ty, v: Term) -> bool
    decreases t,
{
    match t {
        Ty::Int | Ty::Var(_) => v is Int,
        Ty::Bool => v is Bool,
        Ty::Fn(a, b) => {
            &&& v is Fn
            &&& closed(v)
            &&& forall|w: Term, c: nat|
                value_of(*a, w) ==> {
                    &&& (#[trigger] call(v, w, c)).1 == c
                    &&& exists|fuel: nat|
                        match (#[trigger] run(fuel, call(v, w, c).0, c)).0 {
                            Outcome::Gives(r) => value_of(*b, r),
                            Outcome::Overflow => true,
                            _ => false,
                        }
                }
        },
    }
}

/// An evaluation ends as the type allows: with a value of the type, or at
/// an overflow.
pub open spec fn lands(t: Ty, o: Outcome) -> bool {
    match o {
        Outcome::Gives(r) => value_of(t, r),
        Outcome::Overflow => true,
        _ => false,
    }
}

/// The evaluation of `e`, by an evaluator that has made `c` names, comes to
/// an end as the type allows.
pub open spec fn ends(t: Ty, e: Term, c: nat) -> bool {
    exists|fuel: nat| lands(t, (#[trigger] run(fuel, e, c)).0)
}

/// The two instances give the same type to every variable but those of
/// `bound`.
pub open spec fn agree_outside(second: Instance, first: Instance, bound: Seq<Seq<char>>) -> bool {
    forall|z: Seq<char>| !bound.contains(z) ==> #[trigger] at(second, z) == at(first, z)
}

/// The value is one of the entry under the instance: of a type, a value of
/// the type; of a scheme, a value of its body whatever the quantified
/// variables stand for.
pub open spec fn entry_holds(b: Binding, sigma: Instance, v: Term) -> bool {
    match b {
        Binding::Mono(t) => value_of(apply_sub(sigma, t), v),
        Binding::Poly(p) => forall|other: Instance| #[trigger]
            agree_outside(other, sigma, p.bound) ==> value_of(apply_sub(other, p.body), v),
    }
}

/// The substitution gives every name of the environment a closed value of
/// its entry.
pub open spec fn models(g: Map<Seq<char>, Term>, env: Seq<Entry>, sigma: Instance) -> bool {
    &&& closing(g)
    &&& forall|x: Seq<char>| #[trigger]
        env_lookup(env, x) is Some ==> g.contains_key(x) && entry_holds(
            env_lookup(env, x)->Some_0,
            sigma,
            g[x],
        )
}

/// What makes a function a value of a function type.
pub proof fn lemma_function_value(a: Ty, b: Ty, v: Term)
    requires
        v is Fn,
        closed(v),
        forall|w: Term, c: nat|
            value_of(a, w) ==> {
                &&& (#[trigger] call(v, w, c)).1 == c
                &&& exists|fuel: nat| lands(b, (#[trigger] run(fuel, call(v, w, c).0, c)).0)
            },
    ensures
        value_of(Ty::Fn(Box::new(a), Box::new(b)), v),
{
    assert forall|w: Term, c: nat| value_of(a, w) implies {
        &&& (#[trigger] call(v, w, c)).1 == c
        &&& exists|fuel: nat|
            match (#[trigger] run(fuel, call(v, w, c).0, c)).0 {
                Outcome::Gives(r) => value_of(b, r),
                Outcome::Overflow => true,
                _ => false,
            }
    } by {
        assert(call(v, w, c).1 == c);
        let fuel = choose|fuel: nat| lands(b, (#[trigger] run(fuel, call(v, w, c).0, c)).0);
        assert(lands(b, run(fuel, call(v, w, c).0, c).0));
    }
}

/// What a value of a function type does on a value of the argument type.
pub proof fn lemma_function_call(a: Ty, b: Ty, v: Term, w: Term, c: nat) -> (fuel: nat)
    requires
        value_of(Ty::Fn(Box::new(a), Box::new(b)), v),
        value_of(a, w),
    ensures
        lands(b, run(fuel, call(v, w, c).0, c).0),
{
    assert(call(v, w, c).1 == c);
    choose|fuel: nat|
        match (#[trigger] run(fuel, call(v, w, c).0, c)).0 {
            Outcome::Gives(r) => value_of(b, r),
            Outcome::Overflow => true,
            _ => false,
        }
}

/// The values of a type are closed values.
pub proof fn lemma_value_closed(t: Ty, v: Term)
    requires
        value_of(t, v),
    ensures
        v.is_value(),
        closed(v),
{
}

/// An instance that is another one on some variables and a third on the
/// rest.
pub open spec fn patched(inside: Instance, outside: Instance, bound: Seq<Seq<char>>) -> Instance {
    |z: Seq<char>| if bound.contains(z) {
        inside(z)
    } else {
        outside(z)
    }
}

/// A variable that the substitution does not bind resolves to itself.
pub proof fn lemma_resolve_unbound_var(z: Seq<char>, s: Seq<crate::types::Bond>)
    requires
        !crate::scopes::binds(s, z),
    ensures
        resolve(Ty::Var(z), s) == Ty::Var(z),
{
    lemma_find_from_bounds(s, z, 0);
    let at = find_from(s, z, 0);
    if at < s.len() {
        assert(s[at as int].0 == z);
        assert(crate::scopes::binds(s, z));
    }
}

/// An entry of the environment is an entry of the environment under a
/// substitution, under the substitution.
pub proof fn lemma_entry_resolved(env: Seq<Entry>, s: Seq<crate::types::Bond>, b: Binding)
    requires
        holds_entry(env, b),
    ensures
        holds_entry(resolve_env(env, s), resolve_binding(b, s)),
{
    let i = choose|i: int| 0 <= i < env.len() && (#[trigger] env[i]).1 == b;
    assert(resolve_env(env, s)[i].1 == resolve_binding(b, s));
}

/// With the parameter bound to a value of its type, the substitution models
/// the environment of a function's body.
pub proof fn lemma_models_parameter(
    g: Map<Seq<char>, Term>,
    env: Seq<Entry>,
    sigma: Instance,
    arg: Seq<char>,
    t: Ty,
    w: Term,
)
    requires
        models(g, env, sigma),
        value_of(apply_sub(sigma, t), w),
    ensures
        models(g.insert(arg, w), env_insert(env, arg, Binding::Mono(t)), sigma),
{
    let ext = env_insert(env, arg, Binding::Mono(t));
    let h = g.insert(arg, w);
    lemma_value_closed(apply_sub(sigma, t), w);
    lemma_closing_insert(g, arg, w);
    assert forall|x: Seq<char>| #[trigger] env_lookup(ext, x) is Some implies h.contains_key(x)
        && entry_holds(env_lookup(ext, x)->Some_0, sigma, h[x]) by {
        lemma_lookup_insert(env, arg, Binding::Mono(t), x);
        if x != arg {
            assert(env_lookup(env, x) is Some);
        }
    }
}

/// With the name bound to a value of its entry, the substitution models the
/// environment with that entry.
pub proof fn lemma_models_entry(
    g: Map<Seq<char>, Term>,
    env: Seq<Entry>,
    sigma: Instance,
    x: Seq<char>,
    b: Binding,
    v: Term,
)
    requires
        models(g, env, sigma),
        entry_holds(b, sigma, v),
        closed(v),
        v.is_value(),
    ensures
        models(g.insert(x, v), env_insert(env, x, b), sigma),
{
    let ext = env_insert(env, x, b);
    let h = g.insert(x, v);
    lemma_closing_insert(g, x, v);
    assert forall|y: Seq<char>| #[trigger] env_lookup(ext, y) is Some implies h.contains_key(y)
        && entry_holds(env_lookup(ext, y)->Some_0, sigma, h[y]) by {
        lemma_lookup_insert(env, x, b, y);
        if y != x {
            assert(env_lookup(env, y) is Some);
        }
    }
}

/// An instance that satisfies the constraints models the environment under
/// their solution as it models the environment.
pub proof fn lemma_models_resolved(
    g: Map<Seq<char>, Term>,
    env: Seq<Entry>,
    sigma: Instance,
    cs: Seq<Constraint>,
    c: nat,
    n: nat,
)
    requires
        inv(env, c),
        unify_spec(cs) is Ok,
        constraints_known(cs, env, c, n),
        satisfies(sigma, cs),
        models(g, env, sigma),
    ensures
        models(g, resolve_env(env, unify_spec(cs)->Ok_0), sigma),
{
    let s = unify_spec(cs)->Ok_0;
    let env1 = resolve_env(env, s);
    assert forall|y: Seq<char>| #[trigger] env_lookup(env1, y) is Some implies g.contains_key(y)
        && entry_holds(env_lookup(env1, y)->Some_0, sigma, g[y]) by {
        lemma_lookup_resolved(env, s, y);
        assert(env_lookup(env, y) is Some);
        let b = env_lookup(env, y)->Some_0;
        lemma_lookup_is_entry(env, y);
        match b {
            Binding::Mono(t) => {
                lemma_solution_factors(sigma, cs, t);
            },
            Binding::Poly(q) => {
                lemma_scheme_untouched(cs, env, c, n, q);
                assert forall|other: Instance| #[trigger]
                    agree_outside(other, sigma, q.bound) implies value_of(
                    apply_sub(other, resolve(q.body, s)),
                    g[y],
                ) by {
                    let next = following(other, s);
                    assert forall|z: Seq<char>| !q.bound.contains(z) implies #[trigger] at(next, z) == at(
                        sigma,
                        z,
                    ) by {
                        let r = resolve(Ty::Var(z), s);
                        assert forall|w: Seq<char>| #[trigger] r.vars().contains(w) implies other(w)
                            == sigma(w) by {
                            lemma_resolve_vars_unbound(Ty::Var(z), s, 0, w);
                            assert(!q.bound.contains(w));
                            assert(at(other, w) == at(sigma, w));
                        }
                        lemma_apply_agree(other, sigma, r);
                        lemma_solution_factors(sigma, cs, Ty::Var(z));
                    }
                    assert(agree_outside(next, sigma, q.bound));
                    lemma_following_is_both(other, s, q.body);
                }
            },
        }
    }
}

/// An instance after the solution models the environment as the instance
/// that satisfies the constraints does, where the two agree on the free
/// variables of the environment under the solution.
pub proof fn lemma_models_following(
    g: Map<Seq<char>, Term>,
    env: Seq<Entry>,
    sigma: Instance,
    other: Instance,
    cs: Seq<Constraint>,
    c: nat,
    n: nat,
)
    requires
        inv(env, c),
        unify_spec(cs) is Ok,
        constraints_known(cs, env, c, n),
        satisfies(sigma, cs),
        models(g, env, sigma),
        forall|z: Seq<char>|
            env_free_vars(resolve_env(env, unify_spec(cs)->Ok_0)).contains(z) ==> #[trigger] at(
                other,
                z,
            ) == at(sigma, z),
    ensures
        models(g, env, following(other, unify_spec(cs)->Ok_0)),
{
    let s = unify_spec(cs)->Ok_0;
    let env1 = resolve_env(env, s);
    let next = following(other, s);
    assert forall|y: Seq<char>| #[trigger] env_lookup(env, y) is Some implies g.contains_key(y)
        && entry_holds(env_lookup(env, y)->Some_0, next, g[y]) by {
        let b = env_lookup(env, y)->Some_0;
        lemma_lookup_is_entry(env, y);
        lemma_entry_resolved(env, s, b);
        let b1 = resolve_binding(b, s);
        match b {
            Binding::Mono(t) => {
                let r = resolve(t, s);
                assert forall|w: Seq<char>| #[trigger] r.vars().contains(w) implies other(w) == sigma(
                    w,
                ) by {
                    lemma_free_vars_member(b1, w);
                    lemma_env_free_member(env1, w);
                    assert(at(other, w) == at(sigma, w));
                }
                lemma_apply_agree(other, sigma, r);
                lemma_following_is_both(other, s, t);
                lemma_solution_factors(sigma, cs, t);
            },
            Binding::Poly(q) => {
                lemma_scheme_untouched(cs, env, c, n, q);
                assert forall|third: Instance| #[trigger]
                    agree_outside(third, next, q.bound) implies value_of(
                    apply_sub(third, q.body),
                    g[y],
                ) by {
                    let fourth = patched(third, sigma, q.bound);
                    assert forall|z: Seq<char>| !q.bound.contains(z) implies #[trigger] at(fourth, z)
                        == at(sigma, z) by {}
                    assert(agree_outside(fourth, sigma, q.bound));
                    assert forall|z: Seq<char>| #[trigger] q.body.vars().contains(z) implies fourth(z)
                        == third(z) by {
                        if !q.bound.contains(z) {
                            let r = resolve(Ty::Var(z), s);
                            assert(at(third, z) == at(next, z));
                            assert forall|w: Seq<char>| #[trigger] r.vars().contains(w) implies other(
                                w,
                            ) == sigma(w) by {
                                lemma_resolve_vars_unbound(Ty::Var(z), s, 0, w);
                                assert(!q.bound.contains(w));
                                lemma_resolve_var_part(q.body, s, 0, z, w);
                                lemma_free_vars_member(b1, w);
                                lemma_env_free_member(env1, w);
                                assert(at(other, w) == at(sigma, w));
                            }
                            lemma_apply_agree(other, sigma, r);
                            lemma_solution_factors(sigma, cs, Ty::Var(z));
                        }
                    }
                    lemma_apply_agree(fourth, third, q.body);
                }
            },
        }
    }
}

/// The environment of the body of a `let`: with the name bound to the value
/// of the bound expression, the substitution models it. The value is one of
/// the type of the bound expression under every instance that satisfies its
/// constraints and models the environment.
pub proof fn lemma_models_generalized(
    g: Map<Seq<char>, Term>,
    env: Seq<Entry>,
    sigma: Instance,
    cs: Seq<Constraint>,
    x: Seq<char>,
    t: Ty,
    v: Term,
    c: nat,
    n: nat,
)
    requires
        inv(env, c),
        generalize_spec(cs, env, x, t) is Ok,
        constraints_known(cs, env, c, n),
        satisfies(sigma, cs),
        models(g, env, sigma),
        closed(v),
        v.is_value(),
        forall|any: Instance| #[trigger]
            satisfies(any, cs) && models(g, env, any) ==> value_of(apply_sub(any, t), v),
    ensures
        models(g.insert(x, v), generalize_spec(cs, env, x, t)->Ok_0, sigma),
{
    let s = unify_spec(cs)->Ok_0;
    let u = resolve(t, s);
    let env1 = resolve_env(env, s);
    let entry = let_binding(env1, u);
    assert(generalize_spec(cs, env, x, t)->Ok_0 == env_insert(env1, x, entry));
    lemma_models_resolved(g, env, sigma, cs, c, n);
    match entry {
        Binding::Mono(_) => {
            assert(satisfies(sigma, cs) && models(g, env, sigma));
            lemma_solution_factors(sigma, cs, t);
        },
        Binding::Poly(p) => {
            assert forall|other: Instance| #[trigger]
                agree_outside(other, sigma, p.bound) implies value_of(apply_sub(other, p.body), v) by {
                let next = following(other, s);
                lemma_solution_satisfies(other, cs);
                assert forall|z: Seq<char>| env_free_vars(env1).contains(z) implies #[trigger] at(
                    other,
                    z,
                ) == at(sigma, z) by {
                    lemma_keep_outside_member(free_vars(Binding::Mono(u)), env_free_vars(env1), z);
                }
                lemma_models_following(g, env, sigma, other, cs, c, n);
                assert(satisfies(next, cs) && models(g, env, next));
                lemma_following_is_both(other, s, t);
            }
        },
    }
    lemma_models_entry(g, env1, sigma, x, entry, v);
}

} // verus!

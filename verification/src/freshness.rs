use vstd::prelude::*;
use crate::environment::{env_free_vars, env_insert, free_vars, lemma_keep_outside_member, Entry};
use crate::names::lemma_numbered_name_injective;
use crate::scopes::{
    binds, holds_entry, lemma_drop_bound_none, lemma_env_free_member, lemma_free_vars_member,
    lemma_insert_entries, lemma_resolve_vars, lemma_resolved_entries, range_has,
};
use crate::solution::lemma_unify_within;
use crate::typecheck::{
    drop_bound, generalize_spec, resolve_binding, resolve_env, type_variable_name,
};
use crate::types::{Binding, Bond, Constraint, Scheme, Ty};
use crate::unify::{
    constraint_vars, find_from, lemma_find_from_bounds, resolve, resolve_from, unify_spec,
};

verus! {

/// The name is one of the first `c` type variables of a run.
pub open spec fn issued_upto(z: Seq<char>, c: nat) -> bool {
    exists|k: nat| k <= c && z == #[trigger] type_variable_name(k)
}

/// The name is one of the type variables made after the `c`-th and up to
/// the `n`-th.
pub open spec fn issued_between(z: Seq<char>, c: nat, n: nat) -> bool {
    exists|k: nat| c < k <= n && z == #[trigger] type_variable_name(k)
}

/// The name stands in the entry: as a variable of its type, or as a
/// quantified variable.
pub open spec fn names(b: Binding, z: Seq<char>) -> bool {
    match b {
        Binding::Mono(t) => t.vars().contains(z),
        Binding::Poly(p) => p.body.vars().contains(z) || p.bound.contains(z),
    }
}

/// Every name in the environment is one of the first `c` type variables.
pub open spec fn env_within(env: Seq<Entry>, c: nat) -> bool {
    forall|b: Binding, z: Seq<char>| #[trigger]
        holds_entry(env, b) && #[trigger] names(b, z) ==> issued_upto(z, c)
}

/// The entry is a scheme that quantifies the name.
pub open spec fn quantified(b: Binding, z: Seq<char>) -> bool {
    b is Poly && b->Poly_0.bound.contains(z)
}

/// No quantified variable of a scheme of the environment is free in the
/// environment.
pub open spec fn schemes_apart(env: Seq<Entry>) -> bool {
    forall|b: Binding, z: Seq<char>| #[trigger]
        holds_entry(env, b) && #[trigger] quantified(b, z) ==> !env_free_vars(env).contains(z)
}

/// What holds of the environment of a checker that has made `c` type
/// variables.
pub open spec fn inv(env: Seq<Entry>, c: nat) -> bool {
    env_within(env, c) && schemes_apart(env)
}

/// The name is free in the environment or was made after the `c`-th type
/// variable and up to the `n`-th.
pub open spec fn known(env: Seq<Entry>, z: Seq<char>, c: nat, n: nat) -> bool {
    env_free_vars(env).contains(z) || issued_between(z, c, n)
}

/// Every variable of the type is known.
pub open spec fn type_known(t: Ty, env: Seq<Entry>, c: nat, n: nat) -> bool {
    forall|z: Seq<char>| #[trigger] t.vars().contains(z) ==> known(env, z, c, n)
}

/// Every variable of the constraints is known.
pub open spec fn constraints_known(cs: Seq<Constraint>, env: Seq<Entry>, c: nat, n: nat) -> bool {
    &&& forall|i: int, z: Seq<char>|
        0 <= i < cs.len() && #[trigger] cs[i].0.vars().contains(z) ==> known(env, z, c, n)
    &&& forall|i: int, z: Seq<char>|
        0 <= i < cs.len() && #[trigger] cs[i].1.vars().contains(z) ==> known(env, z, c, n)
}

/// A variable of the constraints is a variable of one of them.
pub proof fn lemma_constraint_vars_member(cs: Seq<Constraint>, z: Seq<char>)
    requires
        constraint_vars(cs).contains(z),
    ensures
        exists|i: int|
            0 <= i < cs.len() && (#[trigger] cs[i].0.vars().contains(z) || cs[i].1.vars().contains(z)),
    decreases cs.len(),
{
    if cs.len() > 0 {
        if cs[0].0.vars().contains(z) || cs[0].1.vars().contains(z) {
        } else {
            let rest = cs.drop_first();
            lemma_constraint_vars_member(rest, z);
            let i = choose|i: int|
                0 <= i < rest.len() && (#[trigger] rest[i].0.vars().contains(z)
                    || rest[i].1.vars().contains(z));
            assert(rest[i] == cs[i + 1]);
            assert(cs[i + 1].0.vars().contains(z) || cs[i + 1].1.vars().contains(z));
        }
    }
}

/// A variable that is left in a resolved type was in the type and is not
/// bound, or came from a type of the substitution.
pub proof fn lemma_resolve_vars_unbound(t: Ty, s: Seq<Bond>, k: nat, w: Seq<char>)
    requires
        resolve_from(t, s, k).vars().contains(w),
    ensures
        (t.vars().contains(w) && find_from(s, w, k) >= s.len()) || range_has(s, w),
    decreases s.len() - k, t,
{
    match t {
        Ty::Fn(i, o) => {
            if resolve_from(*i, s, k).vars().contains(w) {
                lemma_resolve_vars_unbound(*i, s, k, w);
            } else {
                lemma_resolve_vars_unbound(*o, s, k, w);
            }
        },
        Ty::Var(x) => {
            let at = find_from(s, x, k);
            lemma_find_from_bounds(s, x, k);
            if k <= at < s.len() {
                lemma_resolve_vars(s[at as int].1, s, at + 1, w);
                if s[at as int].1.vars().contains(w) {
                    assert(range_has(s, w));
                }
            }
        },
        _ => {},
    }
}

/// A name made after the `c`-th is none of the first `c`.
pub proof fn lemma_issued_apart(z: Seq<char>, c: nat, n: nat)
    requires
        issued_upto(z, c),
    ensures
        !issued_between(z, c, n),
{
    if issued_between(z, c, n) {
        let k = choose|k: nat| k <= c && z == #[trigger] type_variable_name(k);
        let m = choose|m: nat| c < m <= n && z == #[trigger] type_variable_name(m);
        lemma_numbered_name_injective("'"@, k, m);
    }
}

/// A free variable of the environment stands in one of its entries.
pub proof fn lemma_free_is_named(env: Seq<Entry>, z: Seq<char>)
    requires
        env_free_vars(env).contains(z),
    ensures
        exists|b: Binding| #[trigger] holds_entry(env, b) && names(b, z),
{
    lemma_env_free_member(env, z);
    let b = choose|b: Binding| #[trigger] holds_entry(env, b) && free_vars(b).contains(z);
    lemma_free_vars_member(b, z);
    assert(holds_entry(env, b) && names(b, z));
}

/// A known name is one of the first `n` type variables.
pub proof fn lemma_known_is_issued(env: Seq<Entry>, z: Seq<char>, c: nat, n: nat)
    requires
        env_within(env, c),
        c <= n,
        known(env, z, c, n),
    ensures
        issued_upto(z, n),
{
    if env_free_vars(env).contains(z) {
        lemma_free_is_named(env, z);
        let b = choose|b: Binding| #[trigger] holds_entry(env, b) && names(b, z);
        assert(issued_upto(z, c));
        let k = choose|k: nat| k <= c && z == #[trigger] type_variable_name(k);
        assert(k <= n && z == type_variable_name(k));
    } else {
        let k = choose|k: nat| c < k <= n && z == #[trigger] type_variable_name(k);
        assert(k <= n && z == type_variable_name(k));
    }
}

/// A quantified variable of a scheme of the environment is not known: it is
/// not free in the environment, and it was made before.
pub proof fn lemma_quantified_unknown(env: Seq<Entry>, b: Binding, z: Seq<char>, c: nat, n: nat)
    requires
        inv(env, c),
        holds_entry(env, b),
        quantified(b, z),
    ensures
        !known(env, z, c, n),
{
    assert(names(b, z));
    assert(issued_upto(z, c));
    lemma_issued_apart(z, c, n);
}

/// What holds of an environment holds of it later.
pub proof fn lemma_inv_later(env: Seq<Entry>, c: nat, n: nat)
    requires
        inv(env, c),
        c <= n,
    ensures
        inv(env, n),
{
    assert forall|b: Binding, z: Seq<char>| #[trigger]
        holds_entry(env, b) && #[trigger] names(b, z) implies issued_upto(z, n) by {
        assert(issued_upto(z, c));
        let k = choose|k: nat| k <= c && z == #[trigger] type_variable_name(k);
        assert(k <= n && z == type_variable_name(k));
    }
}

/// The free variables of an environment with one more binding are those of
/// the binding and free variables of the environment.
pub proof fn lemma_insert_free(env: Seq<Entry>, x: Seq<char>, b: Binding, z: Seq<char>)
    requires
        env_free_vars(env_insert(env, x, b)).contains(z),
    ensures
        free_vars(b).contains(z) || env_free_vars(env).contains(z),
{
    let ext = env_insert(env, x, b);
    lemma_env_free_member(ext, z);
    let other = choose|other: Binding| #[trigger] holds_entry(ext, other) && free_vars(other).contains(z);
    lemma_insert_entries(env, x, b, other);
    if other != b {
        lemma_env_free_member(env, z);
    }
}

/// The environment of a function's body: what holds of the environment
/// holds of it with the parameter bound to the next type variable.
pub proof fn lemma_inv_parameter(env: Seq<Entry>, arg: Seq<char>, c: nat)
    requires
        inv(env, c),
    ensures
        inv(env_insert(env, arg, Binding::Mono(Ty::Var(type_variable_name(c + 1)))), c + 1),
{
    let fresh = type_variable_name(c + 1);
    let entry = Binding::Mono(Ty::Var(fresh));
    let ext = env_insert(env, arg, entry);
    lemma_inv_later(env, c, c + 1);
    assert forall|b: Binding, z: Seq<char>| #[trigger]
        holds_entry(ext, b) && #[trigger] names(b, z) implies issued_upto(z, c + 1) by {
        lemma_insert_entries(env, arg, entry, b);
        if b == entry {
            assert(c + 1 <= c + 1 && z == type_variable_name((c + 1) as nat));
        }
    }
    assert forall|b: Binding, z: Seq<char>| #[trigger]
        holds_entry(ext, b) && #[trigger] quantified(b, z) implies !env_free_vars(ext).contains(z) by {
        lemma_insert_entries(env, arg, entry, b);
        assert(holds_entry(env, b));
        if env_free_vars(ext).contains(z) {
            lemma_insert_free(env, arg, entry, z);
            lemma_free_vars_member(entry, z);
            assert(names(b, z));
            lemma_issued_apart(z, c, c + 1);
            assert(c < c + 1 <= c + 1 && z == type_variable_name((c + 1) as nat));
        }
    }
}

/// The binding that a `let` gives its name: the type under the solution,
/// quantified over what is free in it and not in the environment.
pub open spec fn let_binding(env1: Seq<Entry>, u: Ty) -> Binding {
    let quantified = crate::environment::keep_outside(
        free_vars(Binding::Mono(u)),
        env_free_vars(env1),
    );
    if quantified.len() == 0 {
        Binding::Mono(u)
    } else {
        Binding::Poly(Scheme { bound: quantified, body: u })
    }
}

/// The solver's substitution binds known variables to types of known
/// variables.
pub proof fn lemma_solution_known(cs: Seq<Constraint>, env: Seq<Entry>, c: nat, n: nat, z: Seq<char>)
    requires
        unify_spec(cs) is Ok,
        constraints_known(cs, env, c, n),
        binds(unify_spec(cs)->Ok_0, z) || range_has(unify_spec(cs)->Ok_0, z),
    ensures
        known(env, z, c, n),
{
    let s = unify_spec(cs)->Ok_0;
    if binds(s, z) {
        let i = choose|i: int| 0 <= i < s.len() && (#[trigger] s[i]).0 == z;
        lemma_unify_within(cs, i);
        lemma_constraint_vars_member(cs, z);
    } else {
        let i = choose|i: int| 0 <= i < s.len() && (#[trigger] s[i]).1.vars().contains(z);
        lemma_unify_within(cs, i);
        assert(constraint_vars(cs).contains(z));
        lemma_constraint_vars_member(cs, z);
    }
}

/// The solution of constraints of known variables leaves the schemes of the
/// environment alone: it binds none of their quantified variables, and none
/// stands in its types.
pub proof fn lemma_scheme_untouched(
    cs: Seq<Constraint>,
    env: Seq<Entry>,
    c: nat,
    n: nat,
    q: Scheme,
)
    requires
        inv(env, c),
        unify_spec(cs) is Ok,
        constraints_known(cs, env, c, n),
        holds_entry(env, Binding::Poly(q)),
    ensures
        drop_bound(unify_spec(cs)->Ok_0, q.bound) == unify_spec(cs)->Ok_0,
        forall|z: Seq<char>| q.bound.contains(z) ==> !range_has(unify_spec(cs)->Ok_0, z),
        forall|z: Seq<char>| q.bound.contains(z) ==> !binds(unify_spec(cs)->Ok_0, z),
{
    let s = unify_spec(cs)->Ok_0;
    let b = Binding::Poly(q);
    assert forall|z: Seq<char>| q.bound.contains(z) implies !range_has(s, z) && !binds(s, z) by {
        assert(quantified(b, z));
        lemma_quantified_unknown(env, b, z, c, n);
        if range_has(s, z) || binds(s, z) {
            lemma_solution_known(cs, env, c, n, z);
        }
    }
    lemma_drop_bound_none(s, q.bound);
}

/// The free variables of an entry under the solution are known.
pub proof fn lemma_resolved_free_known(
    cs: Seq<Constraint>,
    env: Seq<Entry>,
    c: nat,
    n: nat,
    b: Binding,
    z: Seq<char>,
)
    requires
        inv(env, c),
        unify_spec(cs) is Ok,
        constraints_known(cs, env, c, n),
        holds_entry(env, b),
        free_vars(resolve_binding(b, unify_spec(cs)->Ok_0)).contains(z),
    ensures
        known(env, z, c, n),
{
    let s = unify_spec(cs)->Ok_0;
    lemma_free_vars_member(resolve_binding(b, s), z);
    match b {
        Binding::Mono(t) => {
            lemma_resolve_vars(t, s, 0, z);
            if t.vars().contains(z) {
                lemma_free_vars_member(b, z);
                lemma_env_free_member(env, z);
            } else {
                lemma_solution_known(cs, env, c, n, z);
            }
        },
        Binding::Poly(q) => {
            lemma_scheme_untouched(cs, env, c, n, q);
            lemma_resolve_vars(q.body, s, 0, z);
            if q.body.vars().contains(z) {
                lemma_free_vars_member(b, z);
                lemma_env_free_member(env, z);
            } else {
                lemma_solution_known(cs, env, c, n, z);
            }
        },
    }
}

/// The free variables of the environment under the solution are known.
pub proof fn lemma_resolved_env_free_known(
    cs: Seq<Constraint>,
    env: Seq<Entry>,
    c: nat,
    n: nat,
    z: Seq<char>,
)
    requires
        inv(env, c),
        unify_spec(cs) is Ok,
        constraints_known(cs, env, c, n),
        env_free_vars(resolve_env(env, unify_spec(cs)->Ok_0)).contains(z),
    ensures
        known(env, z, c, n),
{
    let s = unify_spec(cs)->Ok_0;
    let env1 = resolve_env(env, s);
    lemma_env_free_member(env1, z);
    let other = choose|other: Binding| #[trigger] holds_entry(env1, other) && free_vars(other).contains(z);
    lemma_resolved_entries(env, s, other);
    let b = choose|b: Binding| #[trigger] holds_entry(env, b) && other == resolve_binding(b, s);
    lemma_resolved_free_known(cs, env, c, n, b, z);
}

/// The variables of a type of known variables under the solution are
/// known.
pub proof fn lemma_resolved_type_known(
    cs: Seq<Constraint>,
    env: Seq<Entry>,
    c: nat,
    n: nat,
    t: Ty,
    z: Seq<char>,
)
    requires
        unify_spec(cs) is Ok,
        constraints_known(cs, env, c, n),
        type_known(t, env, c, n),
        resolve(t, unify_spec(cs)->Ok_0).vars().contains(z),
    ensures
        known(env, z, c, n),
{
    let s = unify_spec(cs)->Ok_0;
    lemma_resolve_vars(t, s, 0, z);
    if !t.vars().contains(z) {
        lemma_solution_known(cs, env, c, n, z);
    }
}

/// The free variables of the environment of the body of a `let` are known.
pub proof fn lemma_generalized_free_known(
    cs: Seq<Constraint>,
    env: Seq<Entry>,
    x: Seq<char>,
    t: Ty,
    c: nat,
    n: nat,
    z: Seq<char>,
)
    requires
        inv(env, c),
        generalize_spec(cs, env, x, t) is Ok,
        constraints_known(cs, env, c, n),
        type_known(t, env, c, n),
        env_free_vars(generalize_spec(cs, env, x, t)->Ok_0).contains(z),
    ensures
        known(env, z, c, n),
{
    let s = unify_spec(cs)->Ok_0;
    let u = resolve(t, s);
    let env1 = resolve_env(env, s);
    let entry = let_binding(env1, u);
    assert(generalize_spec(cs, env, x, t)->Ok_0 == env_insert(env1, x, entry));
    lemma_insert_free(env1, x, entry, z);
    if free_vars(entry).contains(z) {
        lemma_free_vars_member(entry, z);
        lemma_resolved_type_known(cs, env, c, n, t, z);
    } else {
        lemma_resolved_env_free_known(cs, env, c, n, z);
    }
}

/// What holds of the environment holds of the environment of the body of a
/// `let`.
pub proof fn lemma_inv_generalized(
    cs: Seq<Constraint>,
    env: Seq<Entry>,
    x: Seq<char>,
    t: Ty,
    c: nat,
    n: nat,
)
    requires
        inv(env, c),
        c <= n,
        generalize_spec(cs, env, x, t) is Ok,
        constraints_known(cs, env, c, n),
        type_known(t, env, c, n),
    ensures
        inv(generalize_spec(cs, env, x, t)->Ok_0, n),
{
    let s = unify_spec(cs)->Ok_0;
    let u = resolve(t, s);
    let env1 = resolve_env(env, s);
    let entry = let_binding(env1, u);
    let ext = generalize_spec(cs, env, x, t)->Ok_0;
    assert(ext == env_insert(env1, x, entry));
    let mono = Binding::Mono(u);
    assert forall|b: Binding, z: Seq<char>| #[trigger]
        holds_entry(ext, b) && #[trigger] names(b, z) implies issued_upto(z, n) by {
        lemma_insert_entries(env1, x, entry, b);
        if b == entry {
            if entry is Poly && entry->Poly_0.bound.contains(z) {
                lemma_keep_outside_member(free_vars(mono), env_free_vars(env1), z);
                lemma_free_vars_member(mono, z);
            }
            assert(u.vars().contains(z));
            lemma_resolved_type_known(cs, env, c, n, t, z);
            lemma_known_is_issued(env, z, c, n);
        } else {
            lemma_resolved_entries(env, s, b);
            let old = choose|old: Binding| #[trigger] holds_entry(env, old) && b == resolve_binding(old, s);
            match old {
                Binding::Mono(t0) => {
                    lemma_resolve_vars(t0, s, 0, z);
                    if t0.vars().contains(z) {
                        assert(names(old, z));
                        lemma_inv_later(env, c, n);
                    } else {
                        lemma_solution_known(cs, env, c, n, z);
                        lemma_known_is_issued(env, z, c, n);
                    }
                },
                Binding::Poly(q) => {
                    if q.bound.contains(z) {
                        assert(names(old, z));
                        lemma_inv_later(env, c, n);
                    } else {
                        lemma_resolve_vars(q.body, drop_bound(s, q.bound), 0, z);
                        lemma_scheme_untouched(cs, env, c, n, q);
                        if q.body.vars().contains(z) {
                            assert(names(old, z));
                            lemma_inv_later(env, c, n);
                        } else {
                            lemma_solution_known(cs, env, c, n, z);
                            lemma_known_is_issued(env, z, c, n);
                        }
                    }
                },
            }
        }
    }
    assert forall|b: Binding, z: Seq<char>| #[trigger]
        holds_entry(ext, b) && #[trigger] quantified(b, z) implies !env_free_vars(ext).contains(z) by {
        lemma_insert_entries(env1, x, entry, b);
        if env_free_vars(ext).contains(z) {
            if b == entry {
                lemma_keep_outside_member(free_vars(mono), env_free_vars(env1), z);
                lemma_insert_free(env1, x, entry, z);
                lemma_free_vars_member(entry, z);
            } else {
                lemma_resolved_entries(env, s, b);
                let old = choose|old: Binding| #[trigger] holds_entry(env, old) && b == resolve_binding(old, s);
                assert(quantified(old, z));
                lemma_quantified_unknown(env, old, z, c, n);
                lemma_generalized_free_known(cs, env, x, t, c, n, z);
            }
        }
    }
}

} // verus!

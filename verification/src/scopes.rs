use vstd::prelude::*;
use crate::environment::{
    collect_vars, env_free_vars, env_insert, env_lookup, env_remove, free_vars,
    lemma_collect_vars_members, lemma_contains_concat, lemma_keep_outside_member, Entry,
};
use crate::typecheck::{drop_bound, resolve_binding, resolve_env};
use crate::types::{Binding, Bond, Ty};
use crate::unify::{find_from, resolve_from};

verus! {

/// Whether the environment has an entry with this binding.
pub open spec fn holds_entry(env: Seq<Entry>, b: Binding) -> bool {
    exists|i: int| 0 <= i < env.len() && (#[trigger] env[i]).1 == b
}

/// Whether a type of the substitution holds the variable.
pub open spec fn range_has(s: Seq<Bond>, w: Seq<char>) -> bool {
    exists|i: int| 0 <= i < s.len() && (#[trigger] s[i]).1.vars().contains(w)
}

/// Whether the substitution binds the variable.
pub open spec fn binds(s: Seq<Bond>, z: Seq<char>) -> bool {
    exists|i: int| 0 <= i < s.len() && (#[trigger] s[i]).0 == z
}

/// What a lookup finds is an entry.
pub proof fn lemma_lookup_is_entry(env: Seq<Entry>, y: Seq<char>)
    requires
        env_lookup(env, y) is Some,
    ensures
        holds_entry(env, env_lookup(env, y)->Some_0),
    decreases env.len(),
{
    if env.last().0 == y {
        assert(env[env.len() - 1].1 == env_lookup(env, y)->Some_0);
    } else {
        let init = env.drop_last();
        lemma_lookup_is_entry(init, y);
        let i = choose|i: int| 0 <= i < init.len() && (#[trigger] init[i]).1 == env_lookup(init, y)->Some_0;
        assert(env[i] == init[i]);
    }
}

/// An environment without a name binds every other name as before.
pub proof fn lemma_lookup_remove(env: Seq<Entry>, x: Seq<char>, y: Seq<char>)
    ensures
        env_lookup(env_remove(env, x), y) == if y == x {
            None
        } else {
            env_lookup(env, y)
        },
    decreases env.len(),
{
    if env.len() > 0 {
        let init = env.drop_last();
        lemma_lookup_remove(init, x, y);
        if env.last().0 != x {
            let r = env_remove(init, x).push(env.last());
            assert(r.drop_last() =~= env_remove(init, x));
        }
    }
}

/// An environment with one more binding binds the name to it and every
/// other name as before.
pub proof fn lemma_lookup_insert(env: Seq<Entry>, x: Seq<char>, b: Binding, y: Seq<char>)
    ensures
        env_lookup(env_insert(env, x, b), y) == if y == x {
            Some(b)
        } else {
            env_lookup(env, y)
        },
{
    lemma_lookup_remove(env, x, y);
    let r = env_remove(env, x).push((x, b));
    assert(r.drop_last() =~= env_remove(env, x));
}

/// An environment under a substitution binds the same names, each to its
/// binding under the substitution.
pub proof fn lemma_lookup_resolved(env: Seq<Entry>, s: Seq<Bond>, y: Seq<char>)
    ensures
        env_lookup(resolve_env(env, s), y) == match env_lookup(env, y) {
            Some(b) => Some(resolve_binding(b, s)),
            None => None,
        },
    decreases env.len(),
{
    if env.len() > 0 {
        let init = env.drop_last();
        lemma_lookup_resolved(init, s, y);
        assert(resolve_env(env, s).drop_last() =~= resolve_env(init, s));
    }
}

/// The entries of an environment without a name are entries of the
/// environment.
pub proof fn lemma_remove_entries(env: Seq<Entry>, x: Seq<char>, b: Binding)
    requires
        holds_entry(env_remove(env, x), b),
    ensures
        holds_entry(env, b),
    decreases env.len(),
{
    if env.len() > 0 {
        let init = env.drop_last();
        let r = env_remove(env, x);
        let i = choose|i: int| 0 <= i < r.len() && (#[trigger] r[i]).1 == b;
        if env.last().0 != x && i == r.len() - 1 {
            assert(env[env.len() - 1].1 == b);
        } else {
            assert(env_remove(init, x)[i].1 == b);
            lemma_remove_entries(init, x, b);
            let j = choose|j: int| 0 <= j < init.len() && (#[trigger] init[j]).1 == b;
            assert(env[j] == init[j]);
        }
    }
}

/// The entries of an environment with one more binding are that binding and
/// entries of the environment.
pub proof fn lemma_insert_entries(env: Seq<Entry>, x: Seq<char>, b: Binding, other: Binding)
    requires
        holds_entry(env_insert(env, x, b), other),
    ensures
        other == b || holds_entry(env, other),
{
    let r = env_insert(env, x, b);
    let i = choose|i: int| 0 <= i < r.len() && (#[trigger] r[i]).1 == other;
    if i < r.len() - 1 {
        assert(env_remove(env, x)[i].1 == other);
        lemma_remove_entries(env, x, other);
    }
}

/// The entries of an environment under a substitution are the entries of
/// the environment under the substitution.
pub proof fn lemma_resolved_entries(env: Seq<Entry>, s: Seq<Bond>, other: Binding)
    requires
        holds_entry(resolve_env(env, s), other),
    ensures
        exists|b: Binding| #[trigger] holds_entry(env, b) && other == resolve_binding(b, s),
{
    let r = resolve_env(env, s);
    let i = choose|i: int| 0 <= i < r.len() && (#[trigger] r[i]).1 == other;
    assert(env[i].1 == env[i].1);
    assert(holds_entry(env, env[i].1));
}

/// A name is a free type variable of an environment exactly when it is one
/// of an entry.
pub proof fn lemma_env_free_member(env: Seq<Entry>, z: Seq<char>)
    ensures
        env_free_vars(env).contains(z) <==> exists|b: Binding| #[trigger]
            holds_entry(env, b) && free_vars(b).contains(z),
    decreases env.len(),
{
    if env.len() == 0 {
        if exists|b: Binding| #[trigger] holds_entry(env, b) && free_vars(b).contains(z) {
            let b = choose|b: Binding| #[trigger] holds_entry(env, b) && free_vars(b).contains(z);
            assert(holds_entry(env, b));
        }
    } else {
        let init = env.drop_last();
        let last = env.last().1;
        lemma_env_free_member(init, z);
        lemma_contains_concat(env_free_vars(init), free_vars(last), z);
        if env_free_vars(env).contains(z) {
            if free_vars(last).contains(z) {
                assert(env[env.len() - 1].1 == last);
                assert(holds_entry(env, last));
            } else {
                let b = choose|b: Binding| #[trigger] holds_entry(init, b) && free_vars(b).contains(z);
                let i = choose|i: int| 0 <= i < init.len() && (#[trigger] init[i]).1 == b;
                assert(env[i] == init[i]);
                assert(holds_entry(env, b));
            }
        }
        if exists|b: Binding| #[trigger] holds_entry(env, b) && free_vars(b).contains(z) {
            let b = choose|b: Binding| #[trigger] holds_entry(env, b) && free_vars(b).contains(z);
            let i = choose|i: int| 0 <= i < env.len() && (#[trigger] env[i]).1 == b;
            if i < env.len() - 1 {
                assert(init[i] == env[i]);
                assert(holds_entry(init, b));
            }
        }
    }
}

/// The free type variables of an entry: the variables of a type; of a
/// scheme, those of its body that it does not quantify.
pub proof fn lemma_free_vars_member(b: Binding, z: Seq<char>)
    ensures
        free_vars(b).contains(z) <==> match b {
            Binding::Mono(t) => t.vars().contains(z),
            Binding::Poly(p) => p.body.vars().contains(z) && !p.bound.contains(z),
        },
{
    let none = Seq::<Seq<char>>::empty();
    match b {
        Binding::Mono(t) => {
            lemma_collect_vars_members(t, none);
            assert(collect_vars(t, none).contains(z) <==> (none.contains(z) || t.vars().contains(z)));
        },
        Binding::Poly(p) => {
            lemma_collect_vars_members(p.body, none);
            assert(collect_vars(p.body, none).contains(z) <==> (none.contains(z)
                || p.body.vars().contains(z)));
            lemma_keep_outside_member(collect_vars(p.body, none), p.bound, z);
        },
    }
}

/// A resolved type holds variables of the type and of the types of the
/// substitution, and no others.
pub proof fn lemma_resolve_vars(t: Ty, s: Seq<Bond>, k: nat, w: Seq<char>)
    requires
        resolve_from(t, s, k).vars().contains(w),
    ensures
        t.vars().contains(w) || range_has(s, w),
    decreases s.len() - k, t,
{
    match t {
        Ty::Fn(i, o) => {
            if resolve_from(*i, s, k).vars().contains(w) {
                lemma_resolve_vars(*i, s, k, w);
            } else {
                lemma_resolve_vars(*o, s, k, w);
            }
        },
        Ty::Var(x) => {
            let at = find_from(s, x, k);
            if k <= at < s.len() {
                lemma_resolve_vars(s[at as int].1, s, at + 1, w);
                if s[at as int].1.vars().contains(w) {
                    assert(range_has(s, w));
                }
            }
        },
        _ => {},
    }
}

/// What a variable of a type resolves to is part of what the type resolves
/// to.
pub proof fn lemma_resolve_var_part(t: Ty, s: Seq<Bond>, k: nat, z: Seq<char>, w: Seq<char>)
    requires
        t.vars().contains(z),
        resolve_from(Ty::Var(z), s, k).vars().contains(w),
    ensures
        resolve_from(t, s, k).vars().contains(w),
    decreases t,
{
    match t {
        Ty::Fn(i, o) => {
            if i.vars().contains(z) {
                lemma_resolve_var_part(*i, s, k, z, w);
            } else {
                lemma_resolve_var_part(*o, s, k, z, w);
            }
        },
        _ => {},
    }
}

/// A substitution that binds none of the names loses nothing when the
/// bindings of those names are dropped.
pub proof fn lemma_drop_bound_none(s: Seq<Bond>, bound: Seq<Seq<char>>)
    requires
        forall|z: Seq<char>| bound.contains(z) ==> !binds(s, z),
    ensures
        drop_bound(s, bound) == s,
    decreases s.len(),
{
    if s.len() > 0 {
        let init = s.drop_last();
        assert forall|z: Seq<char>| bound.contains(z) implies !binds(init, z) by {
            if binds(init, z) {
                let i = choose|i: int| 0 <= i < init.len() && (#[trigger] init[i]).0 == z;
                assert(s[i] == init[i]);
                assert(binds(s, z));
            }
        }
        lemma_drop_bound_none(init, bound);
        if bound.contains(s.last().0) {
            assert(s[s.len() - 1].0 == s.last().0);
            assert(binds(s, s.last().0));
        }
        assert(init.push(s.last()) =~= s);
    }
}

} // verus!

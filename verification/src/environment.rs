use vstd::prelude::*;
use crate::types::{entries_of, names_of, Binding, MonoType, Ty, Type};

verus! {

/// A name of the object language and what it is bound to.
pub type Entry = (Seq<char>, Binding);

/// What the environment binds `x` to: the entry nearest to the end.
pub open spec fn env_lookup(env: Seq<Entry>, x: Seq<char>) -> Option<Binding>
    decreases env.len(),
{
    if env.len() == 0 {
        None
    } else if env.last().0 == x {
        Some(env.last().1)
    } else {
        env_lookup(env.drop_last(), x)
    }
}

/// The environment without its entries for `x`.
pub open spec fn env_remove(env: Seq<Entry>, x: Seq<char>) -> Seq<Entry>
    decreases env.len(),
{
    if env.len() == 0 {
        env
    } else if env.last().0 == x {
        env_remove(env.drop_last(), x)
    } else {
        env_remove(env.drop_last(), x).push(env.last())
    }
}

/// The environment with `x` bound to `b` and to nothing else.
pub open spec fn env_insert(env: Seq<Entry>, x: Seq<char>, b: Binding) -> Seq<Entry> {
    env_remove(env, x).push((x, b))
}

/// The variables of `t` from left to right, each added to `seen` where it
/// first occurs.
pub open spec fn collect_vars(t: Ty, seen: Seq<Seq<char>>) -> Seq<Seq<char>>
    decreases t,
{
    match t {
        Ty::Int | Ty::Bool => seen,
        Ty::Var(x) => if seen.contains(x) {
            seen
        } else {
            seen.push(x)
        },
        Ty::Fn(i, o) => collect_vars(*o, collect_vars(*i, seen)),
    }
}

/// The names of `s` that are not in `excluded`, in their order.
pub open spec fn keep_outside(s: Seq<Seq<char>>, excluded: Seq<Seq<char>>) -> Seq<Seq<char>>
    decreases s.len(),
{
    if s.len() == 0 {
        s
    } else if excluded.contains(s.last()) {
        keep_outside(s.drop_last(), excluded)
    } else {
        keep_outside(s.drop_last(), excluded).push(s.last())
    }
}

/// The free type variables of an entry: those of a type, each once and in
/// the order of their first occurrence; of a scheme, those of its body that
/// it does not quantify.
pub open spec fn free_vars(b: Binding) -> Seq<Seq<char>> {
    match b {
        Binding::Mono(t) => collect_vars(t, Seq::empty()),
        Binding::Poly(p) => keep_outside(collect_vars(p.body, Seq::empty()), p.bound),
    }
}

/// The free type variables of all the entries of an environment, one entry
/// after the other.
pub open spec fn env_free_vars(env: Seq<Entry>) -> Seq<Seq<char>>
    decreases env.len(),
{
    if env.len() == 0 {
        Seq::empty()
    } else {
        env_free_vars(env.drop_last()) + free_vars(env.last().1)
    }
}

/// A name is in a sequence with one more element exactly when it is in the
/// sequence or is that element.
pub proof fn lemma_contains_push(s: Seq<Seq<char>>, a: Seq<char>, x: Seq<char>)
    ensures
        s.push(a).contains(x) <==> (s.contains(x) || a == x),
{
    let r = s.push(a);
    if r.contains(x) {
        let i = choose|i: int| 0 <= i < r.len() && r[i] == x;
        if i < s.len() {
            assert(s[i] == x);
        }
    }
    if s.contains(x) {
        let i = choose|i: int| 0 <= i < s.len() && s[i] == x;
        assert(r[i] == x);
    }
    if a == x {
        assert(r[s.len() as int] == x);
    }
}

/// A name is in two sequences put together exactly when it is in one of
/// them.
pub proof fn lemma_contains_concat(a: Seq<Seq<char>>, b: Seq<Seq<char>>, x: Seq<char>)
    ensures
        (a + b).contains(x) <==> (a.contains(x) || b.contains(x)),
{
    let r = a + b;
    if r.contains(x) {
        let i = choose|i: int| 0 <= i < r.len() && r[i] == x;
        if i < a.len() {
            assert(a[i] == x);
        } else {
            assert(b[i - a.len()] == x);
        }
    }
    if a.contains(x) {
        let i = choose|i: int| 0 <= i < a.len() && a[i] == x;
        assert(r[i] == x);
    }
    if b.contains(x) {
        let i = choose|i: int| 0 <= i < b.len() && b[i] == x;
        assert(r[a.len() + i] == x);
    }
}

/// What is kept is what was there and is not excluded.
pub proof fn lemma_keep_outside_member(s: Seq<Seq<char>>, excluded: Seq<Seq<char>>, x: Seq<char>)
    ensures
        keep_outside(s, excluded).contains(x) <==> (s.contains(x) && !excluded.contains(x)),
    decreases s.len(),
{
    if s.len() > 0 {
        let init = s.drop_last();
        lemma_keep_outside_member(init, excluded, x);
        assert(s =~= init.push(s.last()));
        lemma_contains_push(init, s.last(), x);
        if !excluded.contains(s.last()) {
            lemma_contains_push(keep_outside(init, excluded), s.last(), x);
        }
    }
}

/// What collecting adds is what the type holds: the result has the names
/// seen before and the variables of the type, and no others.
pub proof fn lemma_collect_vars_members(t: Ty, seen: Seq<Seq<char>>)
    ensures
        forall|x: Seq<char>|
            (#[trigger] collect_vars(t, seen).contains(x)) <==> (seen.contains(x)
                || t.vars().contains(x)),
    decreases t,
{
    let r = collect_vars(t, seen);
    match t {
        Ty::Fn(i, o) => {
            lemma_collect_vars_members(*i, seen);
            lemma_collect_vars_members(*o, collect_vars(*i, seen));
        },
        _ => {},
    }
    assert forall|x: Seq<char>|
        (#[trigger] collect_vars(t, seen).contains(x)) <==> (seen.contains(x) || t.vars().contains(
            x,
        )) by {
        match t {
            Ty::Var(y) => {
                if !seen.contains(y) {
                    assert(r == seen.push(y));
                    assert(r[seen.len() as int] == y);
                    if r.contains(x) {
                        let i = choose|i: int| 0 <= i < r.len() && r[i] == x;
                        if i < seen.len() {
                            assert(seen[i] == x);
                        }
                    }
                    if seen.contains(x) {
                        let i = choose|i: int| 0 <= i < seen.len() && seen[i] == x;
                        assert(r[i] == x);
                    }
                }
            },
            Ty::Fn(i, o) => {
                let mid = collect_vars(*i, seen);
                assert(r == collect_vars(*o, mid));
                assert(collect_vars(*o, mid).contains(x) <==> (mid.contains(x) || o.vars().contains(
                    x,
                )));
                assert(mid.contains(x) <==> (seen.contains(x) || i.vars().contains(x)));
            },
            _ => {},
        }
    }
}

/// The entry that the environment holds for the name, if it holds one.
pub fn lookup(env: &Vec<(String, Type)>, name: &String) -> (res: Option<Type>)
    ensures
        match env_lookup(entries_of(env@), name@) {
            Some(b) => res is Some && res->Some_0@ == b,
            None => res is None,
        },
{
    let ghost all = entries_of(env@);
    let mut i: usize = env.len();
    proof {
        assert(all.take(i as int) =~= all);
    }
    while i > 0
        invariant
            i <= env.len(),
            all == entries_of(env@),
            env_lookup(all, name@) == env_lookup(all.take(i as int), name@),
        decreases i,
    {
        let ghost part = all.take(i as int);
        proof {
            assert(part.last() == all[i - 1]);
            assert(part.drop_last() =~= all.take(i - 1));
        }
        if env[i - 1].0 == *name {
            return Some(env[i - 1].1.clone());
        }
        i = i - 1;
    }
    None
}

/// A copy of the environment in which the name is bound to the entry.
pub fn insert(env: &Vec<(String, Type)>, name: String, entry: Type) -> (res: Vec<(String, Type)>)
    ensures
        entries_of(res@) == env_insert(entries_of(env@), name@, entry@),
{
    let ghost all = entries_of(env@);
    let mut out: Vec<(String, Type)> = Vec::new();
    let mut i: usize = 0;
    proof {
        assert(entries_of(out@) =~= env_remove(all.take(0), name@));
    }
    while i < env.len()
        invariant
            i <= env.len(),
            all == entries_of(env@),
            entries_of(out@) == env_remove(all.take(i as int), name@),
        decreases env.len() - i,
    {
        let ghost part = all.take(i + 1);
        let ghost before = entries_of(out@);
        proof {
            assert(part.last() == all[i as int]);
            assert(part.drop_last() =~= all.take(i as int));
        }
        if !(env[i].0 == name) {
            out.push((env[i].0.clone(), env[i].1.clone()));
            proof {
                assert(entries_of(out@) =~= before.push(all[i as int]));
            }
        }
        i = i + 1;
    }
    let ghost before = entries_of(out@);
    proof {
        assert(all.take(i as int) =~= all);
    }
    out.push((name, entry));
    proof {
        assert(entries_of(out@) =~= before.push((name@, entry@)));
    }
    out
}

/// Adds the variables of the type to the names seen, each where it first
/// occurs.
pub fn collect_type_vars(monotype: &MonoType, seen: &mut Vec<String>)
    ensures
        names_of(final(seen)@) == collect_vars(monotype@, names_of(old(seen)@)),
    decreases monotype,
{
    match monotype {
        MonoType::Int | MonoType::Bool => {},
        MonoType::TypeVariable(x) => {
            if !crate::types::contains_name(seen, x) {
                let ghost before = names_of(seen@);
                seen.push(x.clone());
                proof {
                    assert(names_of(seen@) =~= before.push(x@));
                }
            }
        },
        MonoType::Fn(i, o) => {
            collect_type_vars(i, seen);
            collect_type_vars(o, seen);
        },
    }
}

/// The names that are not among the excluded ones, in their order.
pub fn names_outside(names: &Vec<String>, excluded: &Vec<String>) -> (res: Vec<String>)
    ensures
        names_of(res@) == keep_outside(names_of(names@), names_of(excluded@)),
{
    let ghost all = names_of(names@);
    let mut out: Vec<String> = Vec::new();
    let mut i: usize = 0;
    proof {
        assert(names_of(out@) =~= keep_outside(all.take(0), names_of(excluded@)));
    }
    while i < names.len()
        invariant
            i <= names.len(),
            all == names_of(names@),
            names_of(out@) == keep_outside(all.take(i as int), names_of(excluded@)),
        decreases names.len() - i,
    {
        let ghost part = all.take(i + 1);
        let ghost before = names_of(out@);
        proof {
            assert(part.last() == all[i as int]);
            assert(part.drop_last() =~= all.take(i as int));
        }
        if !crate::types::contains_name(excluded, &names[i]) {
            out.push(names[i].clone());
            proof {
                assert(names_of(out@) =~= before.push(all[i as int]));
            }
        }
        i = i + 1;
    }
    proof {
        assert(all.take(i as int) =~= all);
    }
    out
}

} // verus!

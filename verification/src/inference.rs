use vstd::prelude::*;
use crate::ast::Term;
use crate::environment::{env_free_vars, env_insert, env_lookup, Entry};
use crate::freshness::{
    constraints_known, inv, issued_between, known, lemma_generalized_free_known, lemma_insert_free,
    lemma_inv_generalized, lemma_inv_later, lemma_inv_parameter, lemma_resolve_vars_unbound,
    type_known,
};
use crate::scopes::{
    lemma_env_free_member, lemma_free_vars_member, lemma_lookup_is_entry, range_has,
};
use crate::solution::lemma_find_from_none;
use crate::typecheck::{fresh_bonds, generalize_spec, infer, result_type, type_variable_name};
use crate::types::{Binding, Constraint, Ty};

verus! {

/// A name that is known is known in a wider span.
pub proof fn lemma_known_wider(env: Seq<Entry>, z: Seq<char>, c: nat, n: nat, c0: nat, n0: nat)
    requires
        known(env, z, c, n),
        c0 <= c,
        n <= n0,
    ensures
        known(env, z, c0, n0),
{
    if !env_free_vars(env).contains(z) {
        let k = choose|k: nat| c < k <= n && z == #[trigger] type_variable_name(k);
        assert(c0 < k <= n0 && z == type_variable_name(k));
    }
}

/// The same of the variables of a type.
pub proof fn lemma_type_known_wider(t: Ty, env: Seq<Entry>, c: nat, n: nat, c0: nat, n0: nat)
    requires
        type_known(t, env, c, n),
        c0 <= c,
        n <= n0,
    ensures
        type_known(t, env, c0, n0),
{
    assert forall|z: Seq<char>| #[trigger] t.vars().contains(z) implies known(env, z, c0, n0) by {
        lemma_known_wider(env, z, c, n, c0, n0);
    }
}

/// The same of the variables of constraints.
pub proof fn lemma_constraints_known_wider(
    cs: Seq<Constraint>,
    env: Seq<Entry>,
    c: nat,
    n: nat,
    c0: nat,
    n0: nat,
)
    requires
        constraints_known(cs, env, c, n),
        c0 <= c,
        n <= n0,
    ensures
        constraints_known(cs, env, c0, n0),
{
    assert forall|i: int, z: Seq<char>|
        0 <= i < cs.len() && #[trigger] cs[i].0.vars().contains(z) implies known(env, z, c0, n0) by {
        lemma_known_wider(env, z, c, n, c0, n0);
    }
    assert forall|i: int, z: Seq<char>|
        0 <= i < cs.len() && #[trigger] cs[i].1.vars().contains(z) implies known(env, z, c0, n0) by {
        lemma_known_wider(env, z, c, n, c0, n0);
    }
}

/// Constraints of known variables put together are constraints of known
/// variables.
pub proof fn lemma_join_known(a: Seq<Constraint>, b: Seq<Constraint>, env: Seq<Entry>, c: nat, n: nat)
    requires
        constraints_known(a, env, c, n),
        constraints_known(b, env, c, n),
    ensures
        constraints_known(a + b, env, c, n),
{
    let all = a + b;
    assert forall|i: int, z: Seq<char>|
        0 <= i < all.len() && #[trigger] all[i].0.vars().contains(z) implies known(env, z, c, n) by {
        if i < a.len() {
            assert(a[i].0.vars().contains(z));
        } else {
            assert(b[i - a.len()].0.vars().contains(z));
        }
    }
    assert forall|i: int, z: Seq<char>|
        0 <= i < all.len() && #[trigger] all[i].1.vars().contains(z) implies known(env, z, c, n) by {
        if i < a.len() {
            assert(a[i].1.vars().contains(z));
        } else {
            assert(b[i - a.len()].1.vars().contains(z));
        }
    }
}

/// One constraint between types of known variables.
pub proof fn lemma_one_known(l: Ty, r: Ty, env: Seq<Entry>, c: nat, n: nat)
    requires
        type_known(l, env, c, n),
        type_known(r, env, c, n),
    ensures
        constraints_known(seq![(l, r)], env, c, n),
{
}

/// A base type has no variables.
pub proof fn lemma_base_known(t: Ty, env: Seq<Entry>, c: nat, n: nat)
    requires
        t is Int || t is Bool,
    ensures
        type_known(t, env, c, n),
{
}

/// A type variable made in the span is known.
pub proof fn lemma_fresh_known(k: nat, env: Seq<Entry>, c: nat, n: nat)
    requires
        c < k <= n,
    ensures
        type_known(Ty::Var(type_variable_name(k)), env, c, n),
{
    let t = Ty::Var(type_variable_name(k));
    assert forall|z: Seq<char>| #[trigger] t.vars().contains(z) implies known(env, z, c, n) by {
        assert(z == type_variable_name(k));
        assert(issued_between(z, c, n));
    }
}

/// The variables of a function type are those of its two sides.
pub proof fn lemma_arrow_known(i: Ty, o: Ty, env: Seq<Entry>, c: nat, n: nat)
    requires
        type_known(i, env, c, n),
        type_known(o, env, c, n),
    ensures
        type_known(Ty::Fn(Box::new(i), Box::new(o)), env, c, n),
{
    let t = Ty::Fn(Box::new(i), Box::new(o));
    assert forall|z: Seq<char>| #[trigger] t.vars().contains(z) implies known(env, z, c, n) by {
        assert(i.vars().contains(z) || o.vars().contains(z));
    }
}

/// A type whose variables are known with one more binding in the
/// environment, of a type variable made in the span.
pub proof fn lemma_known_under_parameter(
    env: Seq<Entry>,
    arg: Seq<char>,
    z: Seq<char>,
    c: nat,
    n: nat,
)
    requires
        c + 1 <= n,
        known(env_insert(env, arg, Binding::Mono(Ty::Var(type_variable_name(c + 1)))), z, c + 1, n),
    ensures
        known(env, z, c, n),
{
    let entry = Binding::Mono(Ty::Var(type_variable_name(c + 1)));
    let ext = env_insert(env, arg, entry);
    if env_free_vars(ext).contains(z) {
        lemma_insert_free(env, arg, entry, z);
        if crate::environment::free_vars(entry).contains(z) {
            lemma_free_vars_member(entry, z);
            assert(z == type_variable_name((c + 1) as nat));
            assert(issued_between(z, c, n));
        }
    } else {
        lemma_known_wider(ext, z, c + 1, n, c, n);
    }
}

/// What inference gives speaks of known variables only: of the free
/// variables of the environment and of the type variables that it made
/// itself, and it makes them after those that were made before.
pub proof fn lemma_infer_known(env: Seq<Entry>, e: Term, c: nat)
    requires
        inv(env, c),
        infer(env, e, c) is Ok,
    ensures
        c <= infer(env, e, c)->Ok_0.2,
        type_known(infer(env, e, c)->Ok_0.0, env, c, infer(env, e, c)->Ok_0.2),
        constraints_known(infer(env, e, c)->Ok_0.1, env, c, infer(env, e, c)->Ok_0.2),
    decreases e,
{
    let t = infer(env, e, c)->Ok_0.0;
    let cs = infer(env, e, c)->Ok_0.1;
    let n = infer(env, e, c)->Ok_0.2;
    match e {
        Term::Int(_) | Term::Bool(_) => {},
        Term::Var(x) => {
            lemma_lookup_is_entry(env, x);
            let b = env_lookup(env, x)->Some_0;
            match b {
                Binding::Mono(t0) => {
                    assert forall|z: Seq<char>| #[trigger] t.vars().contains(z) implies known(
                        env,
                        z,
                        c,
                        n,
                    ) by {
                        lemma_free_vars_member(b, z);
                        lemma_env_free_member(env, z);
                    }
                },
                Binding::Poly(p) => {
                    let fb = fresh_bonds(p.bound, c);
                    assert forall|z: Seq<char>| #[trigger] t.vars().contains(z) implies known(
                        env,
                        z,
                        c,
                        n,
                    ) by {
                        lemma_resolve_vars_unbound(p.body, fb, 0, z);
                        if range_has(fb, z) {
                            let i = choose|i: int| 0 <= i < fb.len() && (#[trigger] fb[i]).1.vars().contains(z);
                            assert(z == type_variable_name((c + i + 1) as nat));
                            assert(issued_between(z, c, n));
                        } else {
                            if p.bound.contains(z) {
                                let k = choose|k: int| 0 <= k < p.bound.len() && p.bound[k] == z;
                                assert(fb[k].0 == z);
                                lemma_find_from_none(fb, z, 0, k);
                            }
                            lemma_free_vars_member(b, z);
                            lemma_env_free_member(env, z);
                        }
                    }
                },
            }
        },
        Term::Bin { op, e1, e2 } => {
            lemma_inv_later(env, c, c + 1);
            lemma_infer_known(env, *e1, c + 1);
            let r1 = infer(env, *e1, c + 1)->Ok_0;
            lemma_inv_later(env, c, r1.2);
            lemma_infer_known(env, *e2, r1.2);
            let r2 = infer(env, *e2, r1.2)->Ok_0;
            let fresh = Ty::Var(type_variable_name(c + 1));
            lemma_fresh_known(c + 1, env, c, n);
            lemma_type_known_wider(r1.0, env, c + 1, r1.2, c, n);
            lemma_type_known_wider(r2.0, env, r1.2, r2.2, c, n);
            lemma_constraints_known_wider(r1.1, env, c + 1, r1.2, c, n);
            lemma_constraints_known_wider(r2.1, env, r1.2, r2.2, c, n);
            lemma_base_known(Ty::Int, env, c, n);
            lemma_base_known(result_type(op), env, c, n);
            lemma_one_known(r1.0, Ty::Int, env, c, n);
            lemma_one_known(r2.0, Ty::Int, env, c, n);
            lemma_one_known(fresh, result_type(op), env, c, n);
            lemma_join_known(r1.1, r2.1, env, c, n);
            lemma_join_known(seq![(r1.0, Ty::Int)], seq![(r2.0, Ty::Int)], env, c, n);
            lemma_join_known(
                seq![(r1.0, Ty::Int)] + seq![(r2.0, Ty::Int)],
                seq![(fresh, result_type(op))],
                env,
                c,
                n,
            );
            let extra = seq![(r1.0, Ty::Int), (r2.0, Ty::Int), (fresh, result_type(op))];
            assert(extra =~= seq![(r1.0, Ty::Int)] + seq![(r2.0, Ty::Int)] + seq![
                (fresh, result_type(op)),
            ]);
            lemma_join_known(r1.1 + r2.1, extra, env, c, n);
        },
        Term::If { guard, e1, e2 } => {
            lemma_inv_later(env, c, c + 1);
            lemma_infer_known(env, *guard, c + 1);
            let rg = infer(env, *guard, c + 1)->Ok_0;
            lemma_inv_later(env, c, rg.2);
            lemma_infer_known(env, *e1, rg.2);
            let r1 = infer(env, *e1, rg.2)->Ok_0;
            lemma_inv_later(env, c, r1.2);
            lemma_infer_known(env, *e2, r1.2);
            let r2 = infer(env, *e2, r1.2)->Ok_0;
            let fresh = Ty::Var(type_variable_name(c + 1));
            lemma_fresh_known(c + 1, env, c, n);
            lemma_type_known_wider(rg.0, env, c + 1, rg.2, c, n);
            lemma_type_known_wider(r1.0, env, rg.2, r1.2, c, n);
            lemma_type_known_wider(r2.0, env, r1.2, r2.2, c, n);
            lemma_constraints_known_wider(rg.1, env, c + 1, rg.2, c, n);
            lemma_constraints_known_wider(r1.1, env, rg.2, r1.2, c, n);
            lemma_constraints_known_wider(r2.1, env, r1.2, r2.2, c, n);
            lemma_base_known(Ty::Bool, env, c, n);
            lemma_one_known(rg.0, Ty::Bool, env, c, n);
            lemma_one_known(fresh, r1.0, env, c, n);
            lemma_one_known(fresh, r2.0, env, c, n);
            lemma_join_known(rg.1, r1.1, env, c, n);
            lemma_join_known(rg.1 + r1.1, r2.1, env, c, n);
            lemma_join_known(seq![(rg.0, Ty::Bool)], seq![(fresh, r1.0)], env, c, n);
            lemma_join_known(
                seq![(rg.0, Ty::Bool)] + seq![(fresh, r1.0)],
                seq![(fresh, r2.0)],
                env,
                c,
                n,
            );
            let extra = seq![(rg.0, Ty::Bool), (fresh, r1.0), (fresh, r2.0)];
            assert(extra =~= seq![(rg.0, Ty::Bool)] + seq![(fresh, r1.0)] + seq![(fresh, r2.0)]);
            lemma_join_known(rg.1 + r1.1 + r2.1, extra, env, c, n);
        },
        Term::Fn { arg, body } => {
            let fresh = Ty::Var(type_variable_name(c + 1));
            let ext = env_insert(env, arg, Binding::Mono(fresh));
            lemma_inv_parameter(env, arg, c);
            lemma_infer_known(ext, *body, c + 1);
            let r = infer(ext, *body, c + 1)->Ok_0;
            lemma_fresh_known(c + 1, env, c, n);
            assert forall|z: Seq<char>| #[trigger] r.0.vars().contains(z) implies known(env, z, c, n) by {
                lemma_known_under_parameter(env, arg, z, c, n);
            }
            lemma_arrow_known(fresh, r.0, env, c, n);
            assert forall|i: int, z: Seq<char>|
                0 <= i < cs.len() && #[trigger] cs[i].0.vars().contains(z) implies known(env, z, c, n) by {
                lemma_known_under_parameter(env, arg, z, c, n);
            }
            assert forall|i: int, z: Seq<char>|
                0 <= i < cs.len() && #[trigger] cs[i].1.vars().contains(z) implies known(env, z, c, n) by {
                lemma_known_under_parameter(env, arg, z, c, n);
            }
        },
        Term::Let { x, e1, e2 } => {
            lemma_infer_known(env, *e1, c);
            let r1 = infer(env, *e1, c)->Ok_0;
            let ext = generalize_spec(r1.1, env, x, r1.0)->Ok_0;
            lemma_inv_generalized(r1.1, env, x, r1.0, c, r1.2);
            lemma_infer_known(ext, *e2, r1.2);
            let r2 = infer(ext, *e2, r1.2)->Ok_0;
            assert forall|z: Seq<char>| known(ext, z, r1.2, n) implies known(env, z, c, n) by {
                if env_free_vars(ext).contains(z) {
                    lemma_generalized_free_known(r1.1, env, x, r1.0, c, r1.2, z);
                    lemma_known_wider(env, z, c, r1.2, c, n);
                } else {
                    let k = choose|k: nat| r1.2 < k <= n && z == #[trigger] type_variable_name(k);
                    assert(c < k <= n && z == type_variable_name(k));
                }
            }
            lemma_constraints_known_wider(r1.1, env, c, r1.2, c, n);
            assert(constraints_known(r2.1, env, c, n)) by {
                assert forall|i: int, z: Seq<char>|
                    0 <= i < r2.1.len() && #[trigger] r2.1[i].0.vars().contains(z) implies known(
                        env,
                        z,
                        c,
                        n,
                    ) by {
                    assert(known(ext, z, r1.2, n));
                }
                assert forall|i: int, z: Seq<char>|
                    0 <= i < r2.1.len() && #[trigger] r2.1[i].1.vars().contains(z) implies known(
                        env,
                        z,
                        c,
                        n,
                    ) by {
                    assert(known(ext, z, r1.2, n));
                }
            }
            lemma_join_known(r1.1, r2.1, env, c, n);
            assert forall|z: Seq<char>| #[trigger] t.vars().contains(z) implies known(env, z, c, n) by {
                assert(known(ext, z, r1.2, n));
            }
        },
        Term::Apply { func, arg } => {
            lemma_inv_later(env, c, c + 1);
            lemma_infer_known(env, *func, c + 1);
            let rf = infer(env, *func, c + 1)->Ok_0;
            lemma_inv_later(env, c, rf.2);
            lemma_infer_known(env, *arg, rf.2);
            let ra = infer(env, *arg, rf.2)->Ok_0;
            let fresh = Ty::Var(type_variable_name(c + 1));
            lemma_fresh_known(c + 1, env, c, n);
            lemma_type_known_wider(rf.0, env, c + 1, rf.2, c, n);
            lemma_type_known_wider(ra.0, env, rf.2, ra.2, c, n);
            lemma_constraints_known_wider(rf.1, env, c + 1, rf.2, c, n);
            lemma_constraints_known_wider(ra.1, env, rf.2, ra.2, c, n);
            lemma_arrow_known(ra.0, fresh, env, c, n);
            lemma_one_known(rf.0, Ty::Fn(Box::new(ra.0), Box::new(fresh)), env, c, n);
            lemma_join_known(rf.1, ra.1, env, c, n);
            lemma_join_known(
                rf.1 + ra.1,
                seq![(rf.0, Ty::Fn(Box::new(ra.0), Box::new(fresh)))],
                env,
                c,
                n,
            );
        },
    }
}

} // verus!

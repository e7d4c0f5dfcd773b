use vstd::prelude::*;
use crate::ast::Term;
use crate::closing::{
    close, closed, lemma_close_free_names, lemma_close_then_put, lemma_subst_closed, plain_subst,
};
use crate::environment::{env_insert, env_lookup, Entry};
use crate::evaluation::{lemma_run_gives_value, lemma_run_monotone};
use crate::freshness::{inv, lemma_inv_generalized, lemma_inv_later, lemma_inv_parameter};
use crate::inference::lemma_infer_known;
use crate::instances::{
    apply_sub, following, lemma_apply_agree, lemma_following_is_both, lemma_satisfies_parts,
    lemma_solution_satisfies, satisfies, Instance,
};
use crate::interpret::{
    apply_op, completes, outcome, run, run_apply, run_bin, run_if, run_let, Outcome,
};
use crate::relation::{
    agree_outside, at, call, ends, lands, lemma_function_call, lemma_function_value,
    lemma_models_generalized, lemma_models_parameter, lemma_resolve_unbound_var,
    lemma_value_closed, models, patched, value_of,
};
use crate::scopes::{binds, holds_entry, lemma_lookup_insert, lemma_lookup_resolved};
use crate::substitution::{free_names, subst_value};
use crate::typecheck::{
    fresh_bonds, generalize_spec, infer, resolve_env, result_type, type_of, type_variable_name,
};
use crate::types::{Binding, Ty};
use crate::unify::{resolve, unify_spec};

verus! {

/// An expression that has a type has its free variables in the environment.
pub proof fn lemma_infer_scoped(env: Seq<Entry>, e: Term, c: nat, x: Seq<char>)
    requires
        infer(env, e, c) is Ok,
        free_names(e).contains(x),
    ensures
        env_lookup(env, x) is Some,
    decreases e,
{
    match e {
        Term::Int(_) | Term::Bool(_) | Term::Var(_) => {},
        Term::Bin { op: _, e1, e2 } => {
            let r1 = infer(env, *e1, c + 1)->Ok_0;
            if free_names(*e1).contains(x) {
                lemma_infer_scoped(env, *e1, c + 1, x);
            } else {
                lemma_infer_scoped(env, *e2, r1.2, x);
            }
        },
        Term::If { guard, e1, e2 } => {
            let rg = infer(env, *guard, c + 1)->Ok_0;
            let r1 = infer(env, *e1, rg.2)->Ok_0;
            if free_names(*guard).contains(x) {
                lemma_infer_scoped(env, *guard, c + 1, x);
            } else if free_names(*e1).contains(x) {
                lemma_infer_scoped(env, *e1, rg.2, x);
            } else {
                lemma_infer_scoped(env, *e2, r1.2, x);
            }
        },
        Term::Fn { arg, body } => {
            let entry = Binding::Mono(Ty::Var(type_variable_name(c + 1)));
            lemma_infer_scoped(env_insert(env, arg, entry), *body, c + 1, x);
            lemma_lookup_insert(env, arg, entry, x);
        },
        Term::Let { x: y, e1, e2 } => {
            let r1 = infer(env, *e1, c)->Ok_0;
            if free_names(*e1).contains(x) {
                lemma_infer_scoped(env, *e1, c, x);
            } else {
                let ext = generalize_spec(r1.1, env, y, r1.0)->Ok_0;
                lemma_infer_scoped(ext, *e2, r1.2, x);
                let s = unify_spec(r1.1)->Ok_0;
                let env1 = resolve_env(env, s);
                let entry = crate::freshness::let_binding(env1, resolve(r1.0, s));
                assert(ext == env_insert(env1, y, entry));
                lemma_lookup_insert(env1, y, entry, x);
                lemma_lookup_resolved(env, s, x);
            }
        },
        Term::Apply { func, arg } => {
            let rf = infer(env, *func, c + 1)->Ok_0;
            if free_names(*func).contains(x) {
                lemma_infer_scoped(env, *func, c + 1, x);
            } else {
                lemma_infer_scoped(env, *arg, rf.2, x);
            }
        },
    }
}

/// Closing by a substitution that binds nothing changes nothing.
pub proof fn lemma_close_empty(e: Term, g: Map<Seq<char>, Term>)
    requires
        forall|x: Seq<char>| !g.contains_key(x),
    ensures
        close(e, g) == e,
    decreases e,
{
    match e {
        Term::Let { x, e1, e2 } => {
            lemma_close_empty(*e1, g);
            lemma_close_empty(*e2, g.remove(x));
        },
        Term::If { guard, e1, e2 } => {
            lemma_close_empty(*guard, g);
            lemma_close_empty(*e1, g);
            lemma_close_empty(*e2, g);
        },
        Term::Bin { op: _, e1, e2 } => {
            lemma_close_empty(*e1, g);
            lemma_close_empty(*e2, g);
        },
        Term::Fn { arg, body } => {
            lemma_close_empty(*body, g.remove(arg));
        },
        Term::Apply { func, arg } => {
            lemma_close_empty(*func, g);
            lemma_close_empty(*arg, g);
        },
        _ => {},
    }
}

/// A typed expression, closed by a substitution that models its
/// environment, is closed.
pub proof fn lemma_typed_closed(env: Seq<Entry>, e: Term, c: nat, g: Map<Seq<char>, Term>, sigma: Instance)
    requires
        infer(env, e, c) is Ok,
        models(g, env, sigma),
    ensures
        closed(close(e, g)),
{
    lemma_close_free_names(e, g);
    assert forall|x: Seq<char>| !free_names(close(e, g)).contains(x) by {
        if free_names(e).contains(x) {
            lemma_infer_scoped(env, e, c, x);
            assert(g.contains_key(x));
        }
    }
}

/// An expression that has a type by itself is closed.
pub proof fn lemma_typed_is_closed(e: Term, c0: nat)
    requires
        type_of(e, c0) is Ok,
    ensures
        closed(e),
{
    assert forall|x: Seq<char>| !free_names(e).contains(x) by {
        if free_names(e).contains(x) {
            lemma_infer_scoped(Seq::<Entry>::empty(), e, c0, x);
        }
    }
}

/// The greater of two numbers.
pub open spec fn greater(a: nat, b: nat) -> nat {
    if a <= b {
        b
    } else {
        a
    }
}

/// The heart of soundness: an expression that has a type in an environment,
/// closed by a substitution that models the environment, evaluates to an
/// end that its type allows, under every instance that satisfies its
/// constraints. The depth that is enough is the result.
pub proof fn lemma_sound(
    env: Seq<Entry>,
    e: Term,
    c0: nat,
    sigma: Instance,
    g: Map<Seq<char>, Term>,
    c: nat,
) -> (fuel: nat)
    requires
        inv(env, c0),
        infer(env, e, c0) is Ok,
        satisfies(sigma, infer(env, e, c0)->Ok_0.1),
        models(g, env, sigma),
    ensures
        lands(apply_sub(sigma, infer(env, e, c0)->Ok_0.0), run(fuel, close(e, g), c).0),
    decreases e, 1nat,
{
    match e {
        Term::Int(_) | Term::Bool(_) => 0,
        Term::Var(_) => lemma_sound_var(env, e, c0, sigma, g, c),
        Term::Bin { .. } => lemma_sound_bin(env, e, c0, sigma, g, c),
        Term::If { .. } => lemma_sound_if(env, e, c0, sigma, g, c),
        Term::Fn { .. } => lemma_sound_fn(env, e, c0, sigma, g, c),
        Term::Let { .. } => lemma_sound_let(env, e, c0, sigma, g, c),
        Term::Apply { .. } => lemma_sound_apply(env, e, c0, sigma, g, c),
    }
}

/// The case of a variable.
#[verifier::spinoff_prover]
pub proof fn lemma_sound_var(
    env: Seq<Entry>,
    e: Term,
    c0: nat,
    sigma: Instance,
    g: Map<Seq<char>, Term>,
    c: nat,
) -> (fuel: nat)
    requires
        inv(env, c0),
        infer(env, e, c0) is Ok,
        satisfies(sigma, infer(env, e, c0)->Ok_0.1),
        models(g, env, sigma),
        e is Var,
    ensures
        lands(apply_sub(sigma, infer(env, e, c0)->Ok_0.0), run(fuel, close(e, g), c).0),
    decreases e, 0nat,
{
    let x = e->Var_0;
    let b = env_lookup(env, x)->Some_0;
    assert(env_lookup(env, x) is Some);
    assert(g.contains_key(x));
    assert(closed(g[x]) && g[x].is_value());
    match b {
        Binding::Mono(_) => {},
        Binding::Poly(p) => {
            let fb = fresh_bonds(p.bound, c0);
            let inside = following(sigma, fb);
            let other = patched(inside, sigma, p.bound);
            assert forall|z: Seq<char>| !p.bound.contains(z) implies #[trigger] at(other, z) == at(
                sigma,
                z,
            ) by {}
            assert(agree_outside(other, sigma, p.bound));
            assert forall|z: Seq<char>| #[trigger] p.body.vars().contains(z) implies other(z)
                == inside(z) by {
                if !p.bound.contains(z) {
                    if binds(fb, z) {
                        let i = choose|i: int| 0 <= i < fb.len() && (#[trigger] fb[i]).0 == z;
                        assert(p.bound[i] == z);
                    }
                    lemma_resolve_unbound_var(z, fb);
                }
            }
            lemma_apply_agree(other, inside, p.body);
            lemma_following_is_both(sigma, fb, p.body);
        },
    }
    0
}

/// The case of a binary operation.
#[verifier::spinoff_prover]
pub proof fn lemma_sound_bin(
    env: Seq<Entry>,
    e: Term,
    c0: nat,
    sigma: Instance,
    g: Map<Seq<char>, Term>,
    c: nat,
) -> (fuel: nat)
    requires
        inv(env, c0),
        infer(env, e, c0) is Ok,
        satisfies(sigma, infer(env, e, c0)->Ok_0.1),
        models(g, env, sigma),
        e is Bin,
    ensures
        lands(apply_sub(sigma, infer(env, e, c0)->Ok_0.0), run(fuel, close(e, g), c).0),
    decreases e, 0nat,
{
    let t = infer(env, e, c0)->Ok_0.0;
    let whole = close(e, g);
    let op = e->Bin_op;
    let e1 = *e->Bin_e1;
    let e2 = *e->Bin_e2;
    let r1 = infer(env, e1, c0 + 1)->Ok_0;
    let r2 = infer(env, e2, r1.2)->Ok_0;
    let fresh = Ty::Var(type_variable_name(c0 + 1));
    let extra = seq![(r1.0, Ty::Int), (r2.0, Ty::Int), (fresh, result_type(op))];
    lemma_satisfies_parts(sigma, r1.1 + r2.1, extra);
    lemma_satisfies_parts(sigma, r1.1, r2.1);
    assert(apply_sub(sigma, extra[0].0) == apply_sub(sigma, extra[0].1));
    assert(apply_sub(sigma, extra[1].0) == apply_sub(sigma, extra[1].1));
    assert(apply_sub(sigma, extra[2].0) == apply_sub(sigma, extra[2].1));
    lemma_inv_later(env, c0, c0 + 1);
    lemma_infer_known(env, e1, c0 + 1);
    lemma_inv_later(env, c0, r1.2);
    let ce1 = close(e1, g);
    let ce2 = close(e2, g);
    assert(whole == Term::Bin { op, e1: Box::new(ce1), e2: Box::new(ce2) });
    assert(t == fresh);
    let f1 = lemma_sound(env, e1, c0 + 1, sigma, g, c);
    let (o1, c1) = run(f1, ce1, c);
    match o1 {
        Outcome::Gives(v1) => {
            let f2 = lemma_sound(env, e2, r1.2, sigma, g, c1);
            let top = greater(f1, f2);
            lemma_run_monotone(f1, top, ce1, c);
            lemma_run_monotone(f2, top, ce2, c1);
            let (o2, c2) = run(f2, ce2, c1);
            let step = run_bin(top, op, ce1, ce2, c);
            match o2 {
                Outcome::Gives(v2) => {
                    assert(v1 is Int && v2 is Int);
                    assert(step == (apply_op(op, v1->Int_0, v2->Int_0), c2));
                    if step.0 is Gives {
                        assert(step.0->Gives_0.is_value());
                        assert(value_of(result_type(op), step.0->Gives_0));
                    }
                    assert(run(top + 1, whole, c) == step);
                },
                _ => {
                    assert(step == (o2, c2));
                    assert(run(top + 1, whole, c) == step);
                },
            }
            top + 1
        },
        _ => {
            let step = run_bin(f1, op, ce1, ce2, c);
            assert(step == (o1, c1));
            assert(run(f1 + 1, whole, c) == step);
            f1 + 1
        },
    }
}

/// The case of a conditional.
#[verifier::spinoff_prover]
pub proof fn lemma_sound_if(
    env: Seq<Entry>,
    e: Term,
    c0: nat,
    sigma: Instance,
    g: Map<Seq<char>, Term>,
    c: nat,
) -> (fuel: nat)
    requires
        inv(env, c0),
        infer(env, e, c0) is Ok,
        satisfies(sigma, infer(env, e, c0)->Ok_0.1),
        models(g, env, sigma),
        e is If,
    ensures
        lands(apply_sub(sigma, infer(env, e, c0)->Ok_0.0), run(fuel, close(e, g), c).0),
    decreases e, 0nat,
{
    let t = infer(env, e, c0)->Ok_0.0;
    let whole = close(e, g);
    let guard = *e->If_guard;
    let e1 = *e->If_e1;
    let e2 = *e->If_e2;
    let rg = infer(env, guard, c0 + 1)->Ok_0;
    let r1 = infer(env, e1, rg.2)->Ok_0;
    let r2 = infer(env, e2, r1.2)->Ok_0;
    let fresh = Ty::Var(type_variable_name(c0 + 1));
    let extra = seq![(rg.0, Ty::Bool), (fresh, r1.0), (fresh, r2.0)];
    lemma_satisfies_parts(sigma, rg.1 + r1.1 + r2.1, extra);
    lemma_satisfies_parts(sigma, rg.1 + r1.1, r2.1);
    lemma_satisfies_parts(sigma, rg.1, r1.1);
    assert(apply_sub(sigma, extra[0].0) == apply_sub(sigma, extra[0].1));
    assert(apply_sub(sigma, extra[1].0) == apply_sub(sigma, extra[1].1));
    assert(apply_sub(sigma, extra[2].0) == apply_sub(sigma, extra[2].1));
    lemma_inv_later(env, c0, c0 + 1);
    lemma_infer_known(env, guard, c0 + 1);
    lemma_inv_later(env, c0, rg.2);
    lemma_infer_known(env, e1, rg.2);
    lemma_inv_later(env, c0, r1.2);
    let cgd = close(guard, g);
    let ce1 = close(e1, g);
    let ce2 = close(e2, g);
    assert(whole == Term::If { guard: Box::new(cgd), e1: Box::new(ce1), e2: Box::new(ce2) });
    assert(t == fresh);
    let fg = lemma_sound(env, guard, c0 + 1, sigma, g, c);
    let (og, cg) = run(fg, cgd, c);
    match og {
        Outcome::Gives(gv) => {
            assert(gv is Bool);
            let b = gv->Bool_0;
            let fb = if b {
                lemma_sound(env, e1, rg.2, sigma, g, cg)
            } else {
                lemma_sound(env, e2, r1.2, sigma, g, cg)
            };
            let taken = if b {
                ce1
            } else {
                ce2
            };
            let top = greater(fg, fb);
            lemma_run_monotone(fg, top, cgd, c);
            lemma_run_monotone(fb, top, taken, cg);
            lemma_run_gives_value(top, taken, cg);
            let step = run_if(top, cgd, ce1, ce2, c);
            assert(step == run(top, taken, cg));
            assert(run(top + 1, whole, c) == step);
            top + 1
        },
        _ => {
            let step = run_if(fg, cgd, ce1, ce2, c);
            assert(step == (og, cg));
            assert(run(fg + 1, whole, c) == step);
            fg + 1
        },
    }
}

/// The case of a function.
#[verifier::spinoff_prover]
pub proof fn lemma_sound_fn(
    env: Seq<Entry>,
    e: Term,
    c0: nat,
    sigma: Instance,
    g: Map<Seq<char>, Term>,
    c: nat,
) -> (fuel: nat)
    requires
        inv(env, c0),
        infer(env, e, c0) is Ok,
        satisfies(sigma, infer(env, e, c0)->Ok_0.1),
        models(g, env, sigma),
        e is Fn,
    ensures
        lands(apply_sub(sigma, infer(env, e, c0)->Ok_0.0), run(fuel, close(e, g), c).0),
    decreases e, 0nat,
{
    let whole = close(e, g);
    let arg = e->Fn_arg;
    let body = *e->Fn_body;
    let fresh = Ty::Var(type_variable_name(c0 + 1));
    let ext = env_insert(env, arg, Binding::Mono(fresh));
    let r = infer(ext, body, c0 + 1)->Ok_0;
    let a = apply_sub(sigma, fresh);
    let b = apply_sub(sigma, r.0);
    lemma_inv_parameter(env, arg, c0);
    lemma_typed_closed(env, e, c0, g, sigma);
    let inner = close(body, g.remove(arg));
    assert(whole == Term::Fn { arg, body: Box::new(inner) });
    assert forall|w: Term, c2: nat| value_of(a, w) implies {
        &&& (#[trigger] call(whole, w, c2)).1 == c2
        &&& exists|fuel2: nat| lands(b, (#[trigger] run(fuel2, call(whole, w, c2).0, c2)).0)
    } by {
        lemma_value_closed(a, w);
        lemma_close_then_put(body, g, w, arg);
        lemma_models_parameter(g, env, sigma, arg, fresh, w);
        let fuel2 = lemma_sound(ext, body, c0 + 1, sigma, g.insert(arg, w), c2);
        assert(call(whole, w, c2) == (close(body, g.insert(arg, w)), c2));
        assert(lands(b, run(fuel2, call(whole, w, c2).0, c2).0));
    }
    lemma_function_value(a, b, whole);
    assert(value_of(Ty::Fn(Box::new(a), Box::new(b)), whole));
    0
}

/// The case of a `let`.
#[verifier::spinoff_prover]
pub proof fn lemma_sound_let(
    env: Seq<Entry>,
    e: Term,
    c0: nat,
    sigma: Instance,
    g: Map<Seq<char>, Term>,
    c: nat,
) -> (fuel: nat)
    requires
        inv(env, c0),
        infer(env, e, c0) is Ok,
        satisfies(sigma, infer(env, e, c0)->Ok_0.1),
        models(g, env, sigma),
        e is Let,
    ensures
        lands(apply_sub(sigma, infer(env, e, c0)->Ok_0.0), run(fuel, close(e, g), c).0),
    decreases e, 0nat,
{
    let t = infer(env, e, c0)->Ok_0.0;
    let whole = close(e, g);
    let x = e->Let_x;
    let e1 = *e->Let_e1;
    let e2 = *e->Let_e2;
    let r1 = infer(env, e1, c0)->Ok_0;
    let ext = generalize_spec(r1.1, env, x, r1.0)->Ok_0;
    let r2 = infer(ext, e2, r1.2)->Ok_0;
    lemma_satisfies_parts(sigma, r1.1, r2.1);
    lemma_infer_known(env, e1, c0);
    lemma_inv_generalized(r1.1, env, x, r1.0, c0, r1.2);
    let ce1 = close(e1, g);
    let ce2 = close(e2, g.remove(x));
    assert(whole == Term::Let { x, e1: Box::new(ce1), e2: Box::new(ce2) });
    assert(t == r2.0);
    let f1 = lemma_sound(env, e1, c0, sigma, g, c);
    let (o1, c1) = run(f1, ce1, c);
    match o1 {
        Outcome::Gives(v1) => {
            lemma_value_closed(apply_sub(sigma, r1.0), v1);
            assert forall|any: Instance| #[trigger]
                satisfies(any, r1.1) && models(g, env, any) implies value_of(
                apply_sub(any, r1.0),
                v1,
            ) by {
                let fa = lemma_sound(env, e1, c0, any, g, c);
                let top = greater(f1, fa);
                lemma_run_monotone(f1, top, ce1, c);
                lemma_run_monotone(fa, top, ce1, c);
            }
            lemma_models_generalized(g, env, sigma, r1.1, x, r1.0, v1, c0, r1.2);
            lemma_subst_closed(ce2, v1, x, c1);
            lemma_close_then_put(e2, g, v1, x);
            let next = close(e2, g.insert(x, v1));
            assert(subst_value(ce2, v1, x, c1) == (next, c1));
            let f2 = lemma_sound(ext, e2, r1.2, sigma, g.insert(x, v1), c1);
            let top = greater(f1, f2);
            lemma_run_monotone(f1, top, ce1, c);
            lemma_run_monotone(f2, top, next, c1);
            lemma_run_gives_value(top, next, c1);
            let step = run_let(top, x, ce1, ce2, c);
            assert(step == run(top, next, c1));
            assert(run(top + 1, whole, c) == step);
            top + 1
        },
        _ => {
            let step = run_let(f1, x, ce1, ce2, c);
            assert(step == (o1, c1));
            assert(run(f1 + 1, whole, c) == step);
            f1 + 1
        },
    }
}

/// The case of an application.
#[verifier::spinoff_prover]
pub proof fn lemma_sound_apply(
    env: Seq<Entry>,
    e: Term,
    c0: nat,
    sigma: Instance,
    g: Map<Seq<char>, Term>,
    c: nat,
) -> (fuel: nat)
    requires
        inv(env, c0),
        infer(env, e, c0) is Ok,
        satisfies(sigma, infer(env, e, c0)->Ok_0.1),
        models(g, env, sigma),
        e is Apply,
    ensures
        lands(apply_sub(sigma, infer(env, e, c0)->Ok_0.0), run(fuel, close(e, g), c).0),
    decreases e, 0nat,
{
    let t = infer(env, e, c0)->Ok_0.0;
    let whole = close(e, g);
    let func = *e->Apply_func;
    let arg = *e->Apply_arg;
    let rf = infer(env, func, c0 + 1)->Ok_0;
    let ra = infer(env, arg, rf.2)->Ok_0;
    let fresh = Ty::Var(type_variable_name(c0 + 1));
    let extra = seq![(rf.0, Ty::Fn(Box::new(ra.0), Box::new(fresh)))];
    lemma_satisfies_parts(sigma, rf.1 + ra.1, extra);
    lemma_satisfies_parts(sigma, rf.1, ra.1);
    assert(apply_sub(sigma, extra[0].0) == apply_sub(sigma, extra[0].1));
    lemma_inv_later(env, c0, c0 + 1);
    lemma_infer_known(env, func, c0 + 1);
    lemma_inv_later(env, c0, rf.2);
    let cfn = close(func, g);
    let carg = close(arg, g);
    assert(whole == Term::Apply { func: Box::new(cfn), arg: Box::new(carg) });
    assert(t == fresh);
    let ta = apply_sub(sigma, ra.0);
    let tr = apply_sub(sigma, fresh);
    assert(apply_sub(sigma, rf.0) == Ty::Fn(Box::new(ta), Box::new(tr)));
    let ff = lemma_sound(env, func, c0 + 1, sigma, g, c);
    let (of, cf) = run(ff, cfn, c);
    match of {
        Outcome::Gives(fv) => {
            let fa = lemma_sound(env, arg, rf.2, sigma, g, cf);
            let (oa, ca) = run(fa, carg, cf);
            match oa {
                Outcome::Gives(av) => {
                    assert(value_of(Ty::Fn(Box::new(ta), Box::new(tr)), fv));
                    assert(value_of(ta, av));
                    lemma_value_closed(ta, av);
                    assert(fv is Fn);
                    let body = *fv->Fn_body;
                    let param = fv->Fn_arg;
                    lemma_subst_closed(body, av, param, ca);
                    let next = plain_subst(body, av, param);
                    assert(call(fv, av, ca) == (next, ca));
                    let fb = lemma_function_call(ta, tr, fv, av, ca);
                    assert(lands(tr, run(fb, next, ca).0));
                    let top = greater(greater(ff, fa), fb);
                    lemma_run_monotone(ff, top, cfn, c);
                    lemma_run_monotone(fa, top, carg, cf);
                    lemma_run_monotone(fb, top, next, ca);
                    let step = run_apply(top, cfn, carg, c);
                    assert(step == (Outcome::Gives(next), ca));
                    if next.is_value() {
                        assert(run(top, next, ca).0 == Outcome::Gives(next));
                        assert(run(top + 1, whole, c) == step);
                    } else {
                        assert(run(top + 1, whole, c) == run(top, next, ca));
                    }
                    top + 1
                },
                _ => {
                    let top = greater(ff, fa);
                    lemma_run_monotone(ff, top, cfn, c);
                    lemma_run_monotone(fa, top, carg, cf);
                    let step = run_apply(top, cfn, carg, c);
                    assert(step == (oa, ca));
                    assert(run(top + 1, whole, c) == step);
                    top + 1
                },
            }
        },
        _ => {
            let step = run_apply(ff, cfn, carg, c);
            assert(step == (of, cf));
            assert(run(ff + 1, whole, c) == step);
            ff + 1
        },
    }
}

/// Soundness of the type checker: the evaluation of a closed expression
/// that has a type comes to an end, with a value of the type, whatever its
/// type variables stand for, or at an overflow. It does not go on for ever,
/// and it does not stop at an unbound variable, at a guard that is no
/// boolean, at an operand that is no integer or at a callee that is no
/// function.
pub proof fn lemma_type_soundness(e: Term, c0: nat, sigma: Instance, c: nat)
    requires
        type_of(e, c0) is Ok,
    ensures
        ends(apply_sub(sigma, type_of(e, c0)->Ok_0), e, c),
{
    let env = Seq::<Entry>::empty();
    let r = infer(env, e, c0)->Ok_0;
    let s = unify_spec(r.1)->Ok_0;
    let g = Map::<Seq<char>, Term>::empty();
    let next = following(sigma, s);
    lemma_solution_satisfies(sigma, r.1);
    assert(inv(env, c0)) by {
        assert forall|b: Binding| !holds_entry(env, b) by {}
    }
    assert(models(g, env, next));
    let fuel = lemma_sound(env, e, c0, next, g, c);
    lemma_close_empty(e, g);
    lemma_following_is_both(sigma, s, r.0);
    assert(lands(apply_sub(sigma, type_of(e, c0)->Ok_0), run(fuel, e, c).0));
}

/// The evaluation of the expression comes to an overflow.
pub open spec fn overflows(e: Term, c: nat) -> bool {
    exists|fuel: nat| (#[trigger] run(fuel, e, c)).0 is Overflow
}

/// At whatever depth the evaluation of a typed expression is cut off, it
/// has ended as its type allows or has reached the bound.
pub proof fn lemma_sound_at_every_depth(e: Term, c0: nat, sigma: Instance, fuel: nat, c: nat)
    requires
        type_of(e, c0) is Ok,
    ensures
        run(fuel, e, c).0 is OutOfFuel || lands(
            apply_sub(sigma, type_of(e, c0)->Ok_0),
            run(fuel, e, c).0,
        ),
{
    lemma_type_soundness(e, c0, sigma, c);
    let t = apply_sub(sigma, type_of(e, c0)->Ok_0);
    let k = choose|k: nat| lands(t, (#[trigger] run(k, e, c)).0);
    if !(run(fuel, e, c).0 is OutOfFuel) {
        let top = greater(k, fuel);
        lemma_run_monotone(k, top, e, c);
        lemma_run_monotone(fuel, top, e, c);
    }
}

/// Type soundness for the evaluator: a closed expression that has a type
/// and does not overflow meets what the evaluator asks for, and what the
/// evaluator returns for it is a value: an integer where the type is `Int`,
/// a boolean where it is `Bool`, a function where it is a function type.
pub proof fn lemma_typed_outcome(e: Term, c0: nat, c: nat)
    requires
        type_of(e, c0) is Ok,
        !overflows(e, c),
    ensures
        completes(e, c),
        outcome(e, c).0 is Gives,
        outcome(e, c).0->Gives_0.is_value(),
        type_of(e, c0)->Ok_0 is Int ==> outcome(e, c).0->Gives_0 is Int,
        type_of(e, c0)->Ok_0 is Bool ==> outcome(e, c).0->Gives_0 is Bool,
        type_of(e, c0)->Ok_0 is Fn ==> outcome(e, c).0->Gives_0 is Fn,
{
    let sigma: Instance = |z: Seq<char>| Ty::Int;
    let t = apply_sub(sigma, type_of(e, c0)->Ok_0);
    lemma_type_soundness(e, c0, sigma, c);
    let k = choose|k: nat| lands(t, (#[trigger] run(k, e, c)).0);
    assert(!(run(k, e, c).0 is Overflow));
    crate::evaluation::lemma_outcome_is_run(k, e, c);
    lemma_value_closed(t, run(k, e, c).0->Gives_0);
}

} // verus!

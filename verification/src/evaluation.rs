use vstd::prelude::*;
use crate::ast::{BinOp, Term};
use crate::interpret::{
    completes, enough_fuel, finishes, outcome, run, run_apply, run_bin, run_if, run_let, Outcome,
};
use crate::closing::{closed, lemma_plain_subst_free_names, lemma_subst_closed, plain_subst};
use crate::substitution::{free_names, subst_value};

verus! {

/// What an evaluation gives is a value.
pub proof fn lemma_run_gives_value(fuel: nat, e: Term, c: nat)
    ensures
        run(fuel, e, c).0 is Gives ==> run(fuel, e, c).0->Gives_0.is_value(),
    decreases fuel,
{
    match e {
        Term::Int(_) | Term::Bool(_) | Term::Fn { .. } | Term::Var(_) => {},
        _ => {
            if fuel > 0 {
                let f = (fuel - 1) as nat;
                let (o, n) = match e {
                    Term::Let { x, e1, e2 } => run_let(f, x, *e1, *e2, c),
                    Term::If { guard, e1, e2 } => run_if(f, *guard, *e1, *e2, c),
                    Term::Bin { op, e1, e2 } => run_bin(f, op, *e1, *e2, c),
                    Term::Apply { func, arg } => run_apply(f, *func, *arg, c),
                    _ => (Outcome::Stuck, c),
                };
                match o {
                    Outcome::Gives(r) => {
                        if !r.is_value() {
                            lemma_run_gives_value(f, r, n);
                        }
                    },
                    _ => {},
                }
            }
        },
    }
}

/// More depth changes nothing: an evaluation that did not stop at the bound
/// ends in the same way at every greater bound.
pub proof fn lemma_run_monotone(f1: nat, f2: nat, e: Term, c: nat)
    requires
        f1 <= f2,
        !(run(f1, e, c).0 is OutOfFuel),
    ensures
        run(f2, e, c) == run(f1, e, c),
    decreases f1, 0nat,
{
    match e {
        Term::Int(_) | Term::Bool(_) | Term::Fn { .. } | Term::Var(_) => {},
        _ => {
            let g1 = (f1 - 1) as nat;
            let g2 = (f2 - 1) as nat;
            match e {
                Term::Let { x, e1, e2 } => lemma_let_monotone(g1, g2, x, *e1, *e2, c),
                Term::If { guard, e1, e2 } => lemma_if_monotone(g1, g2, *guard, *e1, *e2, c),
                Term::Bin { op, e1, e2 } => lemma_bin_monotone(g1, g2, op, *e1, *e2, c),
                Term::Apply { func, arg } => lemma_apply_monotone(g1, g2, *func, *arg, c),
                _ => {},
            }
            let (o, n) = match e {
                Term::Let { x, e1, e2 } => run_let(g1, x, *e1, *e2, c),
                Term::If { guard, e1, e2 } => run_if(g1, *guard, *e1, *e2, c),
                Term::Bin { op, e1, e2 } => run_bin(g1, op, *e1, *e2, c),
                Term::Apply { func, arg } => run_apply(g1, *func, *arg, c),
                _ => (Outcome::Stuck, c),
            };
            match o {
                Outcome::Gives(r) => {
                    if !r.is_value() {
                        lemma_run_monotone(g1, g2, r, n);
                    }
                },
                _ => {},
            }
        },
    }
}

/// The same of a `let`.
pub proof fn lemma_let_monotone(f1: nat, f2: nat, x: Seq<char>, e1: Term, e2: Term, c: nat)
    requires
        f1 <= f2,
        !(run_let(f1, x, e1, e2, c).0 is OutOfFuel),
    ensures
        run_let(f2, x, e1, e2, c) == run_let(f1, x, e1, e2, c),
    decreases f1, 1nat,
{
    lemma_run_monotone(f1, f2, e1, c);
    let (o1, c1) = run(f1, e1, c);
    match o1 {
        Outcome::Gives(v1) => {
            let (e, c2) = subst_value(e2, v1, x, c1);
            lemma_run_monotone(f1, f2, e, c2);
        },
        _ => {},
    }
}

/// The same of a conditional.
pub proof fn lemma_if_monotone(f1: nat, f2: nat, guard: Term, e1: Term, e2: Term, c: nat)
    requires
        f1 <= f2,
        !(run_if(f1, guard, e1, e2, c).0 is OutOfFuel),
    ensures
        run_if(f2, guard, e1, e2, c) == run_if(f1, guard, e1, e2, c),
    decreases f1, 1nat,
{
    lemma_run_monotone(f1, f2, guard, c);
    let (og, cg) = run(f1, guard, c);
    match og {
        Outcome::Gives(Term::Bool(b)) => {
            if b {
                lemma_run_monotone(f1, f2, e1, cg);
            } else {
                lemma_run_monotone(f1, f2, e2, cg);
            }
        },
        _ => {},
    }
}

/// The same of a binary operation.
pub proof fn lemma_bin_monotone(f1: nat, f2: nat, op: BinOp, e1: Term, e2: Term, c: nat)
    requires
        f1 <= f2,
        !(run_bin(f1, op, e1, e2, c).0 is OutOfFuel),
    ensures
        run_bin(f2, op, e1, e2, c) == run_bin(f1, op, e1, e2, c),
    decreases f1, 1nat,
{
    lemma_run_monotone(f1, f2, e1, c);
    let (o1, c1) = run(f1, e1, c);
    match o1 {
        Outcome::Gives(_) => {
            lemma_run_monotone(f1, f2, e2, c1);
        },
        _ => {},
    }
}

/// The same of an application.
pub proof fn lemma_apply_monotone(f1: nat, f2: nat, func: Term, arg: Term, c: nat)
    requires
        f1 <= f2,
        !(run_apply(f1, func, arg, c).0 is OutOfFuel),
    ensures
        run_apply(f2, func, arg, c) == run_apply(f1, func, arg, c),
    decreases f1, 1nat,
{
    lemma_run_monotone(f1, f2, func, c);
    let (of, cf) = run(f1, func, c);
    match of {
        Outcome::Gives(_) => {
            lemma_run_monotone(f1, f2, arg, cf);
        },
        _ => {},
    }
}

/// An evaluation has one end: what it comes to at one depth at which it
/// ends of its own is what it comes to.
pub proof fn lemma_outcome_is_run(fuel: nat, e: Term, c: nat)
    requires
        finishes(run(fuel, e, c).0),
    ensures
        completes(e, c),
        outcome(e, c) == run(fuel, e, c),
{
    let k = enough_fuel(e, c);
    assert(finishes(run(k, e, c).0));
    if k <= fuel {
        lemma_run_monotone(k, fuel, e, c);
    } else {
        lemma_run_monotone(fuel, k, e, c);
    }
}

/// Of a conditional only the guard and the branch that it chooses are
/// evaluated: where the guard gives `b`, the conditional ends as that branch
/// does, whatever the other branch is.
pub proof fn lemma_if_takes_one_branch(guard: Term, e1: Term, e2: Term, b: bool, c: nat)
    requires
        completes(guard, c),
        outcome(guard, c).0 == Outcome::Gives(Term::Bool(b)),
        completes(if b { e1 } else { e2 }, outcome(guard, c).1),
    ensures
        completes(Term::If { guard: Box::new(guard), e1: Box::new(e1), e2: Box::new(e2) }, c),
        outcome(Term::If { guard: Box::new(guard), e1: Box::new(e1), e2: Box::new(e2) }, c)
            == outcome(if b { e1 } else { e2 }, outcome(guard, c).1),
{
    let cg = outcome(guard, c).1;
    let taken = if b { e1 } else { e2 };
    let fg = enough_fuel(guard, c);
    let ft = enough_fuel(taken, cg);
    let f = if fg <= ft { ft } else { fg };
    lemma_run_monotone(fg, f, guard, c);
    lemma_run_monotone(ft, f, taken, cg);
    lemma_run_gives_value(f, taken, cg);
    let whole = Term::If { guard: Box::new(guard), e1: Box::new(e1), e2: Box::new(e2) };
    assert(run_if(f, guard, e1, e2, c) == run(f, taken, cg));
    assert(run(f + 1, whole, c) == run(f, taken, cg));
    lemma_outcome_is_run(f + 1, whole, c);
}

/// A program that is a value is its own result, by however many names the
/// evaluator has made.
pub proof fn lemma_value_is_its_result(e: Term, c: nat)
    requires
        e.is_value(),
    ensures
        completes(e, c),
        outcome(e, c) == (Outcome::Gives(e), c),
{
    lemma_outcome_is_run(0, e, c);
}

/// The evaluation of a closed term renames nothing: the evaluator makes no
/// name, the end does not depend on how many names it has made, and what it
/// gives is closed.
pub proof fn lemma_closed_run(fuel: nat, e: Term, c: nat)
    requires
        closed(e),
    ensures
        run(fuel, e, c).1 == c,
        run(fuel, e, c).0 == run(fuel, e, 0).0,
        run(fuel, e, c).0 is Gives ==> closed(run(fuel, e, c).0->Gives_0),
    decreases fuel, 0nat,
{
    match e {
        Term::Int(_) | Term::Bool(_) | Term::Fn { .. } => {},
        Term::Var(x) => {
            assert(free_names(e).contains(x));
        },
        _ => {
            if fuel > 0 {
                let f = (fuel - 1) as nat;
                match e {
                    Term::Let { x, e1, e2 } => {
                        lemma_closed_let(f, x, *e1, *e2, c);
                        lemma_closed_let(f, x, *e1, *e2, 0);
                    },
                    Term::If { guard, e1, e2 } => {
                        lemma_closed_if(f, *guard, *e1, *e2, c);
                        lemma_closed_if(f, *guard, *e1, *e2, 0);
                    },
                    Term::Bin { op, e1, e2 } => {
                        lemma_closed_bin(f, op, *e1, *e2, c);
                        lemma_closed_bin(f, op, *e1, *e2, 0);
                    },
                    Term::Apply { func, arg } => {
                        lemma_closed_apply(f, *func, *arg, c);
                        lemma_closed_apply(f, *func, *arg, 0);
                    },
                    _ => {},
                }
                let (o, n) = match e {
                    Term::Let { x, e1, e2 } => run_let(f, x, *e1, *e2, c),
                    Term::If { guard, e1, e2 } => run_if(f, *guard, *e1, *e2, c),
                    Term::Bin { op, e1, e2 } => run_bin(f, op, *e1, *e2, c),
                    Term::Apply { func, arg } => run_apply(f, *func, *arg, c),
                    _ => (Outcome::Stuck, c),
                };
                match o {
                    Outcome::Gives(r) => {
                        if !r.is_value() {
                            lemma_closed_run(f, r, c);
                            lemma_closed_run(f, r, 0);
                        }
                    },
                    _ => {},
                }
            }
        },
    }
}

/// The same of a `let` whose bound expression is closed and whose body has
/// no free variable but the bound one.
pub proof fn lemma_closed_let(fuel: nat, x: Seq<char>, e1: Term, e2: Term, c: nat)
    requires
        closed(Term::Let { x, e1: Box::new(e1), e2: Box::new(e2) }),
    ensures
        run_let(fuel, x, e1, e2, c).1 == c,
        run_let(fuel, x, e1, e2, c).0 == run_let(fuel, x, e1, e2, 0).0,
        run_let(fuel, x, e1, e2, c).0 is Gives ==> closed(run_let(fuel, x, e1, e2, c).0->Gives_0),
    decreases fuel, 1nat,
{
    let whole = Term::Let { x, e1: Box::new(e1), e2: Box::new(e2) };
    assert forall|y: Seq<char>| !free_names(e1).contains(y) by {
        assert(!free_names(whole).contains(y));
    }
    lemma_closed_run(fuel, e1, c);
    lemma_closed_run(fuel, e1, 0);
    match run(fuel, e1, c).0 {
        Outcome::Gives(v1) => {
            lemma_subst_closed(e2, v1, x, c);
            lemma_subst_closed(e2, v1, x, 0);
            lemma_plain_subst_free_names(e2, v1, x);
            let next = plain_subst(e2, v1, x);
            assert forall|y: Seq<char>| !free_names(next).contains(y) by {
                assert(!free_names(whole).contains(y));
            }
            lemma_closed_run(fuel, next, c);
            lemma_closed_run(fuel, next, 0);
        },
        _ => {},
    }
}

/// The same of a conditional.
pub proof fn lemma_closed_if(fuel: nat, guard: Term, e1: Term, e2: Term, c: nat)
    requires
        closed(Term::If { guard: Box::new(guard), e1: Box::new(e1), e2: Box::new(e2) }),
    ensures
        run_if(fuel, guard, e1, e2, c).1 == c,
        run_if(fuel, guard, e1, e2, c).0 == run_if(fuel, guard, e1, e2, 0).0,
        run_if(fuel, guard, e1, e2, c).0 is Gives ==> closed(
            run_if(fuel, guard, e1, e2, c).0->Gives_0,
        ),
    decreases fuel, 1nat,
{
    let whole = Term::If { guard: Box::new(guard), e1: Box::new(e1), e2: Box::new(e2) };
    assert forall|y: Seq<char>|
        !free_names(guard).contains(y) && !free_names(e1).contains(y) && !free_names(e2).contains(
            y,
        ) by {
        assert(!free_names(whole).contains(y));
    }
    lemma_closed_run(fuel, guard, c);
    lemma_closed_run(fuel, guard, 0);
    lemma_closed_run(fuel, e1, c);
    lemma_closed_run(fuel, e1, 0);
    lemma_closed_run(fuel, e2, c);
    lemma_closed_run(fuel, e2, 0);
}

/// The same of a binary operation.
pub proof fn lemma_closed_bin(fuel: nat, op: BinOp, e1: Term, e2: Term, c: nat)
    requires
        closed(Term::Bin { op, e1: Box::new(e1), e2: Box::new(e2) }),
    ensures
        run_bin(fuel, op, e1, e2, c).1 == c,
        run_bin(fuel, op, e1, e2, c).0 == run_bin(fuel, op, e1, e2, 0).0,
        run_bin(fuel, op, e1, e2, c).0 is Gives ==> closed(run_bin(fuel, op, e1, e2, c).0->Gives_0),
    decreases fuel, 1nat,
{
    let whole = Term::Bin { op, e1: Box::new(e1), e2: Box::new(e2) };
    assert forall|y: Seq<char>| !free_names(e1).contains(y) && !free_names(e2).contains(y) by {
        assert(!free_names(whole).contains(y));
    }
    lemma_closed_run(fuel, e1, c);
    lemma_closed_run(fuel, e1, 0);
    lemma_closed_run(fuel, e2, c);
    lemma_closed_run(fuel, e2, 0);
}

/// The same of an application.
pub proof fn lemma_closed_apply(fuel: nat, func: Term, arg: Term, c: nat)
    requires
        closed(Term::Apply { func: Box::new(func), arg: Box::new(arg) }),
    ensures
        run_apply(fuel, func, arg, c).1 == c,
        run_apply(fuel, func, arg, c).0 == run_apply(fuel, func, arg, 0).0,
        run_apply(fuel, func, arg, c).0 is Gives ==> closed(run_apply(fuel, func, arg, c).0->Gives_0),
    decreases fuel, 1nat,
{
    let whole = Term::Apply { func: Box::new(func), arg: Box::new(arg) };
    assert forall|y: Seq<char>| !free_names(func).contains(y) && !free_names(arg).contains(y) by {
        assert(!free_names(whole).contains(y));
    }
    lemma_closed_run(fuel, func, c);
    lemma_closed_run(fuel, func, 0);
    lemma_closed_run(fuel, arg, c);
    lemma_closed_run(fuel, arg, 0);
    match (run(fuel, func, c).0, run(fuel, arg, c).0) {
        (Outcome::Gives(fv), Outcome::Gives(av)) => {
            match fv {
                Term::Fn { arg: x, body } => {
                    lemma_subst_closed(*body, av, x, c);
                    lemma_subst_closed(*body, av, x, 0);
                    lemma_plain_subst_free_names(*body, av, x);
                    let next = plain_subst(*body, av, x);
                    assert forall|y: Seq<char>| !free_names(next).contains(y) by {
                        assert(!free_names(fv).contains(y));
                    }
                },
                _ => {},
            }
        },
        _ => {},
    }
}

/// The result of a closed program does not depend on the names that the
/// evaluator would take: evaluators that have made different numbers of
/// names come to the same end, and neither makes a name.
pub proof fn lemma_closed_outcome(e: Term, c: nat, d: nat)
    requires
        closed(e),
        completes(e, c),
    ensures
        completes(e, d),
        outcome(e, d).0 == outcome(e, c).0,
        outcome(e, c).1 == c,
        outcome(e, d).1 == d,
{
    let k = enough_fuel(e, c);
    lemma_closed_run(k, e, c);
    lemma_closed_run(k, e, d);
    lemma_outcome_is_run(k, e, d);
}

} // verus!

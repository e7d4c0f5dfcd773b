use vstd::prelude::*;
use crate::types::{Bond, Constraint, Ty};
use crate::unify::{
    bond_of, constraint_vars, find_from, holds_trivially, lemma_find_from_bounds,
    lemma_measure_bound, lemma_measure_rest, lemma_measure_split, lemma_occurs_is_var,
    lemma_resolve_all_single_vars, occurs, resolve, resolve_all, resolve_from, split_front,
    unify_spec, constraints_size,
};

verus! {

/// A substitution in solved form: the variable of a binding occurs neither
/// in the type of that binding nor in the type of a later one.
pub open spec fn solved_form(s: Seq<Bond>) -> bool {
    forall|i: int, j: int| 0 <= i <= j < s.len() ==> !occurs(#[trigger] s[i].0, #[trigger] s[j].1)
}

/// None of the variables that the substitution binds occurs in the type.
pub open spec fn free_of_keys(t: Ty, s: Seq<Bond>) -> bool {
    forall|k: int| 0 <= k < s.len() ==> !occurs(#[trigger] s[k].0, t)
}

/// A solution speaks of the variables of its constraints and of no others.
pub proof fn lemma_unify_within(c: Seq<Constraint>, i: int)
    requires
        unify_spec(c) is Ok,
        0 <= i < unify_spec(c)->Ok_0.len(),
    ensures
        constraint_vars(c).contains(unify_spec(c)->Ok_0[i].0),
        unify_spec(c)->Ok_0[i].1.vars().subset_of(constraint_vars(c)),
    decreases constraint_vars(c).len(), constraints_size(c),
{
    let lhs = c[0].0;
    let rhs = c[0].1;
    let rest = c.drop_first();
    if holds_trivially(lhs, rhs) {
        lemma_measure_rest(c);
        lemma_unify_within(rest, i);
    } else if bond_of(lhs, rhs) is Some {
        let b = bond_of(lhs, rhs)->Some_0;
        let next = resolve_all(rest, seq![b]);
        let tail = unify_spec(next)->Ok_0;
        lemma_measure_bound(c);
        lemma_resolve_all_single_vars(rest, b.0, b.1);
        assert(unify_spec(c)->Ok_0 == seq![b] + tail);
        if i > 0 {
            lemma_unify_within(next, i - 1);
        }
    } else {
        lemma_measure_split(c);
        lemma_unify_within(split_front(lhs, rhs, rest), i);
    }
}

/// The solver's substitutions are in solved form.
pub proof fn lemma_unify_solved_form(c: Seq<Constraint>)
    requires
        unify_spec(c) is Ok,
    ensures
        solved_form(unify_spec(c)->Ok_0),
    decreases constraint_vars(c).len(), constraints_size(c),
{
    if c.len() > 0 {
        let lhs = c[0].0;
        let rhs = c[0].1;
        let rest = c.drop_first();
        let s = unify_spec(c)->Ok_0;
        if holds_trivially(lhs, rhs) {
            lemma_measure_rest(c);
            lemma_unify_solved_form(rest);
        } else if bond_of(lhs, rhs) is Some {
            let b = bond_of(lhs, rhs)->Some_0;
            let next = resolve_all(rest, seq![b]);
            let tail = unify_spec(next)->Ok_0;
            lemma_measure_bound(c);
            lemma_unify_solved_form(next);
            lemma_resolve_all_single_vars(rest, b.0, b.1);
            lemma_occurs_is_var(b.0, b.1);
            assert(s == seq![b] + tail);
            assert forall|i: int, j: int| 0 <= i <= j < s.len() implies !occurs(
                #[trigger] s[i].0,
                #[trigger] s[j].1,
            ) by {
                if i == 0 {
                    if j > 0 {
                        assert(s[j] == tail[j - 1]);
                        lemma_unify_within(next, j - 1);
                        lemma_occurs_is_var(b.0, tail[j - 1].1);
                    }
                } else {
                    assert(s[i] == tail[i - 1]);
                    assert(s[j] == tail[j - 1]);
                }
            }
        } else {
            lemma_measure_split(c);
            lemma_unify_solved_form(split_front(lhs, rhs, rest));
        }
    }
}

/// A search that finds nothing has passed no binding of the name.
pub proof fn lemma_find_from_none(s: Seq<Bond>, x: Seq<char>, start: nat, k: int)
    requires
        find_from(s, x, start) >= s.len(),
        start <= k < s.len(),
    ensures
        s[k].0 != x,
    decreases s.len() - start,
{
    if start < k {
        if s[start as int].0 != x {
            lemma_find_from_none(s, x, start + 1, k);
        }
    }
}

/// Under a substitution in solved form a type holds none of the variables
/// that the substitution binds.
pub proof fn lemma_resolve_avoids_keys(t: Ty, s: Seq<Bond>, start: nat)
    requires
        solved_form(s),
        forall|k: int| 0 <= k < start && k < s.len() ==> !occurs(#[trigger] s[k].0, t),
    ensures
        free_of_keys(resolve_from(t, s, start), s),
    decreases s.len() - start, t,
{
    let r = resolve_from(t, s, start);
    match t {
        Ty::Fn(i, o) => {
            lemma_resolve_avoids_keys(*i, s, start);
            lemma_resolve_avoids_keys(*o, s, start);
        },
        Ty::Var(x) => {
            let at = find_from(s, x, start);
            lemma_find_from_bounds(s, x, start);
            if start <= at < s.len() {
                lemma_resolve_avoids_keys(s[at as int].1, s, at + 1);
            } else {
                assert forall|k: int| 0 <= k < s.len() implies !occurs(#[trigger] s[k].0, r) by {
                    if k >= start {
                        lemma_find_from_none(s, x, start, k);
                    }
                }
            }
        },
        _ => {},
    }
}

/// A substitution leaves a type without its variables as it is.
pub proof fn lemma_resolve_without_keys(t: Ty, s: Seq<Bond>, start: nat)
    requires
        free_of_keys(t, s),
    ensures
        resolve_from(t, s, start) == t,
    decreases t,
{
    match t {
        Ty::Fn(i, o) => {
            lemma_resolve_without_keys(*i, s, start);
            lemma_resolve_without_keys(*o, s, start);
        },
        Ty::Var(x) => {
            lemma_find_from_bounds(s, x, start);
            let at = find_from(s, x, start);
            if at < s.len() {
                assert(!occurs(s[at as int].0, t));
            }
        },
        _ => {},
    }
}

/// Resolving reaches a fixpoint: under a substitution in solved form, a type
/// that was resolved holds no bound variable, and resolving it again changes
/// nothing.
pub proof fn lemma_resolve_is_fixpoint(t: Ty, s: Seq<Bond>)
    requires
        solved_form(s),
    ensures
        free_of_keys(resolve(t, s), s),
        resolve(resolve(t, s), s) == resolve(t, s),
{
    lemma_resolve_avoids_keys(t, s, 0);
    lemma_resolve_without_keys(resolve(t, s), s, 0);
}

/// The same of what the solver gives: every type under a solution is at its
/// fixpoint.
pub proof fn lemma_solution_is_fixpoint(c: Seq<Constraint>, t: Ty)
    requires
        unify_spec(c) is Ok,
    ensures
        resolve(resolve(t, unify_spec(c)->Ok_0), unify_spec(c)->Ok_0) == resolve(
            t,
            unify_spec(c)->Ok_0,
        ),
{
    lemma_unify_solved_form(c);
    lemma_resolve_is_fixpoint(t, unify_spec(c)->Ok_0);
}

} // verus!

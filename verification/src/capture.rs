use vstd::prelude::*;
use crate::ast::Term;
use crate::names::lemma_numbered_name_injective;
use crate::substitution::{
    captures, free_list, free_names, lemma_free_list_member, lemma_pending_step, lemma_rename_size,
    pending, rename, renamed, subst_value, variable_name,
};

verus! {

/// Whether the name stands anywhere in the term, as a variable or as a
/// binder.
pub open spec fn mentions(e: Term, n: Seq<char>) -> bool
    decreases e,
{
    match e {
        Term::Int(_) | Term::Bool(_) => false,
        Term::Var(x) => x == n,
        Term::Let { x, e1, e2 } => x == n || mentions(*e1, n) || mentions(*e2, n),
        Term::If { guard, e1, e2 } => mentions(*guard, n) || mentions(*e1, n) || mentions(*e2, n),
        Term::Bin { op: _, e1, e2 } => mentions(*e1, n) || mentions(*e2, n),
        Term::Fn { arg, body } => arg == n || mentions(*body, n),
        Term::Apply { func, arg } => mentions(*func, n) || mentions(*arg, n),
    }
}

/// Whether a `let` of the term binds the name.
pub open spec fn let_binds(e: Term, n: Seq<char>) -> bool
    decreases e,
{
    match e {
        Term::Int(_) | Term::Bool(_) | Term::Var(_) => false,
        Term::Let { x, e1, e2 } => x == n || let_binds(*e1, n) || let_binds(*e2, n),
        Term::If { guard, e1, e2 } => let_binds(*guard, n) || let_binds(*e1, n) || let_binds(
            *e2,
            n,
        ),
        Term::Bin { op: _, e1, e2 } => let_binds(*e1, n) || let_binds(*e2, n),
        Term::Fn { arg: _, body } => let_binds(*body, n),
        Term::Apply { func, arg } => let_binds(*func, n) || let_binds(*arg, n),
    }
}

/// None of the names that an evaluator makes after its `c`-th stands in the
/// term.
pub open spec fn ahead_of(e: Term, c: nat) -> bool {
    forall|n: nat| n > c ==> !mentions(e, #[trigger] variable_name(n))
}

/// No `let` of `e` binds a free variable of `v`.
pub open spec fn lets_clear_of(e: Term, v: Term) -> bool {
    forall|y: Seq<char>| #[trigger] let_binds(e, y) ==> !free_names(v).contains(y)
}

/// The free variables of a term once `x` has made way for a term whose free
/// variables are `put`: those of the term but `x`, and with them `put`,
/// where `x` was free in it; else those of the term.
pub open spec fn substituted_names(of: Set<Seq<char>>, put: Set<Seq<char>>, x: Seq<char>) -> Set<
    Seq<char>,
> {
    if of.contains(x) {
        of.remove(x).union(put)
    } else {
        of
    }
}

/// The names of a set with `new` in place of `old`.
pub open spec fn renamed_names(of: Set<Seq<char>>, old: Seq<char>, new: Seq<char>) -> Set<
    Seq<char>,
> {
    if of.contains(old) {
        of.remove(old).insert(new)
    } else {
        of
    }
}

/// A free variable of a term stands in it.
pub proof fn lemma_free_is_mentioned(e: Term, n: Seq<char>)
    requires
        free_names(e).contains(n),
    ensures
        mentions(e, n),
    decreases e,
{
    match e {
        Term::Let { x: _, e1, e2 } => {
            if free_names(*e1).contains(n) {
                lemma_free_is_mentioned(*e1, n);
            } else {
                lemma_free_is_mentioned(*e2, n);
            }
        },
        Term::If { guard, e1, e2 } => {
            if free_names(*guard).contains(n) {
                lemma_free_is_mentioned(*guard, n);
            } else if free_names(*e1).contains(n) {
                lemma_free_is_mentioned(*e1, n);
            } else {
                lemma_free_is_mentioned(*e2, n);
            }
        },
        Term::Bin { op: _, e1, e2 } => {
            if free_names(*e1).contains(n) {
                lemma_free_is_mentioned(*e1, n);
            } else {
                lemma_free_is_mentioned(*e2, n);
            }
        },
        Term::Fn { arg: _, body } => {
            lemma_free_is_mentioned(*body, n);
        },
        Term::Apply { func, arg } => {
            if free_names(*func).contains(n) {
                lemma_free_is_mentioned(*func, n);
            } else {
                lemma_free_is_mentioned(*arg, n);
            }
        },
        _ => {},
    }
}

/// A renamed term holds no name that the term did not hold, but the new
/// one.
pub proof fn lemma_rename_mentions(e: Term, old: Seq<char>, new: Seq<char>, n: Seq<char>)
    requires
        mentions(rename(e, old, new), n),
    ensures
        mentions(e, n) || n == new,
    decreases e,
{
    match e {
        Term::Let { x, e1, e2 } => {
            if mentions(rename(*e1, old, new), n) {
                lemma_rename_mentions(*e1, old, new, n);
            } else if mentions(rename(*e2, old, new), n) {
                lemma_rename_mentions(*e2, old, new, n);
            }
        },
        Term::If { guard, e1, e2 } => {
            if mentions(rename(*guard, old, new), n) {
                lemma_rename_mentions(*guard, old, new, n);
            } else if mentions(rename(*e1, old, new), n) {
                lemma_rename_mentions(*e1, old, new, n);
            } else {
                lemma_rename_mentions(*e2, old, new, n);
            }
        },
        Term::Bin { op: _, e1, e2 } => {
            if mentions(rename(*e1, old, new), n) {
                lemma_rename_mentions(*e1, old, new, n);
            } else {
                lemma_rename_mentions(*e2, old, new, n);
            }
        },
        Term::Fn { arg, body } => {
            if mentions(rename(*body, old, new), n) {
                lemma_rename_mentions(*body, old, new, n);
            }
        },
        Term::Apply { func, arg } => {
            if mentions(rename(*func, old, new), n) {
                lemma_rename_mentions(*func, old, new, n);
            } else {
                lemma_rename_mentions(*arg, old, new, n);
            }
        },
        _ => {},
    }
}

/// A `let` of a renamed term binds what a `let` of the term bound, the new
/// name in place of the old one.
pub proof fn lemma_rename_let_binds(e: Term, old: Seq<char>, new: Seq<char>, y: Seq<char>)
    requires
        let_binds(rename(e, old, new), y),
    ensures
        (let_binds(e, y) && y != old) || (y == new && let_binds(e, old)),
    decreases e,
{
    match e {
        Term::Let { x, e1, e2 } => {
            if renamed(x, old, new) == y {
            } else if let_binds(rename(*e1, old, new), y) {
                lemma_rename_let_binds(*e1, old, new, y);
            } else {
                lemma_rename_let_binds(*e2, old, new, y);
            }
        },
        Term::If { guard, e1, e2 } => {
            if let_binds(rename(*guard, old, new), y) {
                lemma_rename_let_binds(*guard, old, new, y);
            } else if let_binds(rename(*e1, old, new), y) {
                lemma_rename_let_binds(*e1, old, new, y);
            } else {
                lemma_rename_let_binds(*e2, old, new, y);
            }
        },
        Term::Bin { op: _, e1, e2 } => {
            if let_binds(rename(*e1, old, new), y) {
                lemma_rename_let_binds(*e1, old, new, y);
            } else {
                lemma_rename_let_binds(*e2, old, new, y);
            }
        },
        Term::Fn { arg: _, body } => {
            lemma_rename_let_binds(*body, old, new, y);
        },
        Term::Apply { func, arg } => {
            if let_binds(rename(*func, old, new), y) {
                lemma_rename_let_binds(*func, old, new, y);
            } else {
                lemma_rename_let_binds(*arg, old, new, y);
            }
        },
        _ => {},
    }
}

/// Renaming to a name that does not stand in the term renames its free
/// variables and does no more: no variable is captured and none set free.
pub proof fn lemma_rename_free_names(e: Term, old: Seq<char>, new: Seq<char>)
    requires
        !mentions(e, new),
    ensures
        free_names(rename(e, old, new)) == renamed_names(free_names(e), old, new),
    decreases e,
{
    let r = rename(e, old, new);
    match e {
        Term::Let { x, e1, e2 } => {
            lemma_rename_free_names(*e1, old, new);
            lemma_rename_free_names(*e2, old, new);
            if free_names(*e1).contains(new) {
                lemma_free_is_mentioned(*e1, new);
            }
            if free_names(*e2).contains(new) {
                lemma_free_is_mentioned(*e2, new);
            }
        },
        Term::If { guard, e1, e2 } => {
            lemma_rename_free_names(*guard, old, new);
            lemma_rename_free_names(*e1, old, new);
            lemma_rename_free_names(*e2, old, new);
        },
        Term::Bin { op: _, e1, e2 } => {
            lemma_rename_free_names(*e1, old, new);
            lemma_rename_free_names(*e2, old, new);
        },
        Term::Fn { arg, body } => {
            lemma_rename_free_names(*body, old, new);
            if free_names(*body).contains(new) {
                lemma_free_is_mentioned(*body, new);
            }
        },
        Term::Apply { func, arg } => {
            lemma_rename_free_names(*func, old, new);
            lemma_rename_free_names(*arg, old, new);
        },
        _ => {},
    }
    assert(free_names(r) =~= renamed_names(free_names(e), old, new));
}

/// Substitution captures no variable of what it puts in: where no `let` of
/// `e` binds a free variable of `v`, and none of the names that the
/// evaluator has yet to make stands in `e`, the free variables of the result
/// are those of `e` but `x`, and with them those of `v` where `x` was free
/// in `e`. The evaluator's count of names does not go down.
pub proof fn lemma_substitution_captures_nothing(e: Term, v: Term, x: Seq<char>, c: nat)
    requires
        ahead_of(e, c),
        lets_clear_of(e, v),
    ensures
        subst_value(e, v, x, c).1 >= c,
        free_names(subst_value(e, v, x, c).0) == substituted_names(
            free_names(e),
            free_names(v),
            x,
        ),
    decreases e.size(), pending(free_list(v), c), if captures(e, v, x) {
        1nat
    } else {
        0nat
    },
{
    let r = subst_value(e, v, x, c).0;
    let put = free_names(v);
    match e {
        Term::Int(_) | Term::Bool(_) => {},
        Term::Var(y) => {},
        Term::Let { x: y, e1, e2 } => {
            lemma_parts_ahead(e, c);
            lemma_parts_clear(e, v);
            lemma_substitution_captures_nothing(*e1, v, x, c);
            let c1 = subst_value(*e1, v, x, c).1;
            if y != x {
                lemma_ahead_later(*e2, c, c1);
                lemma_substitution_captures_nothing(*e2, v, x, c1);
                assert(let_binds(e, y));
            }
        },
        Term::If { guard, e1, e2 } => {
            lemma_parts_ahead(e, c);
            lemma_parts_clear(e, v);
            lemma_substitution_captures_nothing(*guard, v, x, c);
            let cg = subst_value(*guard, v, x, c).1;
            lemma_ahead_later(*e1, c, cg);
            lemma_substitution_captures_nothing(*e1, v, x, cg);
            let c1 = subst_value(*e1, v, x, cg).1;
            lemma_ahead_later(*e2, c, c1);
            lemma_substitution_captures_nothing(*e2, v, x, c1);
        },
        Term::Bin { op: _, e1, e2 } => {
            lemma_parts_ahead(e, c);
            lemma_parts_clear(e, v);
            lemma_substitution_captures_nothing(*e1, v, x, c);
            let c1 = subst_value(*e1, v, x, c).1;
            lemma_ahead_later(*e2, c, c1);
            lemma_substitution_captures_nothing(*e2, v, x, c1);
        },
        Term::Fn { arg, body } => {
            lemma_free_list_member(v, arg);
            if arg == x {
            } else if !free_list(v).contains(arg) {
                lemma_parts_ahead(e, c);
                lemma_parts_clear(e, v);
                lemma_substitution_captures_nothing(*body, v, x, c);
            } else {
                let fresh = variable_name(c + 1);
                let e2 = rename(e, arg, fresh);
                lemma_rename_size(e, arg, fresh);
                lemma_pending_step(free_list(v), c);
                assert(!mentions(e, fresh));
                lemma_rename_free_names(e, arg, fresh);
                assert forall|n: nat| n > c + 1 implies !mentions(e2, #[trigger] variable_name(n)) by {
                    if mentions(e2, variable_name(n)) {
                        lemma_rename_mentions(e, arg, fresh, variable_name(n));
                        lemma_numbered_name_injective("$"@, n, (c + 1) as nat);
                    }
                }
                assert forall|y: Seq<char>| #[trigger] let_binds(e2, y) implies !put.contains(y) by {
                    lemma_rename_let_binds(e, arg, fresh, y);
                    if let_binds(e, arg) {
                        assert(!put.contains(arg));
                    }
                }
                lemma_substitution_captures_nothing(e2, v, x, c + 1);
            }
        },
        Term::Apply { func, arg } => {
            lemma_parts_ahead(e, c);
            lemma_parts_clear(e, v);
            lemma_substitution_captures_nothing(*func, v, x, c);
            let cf = subst_value(*func, v, x, c).1;
            lemma_ahead_later(*arg, c, cf);
            lemma_substitution_captures_nothing(*arg, v, x, cf);
        },
    }
    assert(free_names(r) =~= substituted_names(free_names(e), put, x));
}

/// What holds of the names in a term holds in its parts.
pub proof fn lemma_parts_ahead(e: Term, c: nat)
    requires
        ahead_of(e, c),
    ensures
        match e {
            Term::Let { x: _, e1, e2 } => ahead_of(*e1, c) && ahead_of(*e2, c),
            Term::If { guard, e1, e2 } => ahead_of(*guard, c) && ahead_of(*e1, c) && ahead_of(
                *e2,
                c,
            ),
            Term::Bin { op: _, e1, e2 } => ahead_of(*e1, c) && ahead_of(*e2, c),
            Term::Fn { arg: _, body } => ahead_of(*body, c),
            Term::Apply { func, arg } => ahead_of(*func, c) && ahead_of(*arg, c),
            _ => true,
        },
{
    assert forall|n: nat| n > c implies !mentions(e, #[trigger] variable_name(n)) by {}
}

/// What holds of the `let`s of a term holds of those of its parts.
pub proof fn lemma_parts_clear(e: Term, v: Term)
    requires
        lets_clear_of(e, v),
    ensures
        match e {
            Term::Let { x: _, e1, e2 } => lets_clear_of(*e1, v) && lets_clear_of(*e2, v),
            Term::If { guard, e1, e2 } => lets_clear_of(*guard, v) && lets_clear_of(*e1, v)
                && lets_clear_of(*e2, v),
            Term::Bin { op: _, e1, e2 } => lets_clear_of(*e1, v) && lets_clear_of(*e2, v),
            Term::Fn { arg: _, body } => lets_clear_of(*body, v),
            Term::Apply { func, arg } => lets_clear_of(*func, v) && lets_clear_of(*arg, v),
            _ => true,
        },
{
    match e {
        Term::Let { x: _, e1, e2 } => {
            assert forall|y: Seq<char>| #[trigger] let_binds(*e1, y) implies !free_names(v).contains(y) by {
                assert(let_binds(e, y));
            }
            assert forall|y: Seq<char>| #[trigger] let_binds(*e2, y) implies !free_names(v).contains(y) by {
                assert(let_binds(e, y));
            }
        },
        Term::If { guard, e1, e2 } => {
            assert forall|y: Seq<char>| #[trigger] let_binds(*guard, y) implies !free_names(v).contains(y) by {
                assert(let_binds(e, y));
            }
            assert forall|y: Seq<char>| #[trigger] let_binds(*e1, y) implies !free_names(v).contains(y) by {
                assert(let_binds(e, y));
            }
            assert forall|y: Seq<char>| #[trigger] let_binds(*e2, y) implies !free_names(v).contains(y) by {
                assert(let_binds(e, y));
            }
        },
        Term::Bin { op: _, e1, e2 } => {
            assert forall|y: Seq<char>| #[trigger] let_binds(*e1, y) implies !free_names(v).contains(y) by {
                assert(let_binds(e, y));
            }
            assert forall|y: Seq<char>| #[trigger] let_binds(*e2, y) implies !free_names(v).contains(y) by {
                assert(let_binds(e, y));
            }
        },
        Term::Fn { arg: _, body } => {
            assert forall|y: Seq<char>| #[trigger] let_binds(*body, y) implies !free_names(v).contains(y) by {
                assert(let_binds(e, y));
            }
        },
        Term::Apply { func, arg } => {
            assert forall|y: Seq<char>| #[trigger] let_binds(*func, y) implies !free_names(v).contains(y) by {
                assert(let_binds(e, y));
            }
            assert forall|y: Seq<char>| #[trigger] let_binds(*arg, y) implies !free_names(v).contains(y) by {
                assert(let_binds(e, y));
            }
        },
        _ => {},
    }
}

/// A term that holds none of the names to come holds none of them later.
pub proof fn lemma_ahead_later(e: Term, c: nat, later: nat)
    requires
        ahead_of(e, c),
        c <= later,
    ensures
        ahead_of(e, later),
{
}

} // verus!

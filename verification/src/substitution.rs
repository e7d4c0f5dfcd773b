use vstd::prelude::*;
use crate::ast::Term;
use crate::environment::{keep_outside, lemma_contains_concat, lemma_keep_outside_member};
use crate::names::{lemma_numbered_name_injective, numbered_name};

verus! {

/// The `n`-th name that an evaluator makes for a renamed parameter: a dollar
/// sign and the number.
pub open spec fn variable_name(n: nat) -> Seq<char> {
    numbered_name("$"@, n)
}

/// The free variables of a term.
pub open spec fn free_names(e: Term) -> Set<Seq<char>>
    decreases e,
{
    match e {
        Term::Int(_) | Term::Bool(_) => Set::empty(),
        Term::Var(x) => set![x],
        Term::Let { x, e1, e2 } => free_names(*e1).union(free_names(*e2).remove(x)),
        Term::If { guard, e1, e2 } => free_names(*guard).union(free_names(*e1)).union(
            free_names(*e2),
        ),
        Term::Bin { op: _, e1, e2 } => free_names(*e1).union(free_names(*e2)),
        Term::Fn { arg, body } => free_names(*body).remove(arg),
        Term::Apply { func, arg } => free_names(*func).union(free_names(*arg)),
    }
}

/// The free occurrences of variables in a term, from left to right.
pub open spec fn free_list(e: Term) -> Seq<Seq<char>>
    decreases e,
{
    match e {
        Term::Int(_) | Term::Bool(_) => Seq::empty(),
        Term::Var(x) => seq![x],
        Term::Let { x, e1, e2 } => free_list(*e1) + keep_outside(free_list(*e2), seq![x]),
        Term::If { guard, e1, e2 } => free_list(*guard) + free_list(*e1) + free_list(*e2),
        Term::Bin { op: _, e1, e2 } => free_list(*e1) + free_list(*e2),
        Term::Fn { arg, body } => keep_outside(free_list(*body), seq![arg]),
        Term::Apply { func, arg } => free_list(*func) + free_list(*arg),
    }
}

/// `name` where it is not `old`, and `new` where it is.
pub open spec fn renamed(name: Seq<char>, old: Seq<char>, new: Seq<char>) -> Seq<char> {
    if name == old {
        new
    } else {
        name
    }
}

/// The term with the name `old` replaced by `new` wherever it stands, as a
/// variable or as a binder.
pub open spec fn rename(e: Term, old: Seq<char>, new: Seq<char>) -> Term
    decreases e,
{
    match e {
        Term::Int(_) | Term::Bool(_) => e,
        Term::Var(x) => Term::Var(renamed(x, old, new)),
        Term::Let { x, e1, e2 } => Term::Let {
            x: renamed(x, old, new),
            e1: Box::new(rename(*e1, old, new)),
            e2: Box::new(rename(*e2, old, new)),
        },
        Term::If { guard, e1, e2 } => Term::If {
            guard: Box::new(rename(*guard, old, new)),
            e1: Box::new(rename(*e1, old, new)),
            e2: Box::new(rename(*e2, old, new)),
        },
        Term::Bin { op, e1, e2 } => Term::Bin {
            op,
            e1: Box::new(rename(*e1, old, new)),
            e2: Box::new(rename(*e2, old, new)),
        },
        Term::Fn { arg, body } => Term::Fn {
            arg: renamed(arg, old, new),
            body: Box::new(rename(*body, old, new)),
        },
        Term::Apply { func, arg } => Term::Apply {
            func: Box::new(rename(*func, old, new)),
            arg: Box::new(rename(*arg, old, new)),
        },
    }
}

/// Whether `name` is one that an evaluator makes after its `c`-th.
pub open spec fn issued_later(name: Seq<char>, c: nat) -> bool {
    exists|n: nat| n > c && name == #[trigger] variable_name(n)
}

/// How many of the names are ones that an evaluator makes after its `c`-th.
pub open spec fn pending(names: Seq<Seq<char>>, c: nat) -> nat
    decreases names.len(),
{
    if names.len() == 0 {
        0
    } else {
        pending(names.drop_last(), c) + if issued_later(names.last(), c) {
            1nat
        } else {
            0nat
        }
    }
}

/// Whether substituting `v` for `x` in `e` would capture: `e` is a function
/// that binds another name than `x`, and that name is free in `v`.
pub open spec fn captures(e: Term, v: Term, x: Seq<char>) -> bool {
    e is Fn && e->Fn_arg != x && free_list(v).contains(e->Fn_arg)
}

/// The term `e` with the value `v` in place of the free occurrences of `x`,
/// by an evaluator that has made `c` names, and the number of names it has
/// made afterwards. A function whose parameter is free in `v` has the
/// parameter renamed to the evaluator's next name, throughout, before the
/// substitution goes on.
pub open spec fn subst_value(e: Term, v: Term, x: Seq<char>, c: nat) -> (Term, nat)
    decreases e.size(), pending(free_list(v), c), if captures(e, v, x) {
        1nat
    } else {
        0nat
    },
{
    match e {
        Term::Int(_) | Term::Bool(_) => (e, c),
        Term::Var(y) => if y == x {
            (v, c)
        } else {
            (e, c)
        },
        Term::Let { x: y, e1, e2 } => {
            let (n1, c1) = subst_value(*e1, v, x, c);
            if y == x {
                (Term::Let { x: y, e1: Box::new(n1), e2 }, c1)
            } else {
                let (n2, c2) = subst_value(*e2, v, x, c1);
                (Term::Let { x: y, e1: Box::new(n1), e2: Box::new(n2) }, c2)
            }
        },
        Term::If { guard, e1, e2 } => {
            let (ng, cg) = subst_value(*guard, v, x, c);
            let (n1, c1) = subst_value(*e1, v, x, cg);
            let (n2, c2) = subst_value(*e2, v, x, c1);
            (Term::If { guard: Box::new(ng), e1: Box::new(n1), e2: Box::new(n2) }, c2)
        },
        Term::Bin { op, e1, e2 } => {
            let (n1, c1) = subst_value(*e1, v, x, c);
            let (n2, c2) = subst_value(*e2, v, x, c1);
            (Term::Bin { op, e1: Box::new(n1), e2: Box::new(n2) }, c2)
        },
        Term::Fn { arg, body } => {
            if arg == x {
                (e, c)
            } else if !free_list(v).contains(arg) {
                let (nb, cb) = subst_value(*body, v, x, c);
                (Term::Fn { arg, body: Box::new(nb) }, cb)
            } else {
                proof {
                    lemma_rename_size(e, arg, variable_name(c + 1));
                    lemma_pending_step(free_list(v), c);
                }
                subst_value(rename(e, arg, variable_name(c + 1)), v, x, c + 1)
            }
        },
        Term::Apply { func, arg } => {
            let (nf, cf) = subst_value(*func, v, x, c);
            let (na, ca) = subst_value(*arg, v, x, cf);
            (Term::Apply { func: Box::new(nf), arg: Box::new(na) }, ca)
        },
    }
}

/// Renaming keeps the size of a term.
pub proof fn lemma_rename_size(e: Term, old: Seq<char>, new: Seq<char>)
    ensures
        rename(e, old, new).size() == e.size(),
    decreases e,
{
    match e {
        Term::Let { x: _, e1, e2 } => {
            lemma_rename_size(*e1, old, new);
            lemma_rename_size(*e2, old, new);
        },
        Term::If { guard, e1, e2 } => {
            lemma_rename_size(*guard, old, new);
            lemma_rename_size(*e1, old, new);
            lemma_rename_size(*e2, old, new);
        },
        Term::Bin { op: _, e1, e2 } => {
            lemma_rename_size(*e1, old, new);
            lemma_rename_size(*e2, old, new);
        },
        Term::Fn { arg: _, body } => {
            lemma_rename_size(*body, old, new);
        },
        Term::Apply { func, arg } => {
            lemma_rename_size(*func, old, new);
            lemma_rename_size(*arg, old, new);
        },
        _ => {},
    }
}

/// With one more name made, no more of the names are still to come; and one
/// fewer where the name just made is among them.
pub proof fn lemma_pending_step(names: Seq<Seq<char>>, c: nat)
    ensures
        pending(names, c + 1) <= pending(names, c),
        names.contains(variable_name(c + 1)) ==> pending(names, c + 1) < pending(names, c),
    decreases names.len(),
{
    if names.len() > 0 {
        let init = names.drop_last();
        let last = names.last();
        lemma_pending_step(init, c);
        if issued_later(last, c + 1) {
            let n = choose|n: nat| n > c + 1 && last == #[trigger] variable_name(n);
            assert(n > c && last == variable_name(n));
        }
        if names.contains(variable_name(c + 1)) {
            if last == variable_name(c + 1) {
                assert(issued_later(last, c)) by {
                    assert(c + 1 > c && last == variable_name((c + 1) as nat));
                }
                if issued_later(last, c + 1) {
                    let n = choose|n: nat| n > c + 1 && last == #[trigger] variable_name(n);
                    lemma_numbered_name_injective("$"@, n, (c + 1) as nat);
                }
            } else {
                let i = choose|i: int| 0 <= i < names.len() && names[i] == variable_name(c + 1);
                assert(init[i] == variable_name(c + 1));
            }
        }
    }
}

/// A name occurs free in a term exactly when it is one of its free
/// variables.
pub proof fn lemma_free_list_member(e: Term, x: Seq<char>)
    ensures
        free_list(e).contains(x) <==> free_names(e).contains(x),
    decreases e,
{
    match e {
        Term::Int(_) | Term::Bool(_) => {},
        Term::Var(y) => {
            assert(seq![y][0] == y);
        },
        Term::Let { x: y, e1, e2 } => {
            lemma_free_list_member(*e1, x);
            lemma_free_list_member(*e2, x);
            lemma_keep_outside_member(free_list(*e2), seq![y], x);
            lemma_contains_concat(free_list(*e1), keep_outside(free_list(*e2), seq![y]), x);
            assert(seq![y][0] == y);
        },
        Term::If { guard, e1, e2 } => {
            lemma_free_list_member(*guard, x);
            lemma_free_list_member(*e1, x);
            lemma_free_list_member(*e2, x);
            lemma_contains_concat(free_list(*guard), free_list(*e1), x);
            lemma_contains_concat(free_list(*guard) + free_list(*e1), free_list(*e2), x);
        },
        Term::Bin { op: _, e1, e2 } => {
            lemma_free_list_member(*e1, x);
            lemma_free_list_member(*e2, x);
            lemma_contains_concat(free_list(*e1), free_list(*e2), x);
        },
        Term::Fn { arg, body } => {
            lemma_free_list_member(*body, x);
            lemma_keep_outside_member(free_list(*body), seq![arg], x);
            assert(seq![arg][0] == arg);
        },
        Term::Apply { func, arg } => {
            lemma_free_list_member(*func, x);
            lemma_free_list_member(*arg, x);
            lemma_contains_concat(free_list(*func), free_list(*arg), x);
        },
    }
}

/// The free occurrences of a term name its free variables, and no others.
pub proof fn lemma_free_list_members(e: Term)
    ensures
        forall|x: Seq<char>| free_list(e).contains(x) <==> free_names(e).contains(x),
{
    assert forall|x: Seq<char>| free_list(e).contains(x) <==> free_names(e).contains(x) by {
        lemma_free_list_member(e, x);
    }
}

} // verus!

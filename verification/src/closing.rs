use vstd::prelude::*;
use crate::ast::Term;
use crate::substitution::{free_names, lemma_free_list_member, subst_value};

verus! {

/// A term without free variables.
pub open spec fn closed(e: Term) -> bool {
    forall|x: Seq<char>| !free_names(e).contains(x)
}

/// The term `e` with `v` in place of the free occurrences of `x`, no
/// parameter renamed.
pub open spec fn plain_subst(e: Term, v: Term, x: Seq<char>) -> Term
    decreases e,
{
    match e {
        Term::Int(_) | Term::Bool(_) => e,
        Term::Var(y) => if y == x {
            v
        } else {
            e
        },
        Term::Let { x: y, e1, e2 } => Term::Let {
            x: y,
            e1: Box::new(plain_subst(*e1, v, x)),
            e2: if y == x {
                e2
            } else {
                Box::new(plain_subst(*e2, v, x))
            },
        },
        Term::If { guard, e1, e2 } => Term::If {
            guard: Box::new(plain_subst(*guard, v, x)),
            e1: Box::new(plain_subst(*e1, v, x)),
            e2: Box::new(plain_subst(*e2, v, x)),
        },
        Term::Bin { op, e1, e2 } => Term::Bin {
            op,
            e1: Box::new(plain_subst(*e1, v, x)),
            e2: Box::new(plain_subst(*e2, v, x)),
        },
        Term::Fn { arg, body } => if arg == x {
            e
        } else {
            Term::Fn { arg, body: Box::new(plain_subst(*body, v, x)) }
        },
        Term::Apply { func, arg } => Term::Apply {
            func: Box::new(plain_subst(*func, v, x)),
            arg: Box::new(plain_subst(*arg, v, x)),
        },
    }
}

/// Putting in a closed term renames nothing: the evaluator makes no name,
/// and the result is the plain substitution.
pub proof fn lemma_subst_closed(e: Term, v: Term, x: Seq<char>, c: nat)
    requires
        closed(v),
    ensures
        subst_value(e, v, x, c) == (plain_subst(e, v, x), c),
    decreases e,
{
    match e {
        Term::Let { x: y, e1, e2 } => {
            lemma_subst_closed(*e1, v, x, c);
            if y != x {
                lemma_subst_closed(*e2, v, x, c);
            }
        },
        Term::If { guard, e1, e2 } => {
            lemma_subst_closed(*guard, v, x, c);
            lemma_subst_closed(*e1, v, x, c);
            lemma_subst_closed(*e2, v, x, c);
        },
        Term::Bin { op: _, e1, e2 } => {
            lemma_subst_closed(*e1, v, x, c);
            lemma_subst_closed(*e2, v, x, c);
        },
        Term::Fn { arg, body } => {
            lemma_free_list_member(v, arg);
            if arg != x {
                lemma_subst_closed(*body, v, x, c);
            }
        },
        Term::Apply { func, arg } => {
            lemma_subst_closed(*func, v, x, c);
            lemma_subst_closed(*arg, v, x, c);
        },
        _ => {},
    }
}

/// Substituting for a variable that is not free in a term leaves the term
/// as it is.
pub proof fn lemma_plain_subst_absent(e: Term, v: Term, x: Seq<char>)
    requires
        !free_names(e).contains(x),
    ensures
        plain_subst(e, v, x) == e,
    decreases e,
{
    match e {
        Term::Let { x: y, e1, e2 } => {
            lemma_plain_subst_absent(*e1, v, x);
            if y != x {
                lemma_plain_subst_absent(*e2, v, x);
            }
        },
        Term::If { guard, e1, e2 } => {
            lemma_plain_subst_absent(*guard, v, x);
            lemma_plain_subst_absent(*e1, v, x);
            lemma_plain_subst_absent(*e2, v, x);
        },
        Term::Bin { op: _, e1, e2 } => {
            lemma_plain_subst_absent(*e1, v, x);
            lemma_plain_subst_absent(*e2, v, x);
        },
        Term::Fn { arg, body } => {
            if arg != x {
                lemma_plain_subst_absent(*body, v, x);
            }
        },
        Term::Apply { func, arg } => {
            lemma_plain_subst_absent(*func, v, x);
            lemma_plain_subst_absent(*arg, v, x);
        },
        _ => {},
    }
}

/// The term with each free variable that `g` binds replaced by what `g`
/// binds it to, all at once.
pub open spec fn close(e: Term, g: Map<Seq<char>, Term>) -> Term
    decreases e,
{
    match e {
        Term::Int(_) | Term::Bool(_) => e,
        Term::Var(x) => if g.contains_key(x) {
            g[x]
        } else {
            e
        },
        Term::Let { x, e1, e2 } => Term::Let {
            x,
            e1: Box::new(close(*e1, g)),
            e2: Box::new(close(*e2, g.remove(x))),
        },
        Term::If { guard, e1, e2 } => Term::If {
            guard: Box::new(close(*guard, g)),
            e1: Box::new(close(*e1, g)),
            e2: Box::new(close(*e2, g)),
        },
        Term::Bin { op, e1, e2 } => Term::Bin {
            op,
            e1: Box::new(close(*e1, g)),
            e2: Box::new(close(*e2, g)),
        },
        Term::Fn { arg, body } => Term::Fn { arg, body: Box::new(close(*body, g.remove(arg))) },
        Term::Apply { func, arg } => Term::Apply {
            func: Box::new(close(*func, g)),
            arg: Box::new(close(*arg, g)),
        },
    }
}

/// Every term that `g` binds a variable to is a closed value.
pub open spec fn closing(g: Map<Seq<char>, Term>) -> bool {
    forall|x: Seq<char>| #[trigger] g.contains_key(x) ==> closed(g[x]) && g[x].is_value()
}

/// Without one of its bindings a closing substitution is one still.
pub proof fn lemma_closing_remove(g: Map<Seq<char>, Term>, x: Seq<char>)
    requires
        closing(g),
    ensures
        closing(g.remove(x)),
{
    assert forall|y: Seq<char>| #[trigger] g.remove(x).contains_key(y) implies closed(g.remove(x)[y])
        && g.remove(x)[y].is_value() by {
        assert(g.contains_key(y));
    }
}

/// With one more closed value a closing substitution is one still.
pub proof fn lemma_closing_insert(g: Map<Seq<char>, Term>, x: Seq<char>, v: Term)
    requires
        closing(g),
        closed(v),
        v.is_value(),
    ensures
        closing(g.insert(x, v)),
{
    assert forall|y: Seq<char>| #[trigger] g.insert(x, v).contains_key(y) implies closed(
        g.insert(x, v)[y],
    ) && g.insert(x, v)[y].is_value() by {
        if y != x {
            assert(g.contains_key(y));
        }
    }
}

/// Substituting a closed value into a term closed by `g` without `x` is
/// closing the term by `g` with `x` bound to the value.
pub proof fn lemma_close_then_put(e: Term, g: Map<Seq<char>, Term>, v: Term, x: Seq<char>)
    requires
        closing(g),
        closed(v),
    ensures
        plain_subst(close(e, g.remove(x)), v, x) == close(e, g.insert(x, v)),
    decreases e,
{
    match e {
        Term::Var(y) => {
            if y != x && g.contains_key(y) {
                assert(g.remove(x).contains_key(y));
                lemma_plain_subst_absent(g[y], v, x);
            }
        },
        Term::Let { x: y, e1, e2 } => {
            lemma_close_then_put(*e1, g, v, x);
            if y == x {
                assert(g.remove(x).remove(y) =~= g.insert(x, v).remove(y));
            } else {
                lemma_closing_remove(g, y);
                lemma_close_then_put(*e2, g.remove(y), v, x);
                assert(g.remove(x).remove(y) =~= g.remove(y).remove(x));
                assert(g.insert(x, v).remove(y) =~= g.remove(y).insert(x, v));
            }
        },
        Term::If { guard, e1, e2 } => {
            lemma_close_then_put(*guard, g, v, x);
            lemma_close_then_put(*e1, g, v, x);
            lemma_close_then_put(*e2, g, v, x);
        },
        Term::Bin { op: _, e1, e2 } => {
            lemma_close_then_put(*e1, g, v, x);
            lemma_close_then_put(*e2, g, v, x);
        },
        Term::Fn { arg, body } => {
            if arg == x {
                assert(g.remove(x).remove(arg) =~= g.insert(x, v).remove(arg));
            } else {
                lemma_closing_remove(g, arg);
                lemma_close_then_put(*body, g.remove(arg), v, x);
                assert(g.remove(x).remove(arg) =~= g.remove(arg).remove(x));
                assert(g.insert(x, v).remove(arg) =~= g.remove(arg).insert(x, v));
            }
        },
        Term::Apply { func, arg } => {
            lemma_close_then_put(*func, g, v, x);
            lemma_close_then_put(*arg, g, v, x);
        },
        _ => {},
    }
}

/// The free variables of a closed-up term are those of the term that the
/// substitution does not bind.
pub proof fn lemma_close_free_names(e: Term, g: Map<Seq<char>, Term>)
    requires
        closing(g),
    ensures
        free_names(close(e, g)) == free_names(e).difference(g.dom()),
    decreases e,
{
    match e {
        Term::Var(x) => {
            if g.contains_key(x) {
                assert(closed(g[x]));
            }
        },
        Term::Let { x, e1, e2 } => {
            lemma_close_free_names(*e1, g);
            lemma_closing_remove(g, x);
            lemma_close_free_names(*e2, g.remove(x));
        },
        Term::If { guard, e1, e2 } => {
            lemma_close_free_names(*guard, g);
            lemma_close_free_names(*e1, g);
            lemma_close_free_names(*e2, g);
        },
        Term::Bin { op: _, e1, e2 } => {
            lemma_close_free_names(*e1, g);
            lemma_close_free_names(*e2, g);
        },
        Term::Fn { arg, body } => {
            lemma_closing_remove(g, arg);
            lemma_close_free_names(*body, g.remove(arg));
        },
        Term::Apply { func, arg } => {
            lemma_close_free_names(*func, g);
            lemma_close_free_names(*arg, g);
        },
        _ => {},
    }
    assert(free_names(close(e, g)) =~= free_names(e).difference(g.dom()));
}

/// With a closed term put for it, a variable is free no more, and no other
/// variable becomes free or bound.
pub proof fn lemma_plain_subst_free_names(e: Term, v: Term, x: Seq<char>)
    requires
        closed(v),
    ensures
        free_names(plain_subst(e, v, x)) == free_names(e).remove(x),
    decreases e,
{
    match e {
        Term::Let { x: y, e1, e2 } => {
            lemma_plain_subst_free_names(*e1, v, x);
            if y != x {
                lemma_plain_subst_free_names(*e2, v, x);
            }
        },
        Term::If { guard, e1, e2 } => {
            lemma_plain_subst_free_names(*guard, v, x);
            lemma_plain_subst_free_names(*e1, v, x);
            lemma_plain_subst_free_names(*e2, v, x);
        },
        Term::Bin { op: _, e1, e2 } => {
            lemma_plain_subst_free_names(*e1, v, x);
            lemma_plain_subst_free_names(*e2, v, x);
        },
        Term::Fn { arg, body } => {
            if arg != x {
                lemma_plain_subst_free_names(*body, v, x);
            }
        },
        Term::Apply { func, arg } => {
            lemma_plain_subst_free_names(*func, v, x);
            lemma_plain_subst_free_names(*arg, v, x);
        },
        _ => {},
    }
    assert(free_names(plain_subst(e, v, x)) =~= free_names(e).remove(x));
}

} // verus!

use vstd::prelude::*;
use std::collections::VecDeque;
use crate::typecheck::TypeChecker;
use crate::types::{bonds_of, constraints_of, Bond, Constraint, MonoType, Ty, TypeError, TypeFault};

verus! {

/// Whether the type variable `x` occurs in `t`.
pub open spec fn occurs(x: Seq<char>, t: Ty) -> bool
    decreases t,
{
    match t {
        Ty::Int | Ty::Bool => false,
        Ty::Var(y) => y == x,
        Ty::Fn(i, o) => occurs(x, *i) || occurs(x, *o),
    }
}

/// The first place at or after `start` where `s` binds `x`; the length of
/// `s` where there is none.
pub open spec fn find_from(s: Seq<Bond>, x: Seq<char>, start: nat) -> nat
    decreases s.len() - start,
{
    if start >= s.len() {
        s.len()
    } else if s[start as int].0 == x {
        start
    } else {
        find_from(s, x, start + 1)
    }
}

/// `t` with each variable that `s` binds at or after `start` replaced by
/// what it is bound to, itself resolved through the bindings that follow.
pub open spec fn resolve_from(t: Ty, s: Seq<Bond>, start: nat) -> Ty
    decreases s.len() - start, t,
{
    match t {
        Ty::Int | Ty::Bool => t,
        Ty::Var(x) => {
            let at = find_from(s, x, start);
            if start <= at < s.len() {
                resolve_from(s[at as int].1, s, at + 1)
            } else {
                t
            }
        },
        Ty::Fn(i, o) => Ty::Fn(
            Box::new(resolve_from(*i, s, start)),
            Box::new(resolve_from(*o, s, start)),
        ),
    }
}

/// `t` under the substitution `s`: every variable followed through the chain
/// of bindings, which stand in the order in which they were solved.
pub open spec fn resolve(t: Ty, s: Seq<Bond>) -> Ty {
    resolve_from(t, s, 0)
}

/// Every constraint of `c` under the substitution `s`.
pub open spec fn resolve_all(c: Seq<Constraint>, s: Seq<Bond>) -> Seq<Constraint> {
    Seq::new(c.len(), |i: int| (resolve(c[i].0, s), resolve(c[i].1, s)))
}

/// The type variables of a collection of constraints.
pub open spec fn constraint_vars(c: Seq<Constraint>) -> Set<Seq<char>>
    decreases c.len(),
{
    if c.len() == 0 {
        Set::empty()
    } else {
        c[0].0.vars().union(c[0].1.vars()).union(constraint_vars(c.drop_first()))
    }
}

/// The number of nodes of all the types of a collection of constraints.
pub open spec fn constraints_size(c: Seq<Constraint>) -> nat
    decreases c.len(),
{
    if c.len() == 0 {
        0
    } else {
        c[0].0.size() + c[0].1.size() + constraints_size(c.drop_first())
    }
}

/// A constraint that holds as it stands: the same base type or the same
/// variable on both sides.
pub open spec fn holds_trivially(lhs: Ty, rhs: Ty) -> bool {
    ||| lhs is Int && rhs is Int
    ||| lhs is Bool && rhs is Bool
    ||| lhs is Var && rhs is Var && lhs->Var_0 == rhs->Var_0
}

/// The binding that a constraint gives: a variable on the left that does not
/// occur on the right, else one on the right that does not occur on the left.
pub open spec fn bond_of(lhs: Ty, rhs: Ty) -> Option<Bond> {
    if lhs is Var && !occurs(lhs->Var_0, rhs) {
        Some((lhs->Var_0, rhs))
    } else if rhs is Var && !occurs(rhs->Var_0, lhs) {
        Some((rhs->Var_0, lhs))
    } else {
        None
    }
}

/// A solution with one more binding in front.
pub open spec fn after(front: Seq<Bond>, rest: Result<Seq<Bond>, TypeFault>) -> Result<
    Seq<Bond>,
    TypeFault,
> {
    match rest {
        Ok(s) => Ok(front + s),
        Err(e) => Err(e),
    }
}

/// The two constraints that an equality of function types comes down to, in
/// front of the others.
pub open spec fn split_front(lhs: Ty, rhs: Ty, rest: Seq<Constraint>) -> Seq<Constraint> {
    seq![(*lhs->Fn_0, *rhs->Fn_0), (*lhs->Fn_1, *rhs->Fn_1)] + rest
}

/// The solution of a collection of constraints, taken from the front: the
/// bindings in the order in which they were made, or the first pair of types
/// that cannot be made equal.
pub open spec fn unify_spec(c: Seq<Constraint>) -> Result<Seq<Bond>, TypeFault>
    decreases constraint_vars(c).len(), constraints_size(c),
{
    if c.len() == 0 {
        Ok(Seq::empty())
    } else {
        let lhs = c[0].0;
        let rhs = c[0].1;
        let rest = c.drop_first();
        if holds_trivially(lhs, rhs) {
            proof {
                lemma_measure_rest(c);
            }
            unify_spec(rest)
        } else if bond_of(lhs, rhs) is Some {
            let b = bond_of(lhs, rhs)->Some_0;
            proof {
                lemma_measure_bound(c);
            }
            after(seq![b], unify_spec(resolve_all(rest, seq![b])))
        } else if lhs is Fn && rhs is Fn {
            proof {
                lemma_measure_split(c);
            }
            unify_spec(split_front(lhs, rhs, rest))
        } else {
            Err(TypeFault::UnsolvableConstraints(lhs, rhs))
        }
    }
}

/// A variable occurs in a type exactly when it is one of its variables.
pub proof fn lemma_occurs_is_var(x: Seq<char>, t: Ty)
    ensures
        occurs(x, t) == t.vars().contains(x),
    decreases t,
{
    match t {
        Ty::Fn(i, o) => {
            lemma_occurs_is_var(x, *i);
            lemma_occurs_is_var(x, *o);
        },
        _ => {},
    }
}

/// The constraints' variables are finitely many.
pub proof fn lemma_constraint_vars_finite(c: Seq<Constraint>)
    ensures
        constraint_vars(c).finite(),
    decreases c.len(),
{
    if c.len() > 0 {
        crate::types::lemma_vars_finite(c[0].0);
        crate::types::lemma_vars_finite(c[0].1);
        lemma_constraint_vars_finite(c.drop_first());
    }
}

/// A search finds a place at or after its start.
pub proof fn lemma_find_from_bounds(s: Seq<Bond>, x: Seq<char>, start: nat)
    ensures
        find_from(s, x, start) <= s.len(),
        start <= s.len() ==> start <= find_from(s, x, start),
        find_from(s, x, start) < s.len() ==> s[find_from(s, x, start) as int].0 == x,
    decreases s.len() - start,
{
    if start < s.len() && s[start as int].0 != x {
        lemma_find_from_bounds(s, x, start + 1);
    }
}

/// Behind the last binding a type stays as it is.
pub proof fn lemma_resolve_past_end(t: Ty, s: Seq<Bond>, start: nat)
    requires
        start >= s.len(),
    ensures
        resolve_from(t, s, start) == t,
    decreases t,
{
    match t {
        Ty::Fn(i, o) => {
            lemma_resolve_past_end(*i, s, start);
            lemma_resolve_past_end(*o, s, start);
        },
        _ => {},
    }
}

/// One binding replaces its variable and leaves every other in place.
pub proof fn lemma_resolve_single_vars(u: Ty, x: Seq<char>, t: Ty)
    ensures
        resolve(u, seq![(x, t)]).vars().subset_of(u.vars().remove(x).union(t.vars())),
    decreases u,
{
    let s = seq![(x, t)];
    match u {
        Ty::Fn(i, o) => {
            lemma_resolve_single_vars(*i, x, t);
            lemma_resolve_single_vars(*o, x, t);
        },
        Ty::Var(y) => {
            assert(find_from(s, y, 1) == 1);
            if y == x {
                lemma_resolve_past_end(t, s, 1);
            }
        },
        _ => {},
    }
}

/// The same of a collection of constraints.
pub proof fn lemma_resolve_all_single_vars(c: Seq<Constraint>, x: Seq<char>, t: Ty)
    ensures
        constraint_vars(resolve_all(c, seq![(x, t)])).subset_of(
            constraint_vars(c).remove(x).union(t.vars()),
        ),
    decreases c.len(),
{
    let s = seq![(x, t)];
    if c.len() > 0 {
        lemma_resolve_single_vars(c[0].0, x, t);
        lemma_resolve_single_vars(c[0].1, x, t);
        lemma_resolve_all_single_vars(c.drop_first(), x, t);
        assert(resolve_all(c, s).drop_first() =~= resolve_all(c.drop_first(), s));
    }
}

/// Without its first constraint a collection has no more variables and is
/// smaller.
pub proof fn lemma_measure_rest(c: Seq<Constraint>)
    requires
        c.len() > 0,
    ensures
        constraint_vars(c.drop_first()).len() <= constraint_vars(c).len(),
        constraints_size(c.drop_first()) < constraints_size(c),
{
    lemma_constraint_vars_finite(c);
    vstd::set_lib::lemma_len_subset(constraint_vars(c.drop_first()), constraint_vars(c));
    lemma_size_positive(c[0].0);
}

/// A type has at least one node.
pub proof fn lemma_size_positive(t: Ty)
    ensures
        t.size() >= 1,
{
}

/// Once the first constraint has bound a variable, what is left under that
/// binding has fewer variables.
pub proof fn lemma_measure_bound(c: Seq<Constraint>)
    requires
        c.len() > 0,
        bond_of(c[0].0, c[0].1) is Some,
    ensures
        constraint_vars(resolve_all(c.drop_first(), seq![bond_of(c[0].0, c[0].1)->Some_0])).len()
            < constraint_vars(c).len(),
{
    let b = bond_of(c[0].0, c[0].1)->Some_0;
    let x = b.0;
    let t = b.1;
    let next = resolve_all(c.drop_first(), seq![b]);
    let all = constraint_vars(c);
    lemma_constraint_vars_finite(c);
    lemma_resolve_all_single_vars(c.drop_first(), x, t);
    lemma_occurs_is_var(x, t);
    assert(all.contains(x));
    assert(t.vars().subset_of(all));
    assert(constraint_vars(next).subset_of(all.remove(x)));
    vstd::set_lib::lemma_len_subset(constraint_vars(next), all.remove(x));
}

/// Splitting an equality of function types keeps the variables and makes the
/// collection smaller.
pub proof fn lemma_measure_split(c: Seq<Constraint>)
    requires
        c.len() > 0,
        c[0].0 is Fn,
        c[0].1 is Fn,
    ensures
        constraint_vars(split_front(c[0].0, c[0].1, c.drop_first())) == constraint_vars(c),
        constraints_size(split_front(c[0].0, c[0].1, c.drop_first())) < constraints_size(c),
{
    let rest = c.drop_first();
    let n = split_front(c[0].0, c[0].1, rest);
    let m = n.drop_first();
    assert(m.drop_first() =~= rest);
    assert(m[0] == n[1]);
    assert(constraint_vars(m) == m[0].0.vars().union(m[0].1.vars()).union(constraint_vars(rest)));
    assert(constraint_vars(n) == n[0].0.vars().union(n[0].1.vars()).union(constraint_vars(m)));
    assert(constraint_vars(n) =~= constraint_vars(c));
    assert(constraints_size(m) == m[0].0.size() + m[0].1.size() + constraints_size(rest));
    assert(constraints_size(n) == n[0].0.size() + n[0].1.size() + constraints_size(m));
}

/// The occurs check: a variable cannot be made equal to a type that holds
/// it and is more than the variable itself. Such a constraint at the front
/// fails at once, with its two sides, whichever side the variable is on and
/// whatever follows.
pub proof fn lemma_occurs_check(x: Seq<char>, t: Ty, rest: Seq<Constraint>)
    requires
        occurs(x, t),
        t != Ty::Var(x),
    ensures
        unify_spec(seq![(Ty::Var(x), t)] + rest) == Err::<Seq<Bond>, TypeFault>(
            TypeFault::UnsolvableConstraints(Ty::Var(x), t),
        ),
        unify_spec(seq![(t, Ty::Var(x))] + rest) == Err::<Seq<Bond>, TypeFault>(
            TypeFault::UnsolvableConstraints(t, Ty::Var(x)),
        ),
{
    let left = seq![(Ty::Var(x), t)] + rest;
    let right = seq![(t, Ty::Var(x))] + rest;
    assert(left[0] == (Ty::Var(x), t));
    assert(right[0] == (t, Ty::Var(x)));
    assert(t is Fn);
}

/// With one more binding in front, a search from behind it finds what it
/// found before, one place further on.
pub proof fn lemma_find_shift(b: Bond, s: Seq<Bond>, x: Seq<char>, k: nat)
    ensures
        find_from(seq![b] + s, x, k + 1) == find_from(s, x, k) + 1,
    decreases s.len() - k,
{
    let all = seq![b] + s;
    if k < s.len() {
        assert(all[k as int + 1] == s[k as int]);
        if s[k as int].0 != x {
            lemma_find_shift(b, s, x, k + 1);
        }
    }
}

/// With one more binding in front, a type resolved from behind it is what it
/// was before.
pub proof fn lemma_resolve_shift(t: Ty, b: Bond, s: Seq<Bond>, k: nat)
    ensures
        resolve_from(t, seq![b] + s, k + 1) == resolve_from(t, s, k),
    decreases s.len() - k, t,
{
    let all = seq![b] + s;
    match t {
        Ty::Fn(i, o) => {
            lemma_resolve_shift(*i, b, s, k);
            lemma_resolve_shift(*o, b, s, k);
        },
        Ty::Var(x) => {
            lemma_find_shift(b, s, x, k);
            lemma_find_from_bounds(s, x, k);
            let at = find_from(s, x, k);
            if k <= at < s.len() {
                assert(all[at as int + 1] == s[at as int]);
                lemma_resolve_shift(s[at as int].1, b, s, at + 1);
            }
        },
        _ => {},
    }
}

/// A binding leaves a type without its variable as it is.
pub proof fn lemma_resolve_unbound(t: Ty, b: Bond)
    requires
        !occurs(b.0, t),
    ensures
        resolve(t, seq![b]) == t,
    decreases t,
{
    let s = seq![b];
    match t {
        Ty::Fn(i, o) => {
            lemma_resolve_unbound(*i, b);
            lemma_resolve_unbound(*o, b);
        },
        Ty::Var(y) => {
            assert(find_from(s, y, 1) == 1);
        },
        _ => {},
    }
}

/// A substitution applies binding by binding: the first, then the rest.
pub proof fn lemma_resolve_compose(t: Ty, b: Bond, s: Seq<Bond>)
    ensures
        resolve(t, seq![b] + s) == resolve(resolve(t, seq![b]), s),
    decreases t,
{
    let one = seq![b];
    let all = seq![b] + s;
    match t {
        Ty::Fn(i, o) => {
            lemma_resolve_compose(*i, b, s);
            lemma_resolve_compose(*o, b, s);
        },
        Ty::Var(y) => {
            assert(find_from(one, y, 1) == 1);
            assert(all[0] == b);
            if y == b.0 {
                lemma_resolve_past_end(b.1, one, 1);
                lemma_resolve_shift(b.1, b, s, 0);
            } else {
                lemma_find_shift(b, s, y, 0);
                lemma_find_from_bounds(s, y, 0);
                let at = find_from(s, y, 0);
                if at < s.len() {
                    assert(all[at as int + 1] == s[at as int]);
                    lemma_resolve_shift(s[at as int].1, b, s, at + 1);
                }
            }
        },
        _ => {},
    }
}

/// What the solver gives is a solution: under it the two sides of every
/// constraint are the same type.
pub proof fn lemma_unify_solves(c: Seq<Constraint>, i: int)
    requires
        unify_spec(c) is Ok,
        0 <= i < c.len(),
    ensures
        resolve(c[i].0, unify_spec(c)->Ok_0) == resolve(c[i].1, unify_spec(c)->Ok_0),
    decreases constraint_vars(c).len(), constraints_size(c),
{
    let lhs = c[0].0;
    let rhs = c[0].1;
    let rest = c.drop_first();
    let s = unify_spec(c)->Ok_0;
    if holds_trivially(lhs, rhs) {
        lemma_measure_rest(c);
        if i > 0 {
            assert(rest[i - 1] == c[i]);
            lemma_unify_solves(rest, i - 1);
        }
    } else if bond_of(lhs, rhs) is Some {
        let b = bond_of(lhs, rhs)->Some_0;
        let next = resolve_all(rest, seq![b]);
        let tail = unify_spec(next)->Ok_0;
        lemma_measure_bound(c);
        assert(s == seq![b] + tail);
        if i == 0 {
            assert(s[0] == b);
            lemma_resolve_shift(b.1, b, tail, 0);
            lemma_resolve_compose(b.1, b, tail);
            lemma_resolve_unbound(b.1, b);
        } else {
            assert(rest[i - 1] == c[i]);
            lemma_unify_solves(next, i - 1);
            lemma_resolve_compose(c[i].0, b, tail);
            lemma_resolve_compose(c[i].1, b, tail);
        }
    } else {
        let n = split_front(lhs, rhs, rest);
        lemma_measure_split(c);
        if i == 0 {
            lemma_unify_solves(n, 0);
            lemma_unify_solves(n, 1);
        } else {
            assert(n[i + 1] == c[i]);
            lemma_unify_solves(n, i + 1);
        }
    }
}

impl TypeChecker {
    /// Whether the type variable occurs in the type.
    pub fn is_appear_in(&self, type_var_name: &String, monotype: &MonoType) -> (found: bool)
        ensures
            found == occurs(type_var_name@, monotype@),
        decreases monotype,
    {
        match monotype {
            MonoType::Int | MonoType::Bool => false,
            MonoType::TypeVariable(x) => *x == *type_var_name,
            MonoType::Fn(i, o) => {
                self.is_appear_in(type_var_name, i) || self.is_appear_in(type_var_name, o)
            },
        }
    }

    /// The type under the substitution: each variable is followed through
    /// the chain of bindings. It never fails.
    pub fn apply_substitutions_for_monotype(
        monotype: &MonoType,
        substitutions: &VecDeque<(String, MonoType)>,
    ) -> (res: Result<MonoType, TypeError>)
        ensures
            res is Ok,
            res->Ok_0@ == resolve(monotype@, bonds_of(substitutions@)),
    {
        Ok(resolve_type(monotype, substitutions, 0))
    }

    /// Solves the constraints from the front, and gives the bindings in the
    /// order in which they were made. It fails with the first pair of types
    /// that cannot be made equal: two different shapes, or a variable and a
    /// type that holds it.
    pub fn unify(&mut self, constraints: &VecDeque<(MonoType, MonoType)>) -> (res: Result<
        VecDeque<(String, MonoType)>,
        TypeError,
    >)
        ensures
            *final(self) == *old(self),
            match unify_spec(constraints_of(constraints@)) {
                Ok(s) => res is Ok && bonds_of(res->Ok_0@) == s,
                Err(e) => res is Err && res->Err_0@ == e,
            },
    {
        solve(constraints)
    }
}

/// The type under the bindings of `substitutions` from `start` on.
fn resolve_type(monotype: &MonoType, substitutions: &VecDeque<(String, MonoType)>, start: usize) -> (res:
    MonoType)
    ensures
        res@ == resolve_from(monotype@, bonds_of(substitutions@), start as nat),
    decreases substitutions@.len() - start, monotype,
{
    let ghost s = bonds_of(substitutions@);
    match monotype {
        MonoType::Int => MonoType::Int,
        MonoType::Bool => MonoType::Bool,
        MonoType::TypeVariable(x) => {
            let mut i: usize = start;
            while i < substitutions.len()
                invariant
                    start <= i,
                    s == bonds_of(substitutions@),
                    monotype@ == Ty::Var(x@),
                    find_from(s, x@, start as nat) == find_from(s, x@, i as nat),
                decreases substitutions.len() - i,
            {
                assert(s[i as int] == (substitutions@[i as int].0@, substitutions@[i as int].1@));
                if substitutions[i].0 == *x {
                    return resolve_type(&substitutions[i].1, substitutions, i + 1);
                }
                i = i + 1;
            }
            MonoType::TypeVariable(x.clone())
        },
        MonoType::Fn(i, o) => MonoType::Fn(
            Box::new(resolve_type(i, substitutions, start)),
            Box::new(resolve_type(o, substitutions, start)),
        ),
    }
}

/// A copy of a collection of constraints.
fn clone_constraints(constraints: &VecDeque<(MonoType, MonoType)>) -> (res: VecDeque<
    (MonoType, MonoType),
>)
    ensures
        constraints_of(res@) == constraints_of(constraints@),
{
    let mut out: VecDeque<(MonoType, MonoType)> = VecDeque::new();
    let mut i: usize = 0;
    while i < constraints.len()
        invariant
            i <= constraints.len(),
            out@.len() == i,
            forall|k: int| 0 <= k < i ==> out@[k].0@ == constraints@[k].0@ && out@[k].1@ == constraints@[k].1@,
        decreases constraints.len() - i,
    {
        out.push_back((constraints[i].0.clone(), constraints[i].1.clone()));
        i = i + 1;
    }
    assert(constraints_of(out@) =~= constraints_of(constraints@));
    out
}

/// Every constraint of the queue under the one binding.
fn resolve_queue(queue: &VecDeque<(MonoType, MonoType)>, single: &VecDeque<(String, MonoType)>) -> (res:
    VecDeque<(MonoType, MonoType)>)
    ensures
        constraints_of(res@) == resolve_all(constraints_of(queue@), bonds_of(single@)),
{
    let mut out: VecDeque<(MonoType, MonoType)> = VecDeque::new();
    let mut i: usize = 0;
    while i < queue.len()
        invariant
            i <= queue.len(),
            out@.len() == i,
            forall|k: int|
                0 <= k < i ==> out@[k].0@ == resolve(queue@[k].0@, bonds_of(single@)) && out@[k].1@
                    == resolve(queue@[k].1@, bonds_of(single@)),
        decreases queue.len() - i,
    {
        let l = resolve_type(&queue[i].0, single, 0);
        let r = resolve_type(&queue[i].1, single, 0);
        out.push_back((l, r));
        i = i + 1;
    }
    assert(constraints_of(out@) =~= resolve_all(constraints_of(queue@), bonds_of(single@)));
    out
}

/// The solver: a queue of constraints and the bindings made so far.
fn solve(constraints: &VecDeque<(MonoType, MonoType)>) -> (res: Result<
    VecDeque<(String, MonoType)>,
    TypeError,
>)
    ensures
        match unify_spec(constraints_of(constraints@)) {
            Ok(s) => res is Ok && bonds_of(res->Ok_0@) == s,
            Err(e) => res is Err && res->Err_0@ == e,
        },
{
    let ghost goal = unify_spec(constraints_of(constraints@));
    let mut queue = clone_constraints(constraints);
    let mut made: VecDeque<(String, MonoType)> = VecDeque::new();
    proof {
        assert(bonds_of(made@) =~= Seq::<Bond>::empty());
        assert(Seq::<Bond>::empty() + unify_spec(constraints_of(queue@))->Ok_0
            =~= unify_spec(constraints_of(queue@))->Ok_0);
    }
    while queue.len() > 0
        invariant
            goal == unify_spec(constraints_of(constraints@)),
            goal == after(bonds_of(made@), unify_spec(constraints_of(queue@))),
        decreases constraint_vars(constraints_of(queue@)).len(), constraints_size(constraints_of(queue@)),
    {
        let ghost c = constraints_of(queue@);
        let ghost before = queue@;
        let head = queue.pop_front();
        let (lhs, rhs) = head.unwrap();
        proof {
            assert(constraints_of(queue@) =~= c.drop_first());
            assert(c[0] == (lhs@, rhs@));
        }
        let trivial = match (&lhs, &rhs) {
            (MonoType::Int, MonoType::Int) => true,
            (MonoType::Bool, MonoType::Bool) => true,
            (MonoType::TypeVariable(x), MonoType::TypeVariable(y)) => *x == *y,
            _ => false,
        };
        assert(trivial == holds_trivially(lhs@, rhs@));
        if trivial {
            proof {
                lemma_measure_rest(c);
            }
        } else {
            let bond = pick_bond(lhs, rhs);
            match bond {
                Ok((x, t)) => {
                    let mut single: VecDeque<(String, MonoType)> = VecDeque::new();
                    single.push_back((x, t));
                    proof {
                        assert(bonds_of(single@) =~= seq![(single@[0].0@, single@[0].1@)]);
                        lemma_measure_bound(c);
                    }
                    let ghost old_made = bonds_of(made@);
                    let ghost b = bonds_of(single@)[0];
                    queue = resolve_queue(&queue, &single);
                    let entry = single.pop_front().unwrap();
                    made.push_back(entry);
                    proof {
                        assert(bonds_of(made@) =~= old_made + seq![b]);
                        let tail = unify_spec(constraints_of(queue@));
                        if tail is Ok {
                            assert((old_made + seq![b]) + tail->Ok_0 =~= old_made + (seq![b]
                                + tail->Ok_0));
                        }
                    }
                },
                Err((lhs, rhs)) => {
                    match (lhs, rhs) {
                        (MonoType::Fn(i1, o1), MonoType::Fn(i2, o2)) => {
                            queue.push_front((*o1, *o2));
                            queue.push_front((*i1, *i2));
                            proof {
                                lemma_measure_split(c);
                                assert(constraints_of(queue@) =~= split_front(
                                    c[0].0,
                                    c[0].1,
                                    c.drop_first(),
                                ));
                            }
                        },
                        (lhs, rhs) => {
                            assert(unify_spec(c) == Err::<Seq<Bond>, TypeFault>(
                                TypeFault::UnsolvableConstraints(lhs@, rhs@),
                            ));
                            return Err(TypeError::UnsolvableConstraints(lhs, rhs));
                        },
                    }
                },
            }
        }
    }
    proof {
        assert(constraints_of(queue@).len() == 0);
        assert(bonds_of(made@) + Seq::<Bond>::empty() =~= bonds_of(made@));
    }
    Ok(made)
}

/// The binding that the two sides of a constraint give, or the two sides
/// back where they give none.
fn pick_bond(lhs: MonoType, rhs: MonoType) -> (res: Result<(String, MonoType), (MonoType, MonoType)>)
    ensures
        match bond_of(lhs@, rhs@) {
            Some(b) => res is Ok && res->Ok_0.0@ == b.0 && res->Ok_0.1@ == b.1,
            None => res is Err && res->Err_0.0@ == lhs@ && res->Err_0.1@ == rhs@,
        },
{
    let left = match &lhs {
        MonoType::TypeVariable(x) => !occurs_in(x, &rhs),
        _ => false,
    };
    if left {
        match lhs {
            MonoType::TypeVariable(x) => Ok((x, rhs)),
            other => Err((other, rhs)),
        }
    } else {
        let right = match &rhs {
            MonoType::TypeVariable(x) => !occurs_in(x, &lhs),
            _ => false,
        };
        if right {
            match rhs {
                MonoType::TypeVariable(x) => Ok((x, lhs)),
                other => Err((lhs, other)),
            }
        } else {
            Err((lhs, rhs))
        }
    }
}

/// Whether the type variable occurs in the type.
fn occurs_in(name: &String, monotype: &MonoType) -> (found: bool)
    ensures
        found == occurs(name@, monotype@),
    decreases monotype,
{
    match monotype {
        MonoType::Int | MonoType::Bool => false,
        MonoType::TypeVariable(x) => *x == *name,
        MonoType::Fn(i, o) => occurs_in(name, i) || occurs_in(name, o),
    }
}

} // verus!

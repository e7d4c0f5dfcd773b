use vstd::prelude::*;
use std::collections::VecDeque;
use crate::ast::{BinOp, Expr, Term};
use crate::environment::{
    collect_type_vars, env_free_vars, env_insert, env_lookup, free_vars, insert, keep_outside,
    lookup, names_outside, Entry,
};
use crate::names::{numbered_name, NameCounter};
pub use crate::types::{MonoType, PolyType, Type, TypeError};
use crate::types::{
    bonds_of, constraints_of, entries_of, names_of, Binding, Bond, Constraint, Scheme, Ty, TypeFault,
};
use crate::unify::{resolve, unify_spec};

verus! {

/// Hands out the names of type variables: an apostrophe and a number that
/// grows by one with each name.
#[derive(Debug)]
pub struct TypeVariableNameGenerator {
    counter: NameCounter,
}

impl TypeVariableNameGenerator {
    /// The counter is sound.
    pub closed spec fn wf(&self) -> bool {
        self.counter.wf()
    }

    /// How many names were handed out.
    pub closed spec fn issued(&self) -> nat {
        self.counter.value()
    }

    /// A generator that has handed out no name yet.
    pub fn new() -> (res: Self)
        ensures
            res.wf(),
            res.issued() == 0,
    {
        Self { counter: NameCounter::new() }
    }

    /// The next name.
    pub fn next(&mut self) -> (res: String)
        requires
            old(self).wf(),
        ensures
            final(self).wf(),
            final(self).issued() == old(self).issued() + 1,
            res@ == type_variable_name(final(self).issued()),
    {
        self.counter.advance();
        self.counter.name("'")
    }
}

/// The name of the `n`-th type variable of a run.
pub open spec fn type_variable_name(n: nat) -> Seq<char> {
    numbered_name("'"@, n)
}

/// Infers the types of expressions.
#[derive(Debug)]
pub struct TypeChecker {
    /// Type variable name generator.
    type_var_name_generator: TypeVariableNameGenerator,
}

impl TypeChecker {
    /// The generator is sound.
    pub closed spec fn wf(&self) -> bool {
        self.type_var_name_generator.wf()
    }

    /// How many type variables this checker has made.
    pub closed spec fn issued(&self) -> nat {
        self.type_var_name_generator.issued()
    }

    /// A checker that has made no type variable yet.
    pub fn new() -> (res: Self)
        ensures
            res.wf(),
            res.issued() == 0,
    {
        Self { type_var_name_generator: TypeVariableNameGenerator::new() }
    }
}

/// The bindings whose variable is not among `bound`, in their order.
pub open spec fn drop_bound(s: Seq<Bond>, bound: Seq<Seq<char>>) -> Seq<Bond>
    decreases s.len(),
{
    if s.len() == 0 {
        s
    } else if bound.contains(s.last().0) {
        drop_bound(s.drop_last(), bound)
    } else {
        drop_bound(s.drop_last(), bound).push(s.last())
    }
}

/// A scheme under a substitution: its quantified variables stay as they
/// are.
pub open spec fn resolve_scheme(p: Scheme, s: Seq<Bond>) -> Scheme {
    Scheme { bound: p.bound, body: resolve(p.body, drop_bound(s, p.bound)) }
}

/// An entry of the environment under a substitution.
pub open spec fn resolve_binding(b: Binding, s: Seq<Bond>) -> Binding {
    match b {
        Binding::Mono(t) => Binding::Mono(resolve(t, s)),
        Binding::Poly(p) => Binding::Poly(resolve_scheme(p, s)),
    }
}

/// Every entry of the environment under a substitution.
pub open spec fn resolve_env(env: Seq<Entry>, s: Seq<Bond>) -> Seq<Entry> {
    Seq::new(env.len(), |i: int| (env[i].0, resolve_binding(env[i].1, s)))
}

/// One fresh type variable for each quantified variable, made after `c`
/// others.
pub open spec fn fresh_bonds(bound: Seq<Seq<char>>, c: nat) -> Seq<Bond> {
    Seq::new(bound.len(), |i: int| (bound[i], Ty::Var(type_variable_name((c + i + 1) as nat))))
}

/// The scheme's body with each quantified variable replaced by a fresh one.
pub open spec fn instantiate_spec(p: Scheme, c: nat) -> Ty {
    resolve(p.body, fresh_bonds(p.bound, c))
}

/// The environment in which the body of a `let` is typed: the constraints of
/// the bound expression are solved, the solution is applied to its type and
/// to the environment, and the name is bound to that type, quantified over
/// the variables that are free in it and not in the environment.
pub open spec fn generalize_spec(cs: Seq<Constraint>, env: Seq<Entry>, x: Seq<char>, t: Ty) -> Result<
    Seq<Entry>,
    TypeFault,
> {
    match unify_spec(cs) {
        Err(e) => Err(e),
        Ok(s) => {
            let u = resolve(t, s);
            let new_env = resolve_env(env, s);
            let quantified = keep_outside(free_vars(Binding::Mono(u)), env_free_vars(new_env));
            if quantified.len() == 0 {
                Ok(env_insert(new_env, x, Binding::Mono(u)))
            } else {
                Ok(env_insert(new_env, x, Binding::Poly(Scheme { bound: quantified, body: u })))
            }
        },
    }
}

/// The type of the result of a binary operator.
pub open spec fn result_type(op: BinOp) -> Ty {
    match op {
        BinOp::Plus | BinOp::Times => Ty::Int,
        BinOp::Le => Ty::Bool,
    }
}

/// The type and the constraints of an expression in an environment, for a
/// checker that has made `c` type variables, and the number it has made
/// afterwards; or why the expression has no type.
pub open spec fn infer(env: Seq<Entry>, e: Term, c: nat) -> Result<(Ty, Seq<Constraint>, nat), TypeFault>
    decreases e,
{
    match e {
        Term::Int(_) => Ok((Ty::Int, Seq::empty(), c)),
        Term::Bool(_) => Ok((Ty::Bool, Seq::empty(), c)),
        Term::Var(x) => match env_lookup(env, x) {
            None => Err(TypeFault::UnboundVariable(x)),
            Some(Binding::Mono(t)) => Ok((t, Seq::empty(), c)),
            Some(Binding::Poly(p)) => Ok((instantiate_spec(p, c), Seq::empty(), c + p.bound.len())),
        },
        Term::Bin { op, e1, e2 } => {
            let fresh = Ty::Var(type_variable_name(c + 1));
            match infer(env, *e1, c + 1) {
                Err(f) => Err(f),
                Ok((t1, c1, n1)) => match infer(env, *e2, n1) {
                    Err(f) => Err(f),
                    Ok((t2, c2, n2)) => Ok(
                        (
                            fresh,
                            c1 + c2 + seq![(t1, Ty::Int), (t2, Ty::Int), (fresh, result_type(op))],
                            n2,
                        ),
                    ),
                },
            }
        },
        Term::If { guard, e1, e2 } => {
            let fresh = Ty::Var(type_variable_name(c + 1));
            match infer(env, *guard, c + 1) {
                Err(f) => Err(f),
                Ok((tg, cg, ng)) => match infer(env, *e1, ng) {
                    Err(f) => Err(f),
                    Ok((t1, c1, n1)) => match infer(env, *e2, n1) {
                        Err(f) => Err(f),
                        Ok((t2, c2, n2)) => Ok(
                            (
                                fresh,
                                cg + c1 + c2 + seq![(tg, Ty::Bool), (fresh, t1), (fresh, t2)],
                                n2,
                            ),
                        ),
                    },
                },
            }
        },
        Term::Fn { arg, body } => {
            let fresh = Ty::Var(type_variable_name(c + 1));
            match infer(env_insert(env, arg, Binding::Mono(fresh)), *body, c + 1) {
                Err(f) => Err(f),
                Ok((t, cs, n)) => Ok((Ty::Fn(Box::new(fresh), Box::new(t)), cs, n)),
            }
        },
        Term::Let { x, e1, e2 } => match infer(env, *e1, c) {
            Err(f) => Err(f),
            Ok((t1, c1, n1)) => match generalize_spec(c1, env, x, t1) {
                Err(f) => Err(f),
                Ok(new_env) => match infer(new_env, *e2, n1) {
                    Err(f) => Err(f),
                    Ok((t2, c2, n2)) => Ok((t2, c1 + c2, n2)),
                },
            },
        },
        Term::Apply { func, arg } => {
            let fresh = Ty::Var(type_variable_name(c + 1));
            match infer(env, *func, c + 1) {
                Err(f) => Err(f),
                Ok((tf, cf, nf)) => match infer(env, *arg, nf) {
                    Err(f) => Err(f),
                    Ok((ta, ca, na)) => Ok(
                        (fresh, cf + ca + seq![(tf, Ty::Fn(Box::new(ta), Box::new(fresh)))], na),
                    ),
                },
            }
        },
    }
}

/// The type of a closed expression, for a checker that has made `c` type
/// variables: its constraints are made, solved, and the solution applied to
/// its type.
pub open spec fn type_of(e: Term, c: nat) -> Result<Ty, TypeFault> {
    match infer(Seq::empty(), e, c) {
        Err(f) => Err(f),
        Ok((t, cs, _)) => match unify_spec(cs) {
            Err(f) => Err(f),
            Ok(s) => Ok(resolve(t, s)),
        },
    }
}

/// Whether what the constraint generator returned is what `infer` says, with
/// the checker at `issued` type variables afterwards.
pub open spec fn inferred(
    res: Result<(MonoType, VecDeque<(MonoType, MonoType)>), TypeError>,
    model: Result<(Ty, Seq<Constraint>, nat), TypeFault>,
    issued: nat,
) -> bool {
    match model {
        Ok((t, cs, n)) => res is Ok && res->Ok_0.0@ == t && constraints_of(res->Ok_0.1@) == cs
            && issued == n,
        Err(f) => res is Err && res->Err_0@ == f,
    }
}

/// The bindings whose variable is not quantified.
fn unbound_bindings(substitutions: &VecDeque<(String, MonoType)>, bound: &Vec<String>) -> (res: VecDeque<
    (String, MonoType),
>)
    ensures
        bonds_of(res@) == drop_bound(bonds_of(substitutions@), names_of(bound@)),
{
    let ghost all = bonds_of(substitutions@);
    let mut out: VecDeque<(String, MonoType)> = VecDeque::new();
    let mut i: usize = 0;
    proof {
        assert(bonds_of(out@) =~= drop_bound(all.take(0), names_of(bound@)));
    }
    while i < substitutions.len()
        invariant
            i <= substitutions.len(),
            all == bonds_of(substitutions@),
            bonds_of(out@) == drop_bound(all.take(i as int), names_of(bound@)),
        decreases substitutions.len() - i,
    {
        let ghost part = all.take(i + 1);
        let ghost before = bonds_of(out@);
        proof {
            assert(part.last() == all[i as int]);
            assert(part.drop_last() =~= all.take(i as int));
        }
        if !crate::types::contains_name(bound, &substitutions[i].0) {
            out.push_back((substitutions[i].0.clone(), substitutions[i].1.clone()));
            proof {
                assert(bonds_of(out@) =~= before.push(all[i as int]));
            }
        }
        i = i + 1;
    }
    proof {
        assert(all.take(i as int) =~= all);
    }
    out
}

/// Every entry of the environment under the substitution.
fn resolve_environment(env: &Vec<(String, Type)>, substitutions: &VecDeque<(String, MonoType)>) -> (res:
    Vec<(String, Type)>)
    ensures
        entries_of(res@) == resolve_env(entries_of(env@), bonds_of(substitutions@)),
{
    let mut out: Vec<(String, Type)> = Vec::new();
    let mut i: usize = 0;
    while i < env.len()
        invariant
            i <= env.len(),
            out@.len() == i,
            forall|k: int|
                0 <= k < i ==> out@[k].0@ == env@[k].0@ && out@[k].1@ == resolve_binding(
                    env@[k].1@,
                    bonds_of(substitutions@),
                ),
        decreases env.len() - i,
    {
        let entry = match &env[i].1 {
            Type::MonoType(monotype) => {
                match TypeChecker::apply_substitutions_for_monotype(monotype, substitutions) {
                    Ok(t) => Type::MonoType(t),
                    Err(_) => Type::MonoType(monotype.clone()),
                }
            },
            Type::PolyType(polytype) => {
                match TypeChecker::apply_substitutions_for_polytype(polytype, substitutions) {
                    Ok(p) => Type::PolyType(p),
                    Err(_) => Type::PolyType(polytype.clone()),
                }
            },
        };
        out.push((env[i].0.clone(), entry));
        i = i + 1;
    }
    assert(entries_of(out@) =~= resolve_env(entries_of(env@), bonds_of(substitutions@)));
    out
}

/// The second collection behind the first.
fn joined(first: VecDeque<(MonoType, MonoType)>, second: VecDeque<(MonoType, MonoType)>) -> (res: VecDeque<
    (MonoType, MonoType),
>)
    ensures
        constraints_of(res@) == constraints_of(first@) + constraints_of(second@),
{
    let mut out = first;
    let mut rest = second;
    out.append(&mut rest);
    assert(constraints_of(out@) =~= constraints_of(first@) + constraints_of(second@));
    out
}

/// The collection with one more constraint at its end.
fn with_constraint(first: VecDeque<(MonoType, MonoType)>, lhs: MonoType, rhs: MonoType) -> (res: VecDeque<
    (MonoType, MonoType),
>)
    ensures
        constraints_of(res@) == constraints_of(first@).push((lhs@, rhs@)),
{
    let mut out = first;
    out.push_back((lhs, rhs));
    assert(constraints_of(out@) =~= constraints_of(first@).push((lhs@, rhs@)));
    out
}

/// A collection of no constraints.
fn no_constraints() -> (res: VecDeque<(MonoType, MonoType)>)
    ensures
        constraints_of(res@) == Seq::<Constraint>::empty(),
{
    let out: VecDeque<(MonoType, MonoType)> = VecDeque::new();
    assert(constraints_of(out@) =~= Seq::<Constraint>::empty());
    out
}

impl TypeChecker {
    /// A type variable that this checker has not made before.
    fn fresh(&mut self) -> (res: MonoType)
        requires
            old(self).wf(),
        ensures
            final(self).wf(),
            final(self).issued() == old(self).issued() + 1,
            res@ == Ty::Var(type_variable_name(final(self).issued())),
    {
        MonoType::TypeVariable(self.type_var_name_generator.next())
    }

    /// The type of a closed expression: its constraints are made and solved,
    /// and the solution is applied to its type. It fails with the name of a
    /// variable that nothing binds, or with the first two types that cannot
    /// be made equal.
    pub fn type_check(&mut self, expr: &Expr) -> (res: Result<MonoType, TypeError>)
        requires
            old(self).wf(),
        ensures
            final(self).wf(),
            final(self).issued() >= old(self).issued(),
            infer(Seq::empty(), expr@, old(self).issued()) is Ok ==> final(self).issued() == infer(
                Seq::empty(),
                expr@,
                old(self).issued(),
            )->Ok_0.2,
            match type_of(expr@, old(self).issued()) {
                Ok(t) => res is Ok && res->Ok_0@ == t,
                Err(f) => res is Err && res->Err_0@ == f,
            },
    {
        let env: Vec<(String, Type)> = Vec::new();
        assert(entries_of(env@) =~= Seq::<Entry>::empty());
        match self.build_constraints(&env, expr) {
            Err(e) => Err(e),
            Ok((t, c)) => match self.unify(&c) {
                Err(e) => Err(e),
                Ok(substitutions) => Self::apply_substitutions_for_monotype(&t, &substitutions),
            },
        }
    }

    /// The type of an expression in an environment, and the equalities
    /// between types that have to hold for it.
    pub fn build_constraints(&mut self, env: &Vec<(String, Type)>, expr: &Expr) -> (res: Result<
        (MonoType, VecDeque<(MonoType, MonoType)>),
        TypeError,
    >)
        requires
            old(self).wf(),
        ensures
            final(self).wf(),
            final(self).issued() >= old(self).issued(),
            inferred(res, infer(entries_of(env@), expr@, old(self).issued()), final(self).issued()),
        decreases expr,
    {
        match expr {
            Expr::Int(_) => Ok((MonoType::Int, no_constraints())),
            Expr::Bool(_) => Ok((MonoType::Bool, no_constraints())),
            Expr::Var(x) => {
                match lookup(env, x) {
                    None => Err(TypeError::UnboundVariable(x.clone())),
                    Some(Type::MonoType(monotype)) => Ok((monotype, no_constraints())),
                    Some(Type::PolyType(polytype)) => {
                        match self.instantiate(&polytype) {
                            Ok(monotype) => Ok((monotype, no_constraints())),
                            Err(e) => Err(e),
                        }
                    },
                }
            },
            Expr::Bin { op, e1, e2 } => {
                let fresh = self.fresh();
                let (t1, c1) = match self.build_constraints(env, e1) {
                    Ok(r) => r,
                    Err(e) => {
                        return Err(e);
                    },
                };
                let (t2, c2) = match self.build_constraints(env, e2) {
                    Ok(r) => r,
                    Err(e) => {
                        return Err(e);
                    },
                };
                let result_type = match op {
                    BinOp::Plus | BinOp::Times => MonoType::Int,
                    BinOp::Le => MonoType::Bool,
                };
                let ghost a = constraints_of(c1@);
                let ghost b = constraints_of(c2@);
                let constraints = joined(c1, c2);
                let constraints = with_constraint(constraints, t1, MonoType::Int);
                let constraints = with_constraint(constraints, t2, MonoType::Int);
                let constraints = with_constraint(constraints, fresh.clone(), result_type);
                proof {
                    assert(constraints_of(constraints@) =~= a + b + seq![
                        (t1@, Ty::Int),
                        (t2@, Ty::Int),
                        (fresh@, result_type@),
                    ]);
                }
                Ok((fresh, constraints))
            },
            Expr::If { guard, e1, e2 } => {
                let fresh = self.fresh();
                let (tg, cg) = match self.build_constraints(env, guard) {
                    Ok(r) => r,
                    Err(e) => {
                        return Err(e);
                    },
                };
                let (t1, c1) = match self.build_constraints(env, e1) {
                    Ok(r) => r,
                    Err(e) => {
                        return Err(e);
                    },
                };
                let (t2, c2) = match self.build_constraints(env, e2) {
                    Ok(r) => r,
                    Err(e) => {
                        return Err(e);
                    },
                };
                let ghost g = constraints_of(cg@);
                let ghost a = constraints_of(c1@);
                let ghost b = constraints_of(c2@);
                let constraints = joined(joined(cg, c1), c2);
                let constraints = with_constraint(constraints, tg, MonoType::Bool);
                let constraints = with_constraint(constraints, fresh.clone(), t1);
                let constraints = with_constraint(constraints, fresh.clone(), t2);
                proof {
                    assert(constraints_of(constraints@) =~= g + a + b + seq![
                        (tg@, Ty::Bool),
                        (fresh@, t1@),
                        (fresh@, t2@),
                    ]);
                }
                Ok((fresh, constraints))
            },
            Expr::Fn { arg, body } => {
                let fresh = self.fresh();
                let new_env = insert(env, arg.clone(), Type::MonoType(fresh.clone()));
                match self.build_constraints(&new_env, body) {
                    Ok((t, c)) => Ok((MonoType::Fn(Box::new(fresh), Box::new(t)), c)),
                    Err(e) => Err(e),
                }
            },
            Expr::Let { x, e1, e2 } => {
                let (t1, c1) = match self.build_constraints(env, e1) {
                    Ok(r) => r,
                    Err(e) => {
                        return Err(e);
                    },
                };
                let new_env = match self.generalize(&c1, env, (x, &t1)) {
                    Ok(r) => r,
                    Err(e) => {
                        return Err(e);
                    },
                };
                let (t2, c2) = match self.build_constraints(&new_env, e2) {
                    Ok(r) => r,
                    Err(e) => {
                        return Err(e);
                    },
                };
                Ok((t2, joined(c1, c2)))
            },
            Expr::Apply { func, arg } => {
                let fresh = self.fresh();
                let (tf, cf) = match self.build_constraints(env, func) {
                    Ok(r) => r,
                    Err(e) => {
                        return Err(e);
                    },
                };
                let (ta, ca) = match self.build_constraints(env, arg) {
                    Ok(r) => r,
                    Err(e) => {
                        return Err(e);
                    },
                };
                let ghost a = constraints_of(cf@);
                let ghost b = constraints_of(ca@);
                let wanted = MonoType::Fn(Box::new(ta), Box::new(fresh.clone()));
                let constraints = with_constraint(joined(cf, ca), tf, wanted);
                proof {
                    assert(constraints_of(constraints@) =~= a + b + seq![(tf@, wanted@)]);
                }
                Ok((fresh, constraints))
            },
        }
    }

    /// A scheme under a substitution, which leaves its quantified variables
    /// alone. It never fails.
    pub fn apply_substitutions_for_polytype(
        polytype: &PolyType,
        substitutions: &VecDeque<(String, MonoType)>,
    ) -> (res: Result<PolyType, TypeError>)
        ensures
            res is Ok,
            res->Ok_0@ == resolve_scheme(polytype@, bonds_of(substitutions@)),
    {
        let filtered_substitutions = unbound_bindings(substitutions, &polytype.bounded_type_vars);
        match Self::apply_substitutions_for_monotype(&polytype.typ, &filtered_substitutions) {
            Ok(typ) => Ok(
                PolyType {
                    bounded_type_vars: crate::types::clone_names(&polytype.bounded_type_vars),
                    typ,
                },
            ),
            Err(e) => Err(e),
        }
    }

    /// The scheme's body with a fresh type variable for each quantified one.
    /// It never fails.
    pub fn instantiate(&mut self, polytype: &PolyType) -> (res: Result<MonoType, TypeError>)
        requires
            old(self).wf(),
        ensures
            final(self).wf(),
            final(self).issued() == old(self).issued() + polytype@.bound.len(),
            res is Ok,
            res->Ok_0@ == instantiate_spec(polytype@, old(self).issued()),
    {
        let ghost c = self.issued();
        let ghost bound = names_of(polytype.bounded_type_vars@);
        let mut substitutions: VecDeque<(String, MonoType)> = VecDeque::new();
        let mut i: usize = 0;
        while i < polytype.bounded_type_vars.len()
            invariant
                self.wf(),
                i <= polytype.bounded_type_vars.len(),
                self.issued() == c + i,
                bound == names_of(polytype.bounded_type_vars@),
                substitutions@.len() == i,
                forall|k: int|
                    0 <= k < i ==> substitutions@[k].0@ == bound[k] && substitutions@[k].1@
                        == Ty::Var(type_variable_name((c + k + 1) as nat)),
            decreases polytype.bounded_type_vars.len() - i,
        {
            let fresh = self.fresh();
            substitutions.push_back((polytype.bounded_type_vars[i].clone(), fresh));
            i = i + 1;
        }
        assert(bonds_of(substitutions@) =~= fresh_bonds(bound, c));
        Self::apply_substitutions_for_monotype(&polytype.typ, &substitutions)
    }

    /// The environment for the body of a `let`: the constraints of the bound
    /// expression are solved, and the name is bound to its type under the
    /// solution, quantified over the variables that are free in it and not
    /// in the environment under the solution. It fails where the constraints
    /// have no solution.
    pub fn generalize(
        &mut self,
        constraints: &VecDeque<(MonoType, MonoType)>,
        env: &Vec<(String, Type)>,
        var_and_type: (&String, &MonoType),
    ) -> (res: Result<Vec<(String, Type)>, TypeError>)
        ensures
            *final(self) == *old(self),
            match generalize_spec(
                constraints_of(constraints@),
                entries_of(env@),
                var_and_type.0@,
                var_and_type.1@,
            ) {
                Ok(e) => res is Ok && entries_of(res->Ok_0@) == e,
                Err(f) => res is Err && res->Err_0@ == f,
            },
    {
        let substitutions = match self.unify(constraints) {
            Ok(s) => s,
            Err(e) => {
                return Err(e);
            },
        };
        let u = match Self::apply_substitutions_for_monotype(var_and_type.1, &substitutions) {
            Ok(u) => u,
            Err(e) => {
                return Err(e);
            },
        };
        let new_env = resolve_environment(env, &substitutions);
        let free_vars_in_u = self.free_type_vars(&Type::MonoType(u.clone()));
        let free_vars_in_new_env = self.environment_free_vars(&new_env);
        let diff = names_outside(&free_vars_in_u, &free_vars_in_new_env);
        if diff.len() == 0 {
            Ok(insert(&new_env, var_and_type.0.clone(), Type::MonoType(u)))
        } else {
            Ok(
                insert(
                    &new_env,
                    var_and_type.0.clone(),
                    Type::PolyType(PolyType { bounded_type_vars: diff, typ: u }),
                ),
            )
        }
    }

    /// The free type variables of an entry of the environment: those of a
    /// type, each once, in the order of their first occurrence; of a scheme,
    /// those that it does not quantify.
    pub fn free_type_vars(&self, typ: &Type) -> (res: Vec<String>)
        ensures
            names_of(res@) == free_vars(typ@),
    {
        let mut seen: Vec<String> = Vec::new();
        assert(names_of(seen@) =~= Seq::<Seq<char>>::empty());
        match typ {
            Type::MonoType(monotype) => {
                collect_type_vars(monotype, &mut seen);
                seen
            },
            Type::PolyType(polytype) => {
                collect_type_vars(&polytype.typ, &mut seen);
                names_outside(&seen, &polytype.bounded_type_vars)
            },
        }
    }

    /// The free type variables of all the entries of an environment.
    fn environment_free_vars(&self, env: &Vec<(String, Type)>) -> (res: Vec<String>)
        ensures
            names_of(res@) == env_free_vars(entries_of(env@)),
    {
        let ghost all = entries_of(env@);
        let mut out: Vec<String> = Vec::new();
        let mut i: usize = 0;
        proof {
            assert(names_of(out@) =~= env_free_vars(all.take(0)));
        }
        while i < env.len()
            invariant
                i <= env.len(),
                all == entries_of(env@),
                names_of(out@) == env_free_vars(all.take(i as int)),
            decreases env.len() - i,
        {
            let ghost part = all.take(i + 1);
            let ghost before = out@;
            proof {
                assert(part.last() == all[i as int]);
                assert(part.drop_last() =~= all.take(i as int));
            }
            let mut more = self.free_type_vars(&env[i].1);
            let ghost added = more@;
            out.append(&mut more);
            proof {
                assert(names_of(out@) =~= names_of(before) + names_of(added));
            }
            i = i + 1;
        }
        proof {
            assert(all.take(i as int) =~= all);
        }
        out
    }
}

} // verus!

use vstd::prelude::*;
use crate::ast::{BinOp, Expr, Term};
use crate::environment::names_outside;
use crate::names::NameCounter;
use crate::substitution::{
    captures, free_list, free_names, lemma_free_list_members, pending, rename, subst_value,
    variable_name,
};
use crate::types::{contains_name, names_of};

verus! {

/// Why an evaluation or a substitution gave no result.
#[derive(Debug, PartialEq, Eq)]
pub enum InterpretError {
    UnboundValue(String),
    NotAValue,
}

/// The model of an evaluator's error.
pub enum Fault {
    UnboundValue(Seq<char>),
    NotAValue,
}

impl View for InterpretError {
    type V = Fault;

    open spec fn view(&self) -> Fault {
        match self {
            InterpretError::UnboundValue(x) => Fault::UnboundValue(x@),
            InterpretError::NotAValue => Fault::NotAValue,
        }
    }
}

impl Clone for InterpretError {
    fn clone(&self) -> (res: InterpretError)
        ensures
            res@ == self@,
    {
        match self {
            InterpretError::UnboundValue(x) => InterpretError::UnboundValue(x.clone()),
            InterpretError::NotAValue => InterpretError::NotAValue,
        }
    }
}

/// Hands out the names for renamed parameters: a dollar sign and a number
/// that grows by one with each name.
#[derive(Debug)]
pub struct VariableNameGenerator {
    counter: NameCounter,
}

impl VariableNameGenerator {
    /// The counter is sound.
    pub closed spec fn wf(&self) -> bool {
        self.counter.wf()
    }

    /// How many names were handed out.
    pub closed spec fn issued(&self) -> nat {
        self.counter.value()
    }

    /// A generator that has handed out no name yet.
    pub fn new() -> (res: Self)
        ensures
            res.wf(),
            res.issued() == 0,
    {
        VariableNameGenerator { counter: NameCounter::new() }
    }

    /// The next name.
    pub fn next(&mut self) -> (res: String)
        requires
            old(self).wf(),
        ensures
            final(self).wf(),
            final(self).issued() == old(self).issued() + 1,
            res@ == variable_name(final(self).issued()),
    {
        self.counter.advance();
        self.counter.name("$")
    }
}

impl Clone for VariableNameGenerator {
    fn clone(&self) -> (res: VariableNameGenerator)
        ensures
            res.wf() == self.wf(),
            res.issued() == self.issued(),
    {
        VariableNameGenerator { counter: self.counter.clone() }
    }
}

/// How an evaluation with a bound on its depth ends.
pub enum Outcome {
    /// With this term.
    Gives(Term),
    /// At a variable that nothing binds.
    UnboundValue(Seq<char>),
    /// At a guard that is no boolean, an operand that is no integer or a
    /// callee that is no function.
    Stuck,
    /// At a sum or a product that no `i64` holds.
    Overflow,
    /// At the bound.
    OutOfFuel,
}

/// What a binary operator gives for two integers.
pub open spec fn apply_op(op: BinOp, a: int, b: int) -> Outcome {
    match op {
        BinOp::Plus => if i64::MIN <= a + b <= i64::MAX {
            Outcome::Gives(Term::Int(a + b))
        } else {
            Outcome::Overflow
        },
        BinOp::Times => if i64::MIN <= a * b <= i64::MAX {
            Outcome::Gives(Term::Int(a * b))
        } else {
            Outcome::Overflow
        },
        BinOp::Le => Outcome::Gives(Term::Bool(a <= b)),
    }
}

/// The evaluation of `e` by an evaluator that has made `c` names, to a depth
/// of at most `fuel`, and the number of names it has made at the end. A
/// value is its own result and a variable is unbound; any other term is
/// reduced, and what this gives is evaluated again unless it is a value.
pub open spec fn run(fuel: nat, e: Term, c: nat) -> (Outcome, nat)
    decreases fuel, 0nat,
{
    match e {
        Term::Int(_) | Term::Bool(_) | Term::Fn { .. } => (Outcome::Gives(e), c),
        Term::Var(x) => (Outcome::UnboundValue(x), c),
        _ => if fuel == 0 {
            (Outcome::OutOfFuel, c)
        } else {
            let f = (fuel - 1) as nat;
            let (o, n) = match e {
                Term::Let { x, e1, e2 } => run_let(f, x, *e1, *e2, c),
                Term::If { guard, e1, e2 } => run_if(f, *guard, *e1, *e2, c),
                Term::Bin { op, e1, e2 } => run_bin(f, op, *e1, *e2, c),
                Term::Apply { func, arg } => run_apply(f, *func, *arg, c),
                _ => (Outcome::Stuck, c),
            };
            match o {
                Outcome::Gives(r) => if r.is_value() {
                    (o, n)
                } else {
                    run(f, r, n)
                },
                _ => (o, n),
            }
        },
    }
}

/// `let x = e1 in e2`: the value of `e1` is put for `x` in `e2`, and the
/// result is evaluated.
pub open spec fn run_let(fuel: nat, x: Seq<char>, e1: Term, e2: Term, c: nat) -> (Outcome, nat)
    decreases fuel, 1nat,
{
    let (o1, c1) = run(fuel, e1, c);
    match o1 {
        Outcome::Gives(v1) => {
            let (e, c2) = subst_value(e2, v1, x, c1);
            run(fuel, e, c2)
        },
        _ => (o1, c1),
    }
}

/// `if guard then e1 else e2`: the guard is evaluated, then the one branch
/// that it chooses.
pub open spec fn run_if(fuel: nat, guard: Term, e1: Term, e2: Term, c: nat) -> (Outcome, nat)
    decreases fuel, 1nat,
{
    let (og, cg) = run(fuel, guard, c);
    match og {
        Outcome::Gives(Term::Bool(b)) => if b {
            run(fuel, e1, cg)
        } else {
            run(fuel, e2, cg)
        },
        Outcome::Gives(_) => (Outcome::Stuck, cg),
        _ => (og, cg),
    }
}

/// `e1 op e2`: the left operand is evaluated, then the right one, then the
/// operator is applied to the two integers.
pub open spec fn run_bin(fuel: nat, op: BinOp, e1: Term, e2: Term, c: nat) -> (Outcome, nat)
    decreases fuel, 1nat,
{
    let (o1, c1) = run(fuel, e1, c);
    match o1 {
        Outcome::Gives(v1) => {
            let (o2, c2) = run(fuel, e2, c1);
            match o2 {
                Outcome::Gives(v2) => match (v1, v2) {
                    (Term::Int(a), Term::Int(b)) => (apply_op(op, a, b), c2),
                    _ => (Outcome::Stuck, c2),
                },
                _ => (o2, c2),
            }
        },
        _ => (o1, c1),
    }
}

/// `func(arg)`: the function is evaluated, then the argument, and the
/// argument's value is put for the parameter in the function's body. The
/// body that this gives is not evaluated here.
pub open spec fn run_apply(fuel: nat, func: Term, arg: Term, c: nat) -> (Outcome, nat)
    decreases fuel, 1nat,
{
    let (of, cf) = run(fuel, func, c);
    match of {
        Outcome::Gives(fv) => {
            let (oa, ca) = run(fuel, arg, cf);
            match oa {
                Outcome::Gives(av) => match fv {
                    Term::Fn { arg: x, body } => {
                        let (b, cb) = subst_value(*body, av, x, ca);
                        (Outcome::Gives(b), cb)
                    },
                    _ => (Outcome::Stuck, ca),
                },
                _ => (oa, ca),
            }
        },
        _ => (of, cf),
    }
}

/// The evaluation came to an end of its own: with a term or at an unbound
/// variable.
pub open spec fn finishes(o: Outcome) -> bool {
    o is Gives || o is UnboundValue
}

/// The evaluation of `e`, by an evaluator that has made `c` names, comes to
/// an end of its own at some depth.
pub open spec fn completes(e: Term, c: nat) -> bool {
    exists|fuel: nat| finishes(#[trigger] run(fuel, e, c).0)
}

/// A depth at which the evaluation of `e` comes to an end of its own.
pub open spec fn enough_fuel(e: Term, c: nat) -> nat {
    choose|fuel: nat| finishes(#[trigger] run(fuel, e, c).0)
}

/// How the evaluation of `e` ends, and the number of names made by then.
pub open spec fn outcome(e: Term, c: nat) -> (Outcome, nat) {
    run(enough_fuel(e, c), e, c)
}

/// Whether what an evaluator returned, having made `issued` names, is what
/// the model says.
pub open spec fn agrees(res: Result<Expr, InterpretError>, issued: nat, model: (Outcome, nat)) -> bool {
    match model.0 {
        Outcome::Gives(v) => res is Ok && res->Ok_0@ == v && issued == model.1,
        Outcome::UnboundValue(x) => res is Err && res->Err_0@ == Fault::UnboundValue(x) && issued
            == model.1,
        _ => false,
    }
}

/// Evaluates expressions by substitution.
#[derive(Debug)]
pub struct Interpreter {
    var_name_generator: VariableNameGenerator,
}

impl Clone for Interpreter {
    fn clone(&self) -> (res: Interpreter)
        ensures
            res.wf() == self.wf(),
            res.issued() == self.issued(),
    {
        Interpreter { var_name_generator: self.var_name_generator.clone() }
    }
}

impl Interpreter {
    /// The generator is sound.
    pub closed spec fn wf(&self) -> bool {
        self.var_name_generator.wf()
    }

    /// How many names this evaluator has made.
    pub closed spec fn issued(&self) -> nat {
        self.var_name_generator.issued()
    }

    /// An evaluator that has made no name yet.
    pub fn new() -> (res: Self)
        ensures
            res.wf(),
            res.issued() == 0,
    {
        Self { var_name_generator: VariableNameGenerator::new() }
    }

    /// The value of an expression whose evaluation comes to an end of its
    /// own, or the variable that nothing binds. The evaluation of an
    /// expression that has a type comes to such an end unless a sum or a
    /// product overflows: `lemma_typed_outcome` shows it.
    pub fn eval(&mut self, expr: &Expr) -> (res: Result<Expr, InterpretError>)
        requires
            old(self).wf(),
            completes(expr@, old(self).issued()),
        ensures
            final(self).wf(),
            agrees(res, final(self).issued(), outcome(expr@, old(self).issued())),
            res is Ok ==> res->Ok_0@.is_value(),
    {
        let ghost fuel = enough_fuel(expr@, self.issued());
        self.reduce(expr, Ghost(fuel))
    }

    /// The free occurrences of variables in an expression, from left to
    /// right: the names that are its free variables.
    pub fn freevars(&self, expr: &Expr) -> (res: Vec<String>)
        ensures
            names_of(res@) == free_list(expr@),
            forall|x: Seq<char>| names_of(res@).contains(x) <==> free_names(expr@).contains(x),
        decreases expr,
    {
        proof {
            lemma_free_list_members(expr@);
        }
        match expr {
            Expr::Int(_) | Expr::Bool(_) => {
                let out: Vec<String> = Vec::new();
                assert(names_of(out@) =~= Seq::<Seq<char>>::empty());
                out
            },
            Expr::Var(x) => {
                let mut out: Vec<String> = Vec::new();
                out.push(x.clone());
                assert(names_of(out@) =~= seq![x@]);
                out
            },
            Expr::Let { x, e1, e2 } => {
                let first = self.freevars(e1);
                let second = without(&self.freevars(e2), x);
                concat(first, second)
            },
            Expr::If { guard, e1, e2 } => {
                let g = self.freevars(guard);
                let a = self.freevars(e1);
                let b = self.freevars(e2);
                concat(concat(g, a), b)
            },
            Expr::Bin { op: _, e1, e2 } => {
                let a = self.freevars(e1);
                let b = self.freevars(e2);
                concat(a, b)
            },
            Expr::Fn { arg, body } => without(&self.freevars(body), arg),
            Expr::Apply { func, arg } => {
                let a = self.freevars(func);
                let b = self.freevars(arg);
                concat(a, b)
            },
        }
    }

    /// The expression with one name replaced by another wherever it stands,
    /// as a variable or as a binder. It never fails.
    pub fn replace(&self, expr: &Expr, old_varname: &String, new_varname: &String) -> (res: Result<
        Expr,
        InterpretError,
    >)
        ensures
            res is Ok,
            res->Ok_0@ == rename(expr@, old_varname@, new_varname@),
    {
        Ok(rename_expr(expr, old_varname, new_varname))
    }

    /// The expression with the value in place of the free occurrences of the
    /// variable. A function whose parameter is free in the value has the
    /// parameter renamed first. It fails where what is to be put in is no
    /// value.
    pub fn substitute(&mut self, expr: &Expr, value: &Expr, varname: &String) -> (res: Result<
        Expr,
        InterpretError,
    >)
        requires
            old(self).wf(),
        ensures
            final(self).wf(),
            value@.is_value() ==> res is Ok && (res->Ok_0@, final(self).issued()) == subst_value(
                expr@,
                value@,
                varname@,
                old(self).issued(),
            ),
            !value@.is_value() ==> res is Err && res->Err_0@ == Fault::NotAValue
                && final(self).issued() == old(self).issued(),
    {
        if value.is_value() {
            Ok(self.substitute_value(expr, value, varname))
        } else {
            Err(InterpretError::NotAValue)
        }
    }

    /// The substitution of a value.
    fn substitute_value(&mut self, expr: &Expr, value: &Expr, varname: &String) -> (res: Expr)
        requires
            old(self).wf(),
        ensures
            final(self).wf(),
            (res@, final(self).issued()) == subst_value(
                expr@,
                value@,
                varname@,
                old(self).issued(),
            ),
        decreases
                expr@.size(),
                pending(free_list(value@), old(self).issued()),
                if captures(expr@, value@, varname@) {
                    1nat
                } else {
                    0nat
                },
    {
        match expr {
            Expr::Int(_) | Expr::Bool(_) => expr.clone(),
            Expr::Var(x) => {
                if *x == *varname {
                    value.clone()
                } else {
                    expr.clone()
                }
            },
            Expr::Let { x, e1, e2 } => {
                let new_e1 = self.substitute_value(e1, value, varname);
                if *x == *varname {
                    Expr::Let { x: x.clone(), e1: Box::new(new_e1), e2: Box::new((**e2).clone()) }
                } else {
                    let new_e2 = self.substitute_value(e2, value, varname);
                    Expr::Let { x: x.clone(), e1: Box::new(new_e1), e2: Box::new(new_e2) }
                }
            },
            Expr::If { guard, e1, e2 } => {
                let new_guard = self.substitute_value(guard, value, varname);
                let new_e1 = self.substitute_value(e1, value, varname);
                let new_e2 = self.substitute_value(e2, value, varname);
                Expr::If { guard: Box::new(new_guard), e1: Box::new(new_e1), e2: Box::new(new_e2) }
            },
            Expr::Bin { op, e1, e2 } => {
                let new_e1 = self.substitute_value(e1, value, varname);
                let new_e2 = self.substitute_value(e2, value, varname);
                Expr::Bin { op: *op, e1: Box::new(new_e1), e2: Box::new(new_e2) }
            },
            Expr::Fn { arg, body } => {
                if *arg == *varname {
                    expr.clone()
                } else {
                    let freevars = self.freevars(value);
                    if !contains_name(&freevars, arg) {
                        let new_body = self.substitute_value(body, value, varname);
                        Expr::Fn { arg: arg.clone(), body: Box::new(new_body) }
                    } else {
                        let ghost c = self.issued();
                        let fresh = self.var_name_generator.next();
                        let replaced = rename_expr(expr, arg, &fresh);
                        proof {
                            crate::substitution::lemma_rename_size(expr@, arg@, fresh@);
                            crate::substitution::lemma_pending_step(free_list(value@), c);
                        }
                        self.substitute_value(&replaced, value, varname)
                    }
                }
            },
            Expr::Apply { func, arg } => {
                let new_func = self.substitute_value(func, value, varname);
                let new_arg = self.substitute_value(arg, value, varname);
                Expr::Apply { func: Box::new(new_func), arg: Box::new(new_arg) }
            },
        }
    }

    /// The evaluation to a depth that is known to be enough.
    fn reduce(&mut self, expr: &Expr, Ghost(fuel): Ghost<nat>) -> (res: Result<Expr, InterpretError>)
        requires
            old(self).wf(),
            finishes(run(fuel, expr@, old(self).issued()).0),
        ensures
            final(self).wf(),
            agrees(res, final(self).issued(), run(fuel, expr@, old(self).issued())),
            res is Ok ==> res->Ok_0@.is_value(),
        decreases fuel, 0nat,
    {
        let ghost f = (fuel - 1) as nat;
        let step = match expr {
            Expr::Int(_) | Expr::Bool(_) => {
                return Ok(expr.clone());
            },
            Expr::Var(x) => {
                return Err(InterpretError::UnboundValue(x.clone()));
            },
            Expr::Fn { arg: _, body: _ } => {
                return Ok(expr.clone());
            },
            Expr::Let { x, e1, e2 } => self.eval_let(x, e1, e2, Ghost(f)),
            Expr::If { guard, e1, e2 } => self.eval_if(guard, e1, e2, Ghost(f)),
            Expr::Bin { op, e1, e2 } => self.eval_bin(*op, e1, e2, Ghost(f)),
            Expr::Apply { func, arg } => self.eval_apply(func, arg, Ghost(f)),
        };
        match step {
            Err(e) => Err(e),
            Ok(result) => {
                if !result.is_value() {
                    self.reduce(&result, Ghost(f))
                } else {
                    Ok(result)
                }
            },
        }
    }

    /// `let`: the value of the bound expression is put for the name in the
    /// body, and what this gives is evaluated.
    fn eval_let(&mut self, x: &String, e1: &Expr, e2: &Expr, Ghost(fuel): Ghost<nat>) -> (res: Result<
        Expr,
        InterpretError,
    >)
        requires
            old(self).wf(),
            finishes(run_let(fuel, x@, e1@, e2@, old(self).issued()).0),
        ensures
            final(self).wf(),
            agrees(res, final(self).issued(), run_let(fuel, x@, e1@, e2@, old(self).issued())),
        decreases fuel, 1nat,
    {
        let v1 = match self.reduce(e1, Ghost(fuel)) {
            Ok(v) => v,
            Err(e) => {
                return Err(e);
            },
        };
        let expr = match self.substitute(e2, &v1, x) {
            Ok(e) => e,
            Err(e) => {
                return Err(e);
            },
        };
        self.reduce(&expr, Ghost(fuel))
    }

    /// A conditional: the guard, then the one branch that it chooses.
    fn eval_if(&mut self, guard: &Expr, e1: &Expr, e2: &Expr, Ghost(fuel): Ghost<nat>) -> (res: Result<
        Expr,
        InterpretError,
    >)
        requires
            old(self).wf(),
            finishes(run_if(fuel, guard@, e1@, e2@, old(self).issued()).0),
        ensures
            final(self).wf(),
            agrees(res, final(self).issued(), run_if(fuel, guard@, e1@, e2@, old(self).issued())),
        decreases fuel, 1nat,
    {
        let guard_value = match self.reduce(guard, Ghost(fuel)) {
            Ok(v) => v,
            Err(e) => {
                return Err(e);
            },
        };
        match guard_value {
            Expr::Bool(b) => {
                if b {
                    self.reduce(e1, Ghost(fuel))
                } else {
                    self.reduce(e2, Ghost(fuel))
                }
            },
            _ => vstd::pervasive::unreached(),
        }
    }

    /// A binary operation: the left operand, then the right one, then the
    /// operator on the two integers.
    fn eval_bin(&mut self, op: BinOp, e1: &Expr, e2: &Expr, Ghost(fuel): Ghost<nat>) -> (res: Result<
        Expr,
        InterpretError,
    >)
        requires
            old(self).wf(),
            finishes(run_bin(fuel, op, e1@, e2@, old(self).issued()).0),
        ensures
            final(self).wf(),
            agrees(res, final(self).issued(), run_bin(fuel, op, e1@, e2@, old(self).issued())),
        decreases fuel, 1nat,
    {
        let v1 = match self.reduce(e1, Ghost(fuel)) {
            Ok(v) => v,
            Err(e) => {
                return Err(e);
            },
        };
        let v2 = match self.reduce(e2, Ghost(fuel)) {
            Ok(v) => v,
            Err(e) => {
                return Err(e);
            },
        };
        match (v1, v2) {
            (Expr::Int(v1), Expr::Int(v2)) => match op {
                BinOp::Plus => Ok(Expr::Int(v1 + v2)),
                BinOp::Times => Ok(Expr::Int(v1 * v2)),
                BinOp::Le => Ok(Expr::Bool(v1 <= v2)),
            },
            _ => vstd::pervasive::unreached(),
        }
    }

    /// An application: the function, then the argument, and the body with
    /// the argument's value for the parameter, which is not evaluated here.
    fn eval_apply(&mut self, func: &Expr, arg: &Expr, Ghost(fuel): Ghost<nat>) -> (res: Result<
        Expr,
        InterpretError,
    >)
        requires
            old(self).wf(),
            finishes(run_apply(fuel, func@, arg@, old(self).issued()).0),
        ensures
            final(self).wf(),
            agrees(res, final(self).issued(), run_apply(fuel, func@, arg@, old(self).issued())),
        decreases fuel, 1nat,
    {
        let func_final = match self.reduce(func, Ghost(fuel)) {
            Ok(v) => v,
            Err(e) => {
                return Err(e);
            },
        };
        let val = match self.reduce(arg, Ghost(fuel)) {
            Ok(v) => v,
            Err(e) => {
                return Err(e);
            },
        };
        match func_final {
            Expr::Fn { arg, body } => self.substitute(&body, &val, &arg),
            _ => vstd::pervasive::unreached(),
        }
    }
}

/// The names without the given one.
fn without(names: &Vec<String>, name: &String) -> (res: Vec<String>)
    ensures
        names_of(res@) == crate::environment::keep_outside(names_of(names@), seq![name@]),
{
    let mut single: Vec<String> = Vec::new();
    single.push(name.clone());
    assert(names_of(single@) =~= seq![name@]);
    names_outside(names, &single)
}

/// The second list behind the first.
fn concat(first: Vec<String>, second: Vec<String>) -> (res: Vec<String>)
    ensures
        names_of(res@) == names_of(first@) + names_of(second@),
{
    let mut out = first;
    let mut rest = second;
    out.append(&mut rest);
    assert(names_of(out@) =~= names_of(first@) + names_of(second@));
    out
}

/// The new name where `name` is the old one, else `name`.
fn rename_name(name: &String, old_varname: &String, new_varname: &String) -> (res: String)
    ensures
        res@ == crate::substitution::renamed(name@, old_varname@, new_varname@),
{
    if *name == *old_varname {
        new_varname.clone()
    } else {
        name.clone()
    }
}

/// The expression with one name replaced by another wherever it stands.
fn rename_expr(expr: &Expr, old_varname: &String, new_varname: &String) -> (res: Expr)
    ensures
        res@ == rename(expr@, old_varname@, new_varname@),
    decreases expr,
{
    match expr {
        Expr::Int(_) | Expr::Bool(_) => expr.clone(),
        Expr::Var(varname) => Expr::Var(rename_name(varname, old_varname, new_varname)),
        Expr::Let { x, e1, e2 } => Expr::Let {
            x: rename_name(x, old_varname, new_varname),
            e1: Box::new(rename_expr(e1, old_varname, new_varname)),
            e2: Box::new(rename_expr(e2, old_varname, new_varname)),
        },
        Expr::If { guard, e1, e2 } => Expr::If {
            guard: Box::new(rename_expr(guard, old_varname, new_varname)),
            e1: Box::new(rename_expr(e1, old_varname, new_varname)),
            e2: Box::new(rename_expr(e2, old_varname, new_varname)),
        },
        Expr::Bin { op, e1, e2 } => Expr::Bin {
            op: *op,
            e1: Box::new(rename_expr(e1, old_varname, new_varname)),
            e2: Box::new(rename_expr(e2, old_varname, new_varname)),
        },
        Expr::Fn { arg, body } => Expr::Fn {
            arg: rename_name(arg, old_varname, new_varname),
            body: Box::new(rename_expr(body, old_varname, new_varname)),
        },
        Expr::Apply { func, arg } => Expr::Apply {
            func: Box::new(rename_expr(func, old_varname, new_varname)),
            arg: Box::new(rename_expr(arg, old_varname, new_varname)),
        },
    }
}

} // verus!

use vstd::prelude::*;

verus! {

/// The mathematical model of a monomorphic type: names are character
/// sequences.
pub enum Ty {
    Int,
    Bool,
    Fn(Box<Ty>, Box<Ty>),
    Var(Seq<char>),
}

/// The model of a type scheme: "for all `bound`, `body`".
pub struct Scheme {
    pub bound: Seq<Seq<char>>,
    pub body: Ty,
}

/// The model of what a type environment binds a name to.
pub enum Binding {
    Mono(Ty),
    Poly(Scheme),
}

/// The model of a type error.
pub enum TypeFault {
    UnboundVariable(Seq<char>),
    IfGuardError(Ty),
    IfBranchError(Ty, Ty),
    BinOpError,
    UnsolvableConstraints(Ty, Ty),
}

/// An equality between two types that a solution has to meet.
pub type Constraint = (Ty, Ty);

/// A type variable and the type that stands for it.
pub type Bond = (Seq<char>, Ty);

impl Ty {
    /// The number of nodes of the type.
    pub open spec fn size(self) -> nat
        decreases self,
    {
        match self {
            Ty::Int | Ty::Bool | Ty::Var(_) => 1,
            Ty::Fn(i, o) => 1 + i.size() + o.size(),
        }
    }

    /// The type variables of the type.
    pub open spec fn vars(self) -> Set<Seq<char>>
        decreases self,
    {
        match self {
            Ty::Int | Ty::Bool => Set::empty(),
            Ty::Var(x) => set![x],
            Ty::Fn(i, o) => i.vars().union(o.vars()),
        }
    }

    /// The type written out: `Int`, `Bool`, a variable's name, or argument
    /// and result with an arrow between them.
    pub open spec fn text(self) -> Seq<char>
        decreases self,
    {
        match self {
            Ty::Int => "Int"@,
            Ty::Bool => "Bool"@,
            Ty::Var(x) => x,
            Ty::Fn(i, o) => i.text() + " -> "@ + o.text(),
        }
    }
}

/// A type's variables are finitely many.
pub proof fn lemma_vars_finite(t: Ty)
    ensures
        t.vars().finite(),
    decreases t,
{
    match t {
        Ty::Fn(i, o) => {
            lemma_vars_finite(*i);
            lemma_vars_finite(*o);
        },
        _ => {},
    }
}

/// A monomorphic type.
#[derive(Debug, PartialEq, Eq, Hash)]
pub enum MonoType {
    Int,
    Bool,
    Fn(Box<MonoType>, Box<MonoType>),
    TypeVariable(String),
}

/// A type scheme: the quantified type variables and the type they range
/// over.
#[derive(Debug, PartialEq, Eq, Hash)]
pub struct PolyType {
    pub bounded_type_vars: Vec<String>,
    pub typ: MonoType,
}

/// What a type environment holds for a name.
#[derive(Debug, PartialEq, Eq, Hash)]
pub enum Type {
    MonoType(MonoType),
    PolyType(PolyType),
}

/// Why an expression has no type.
#[derive(Debug, PartialEq, Eq)]
pub enum TypeError {
    UnboundVariable(String),
    IfGuardError(MonoType),
    IfBranchError(MonoType, MonoType),
    BinOpError,
    UnsolvableConstraints(MonoType, MonoType),
}

/// The names that a sequence of strings holds.
pub open spec fn names_of(v: Seq<String>) -> Seq<Seq<char>> {
    Seq::new(v.len(), |i: int| v[i]@)
}

/// The constraints that a sequence of pairs of types holds.
pub open spec fn constraints_of(v: Seq<(MonoType, MonoType)>) -> Seq<Constraint> {
    Seq::new(v.len(), |i: int| (v[i].0@, v[i].1@))
}

/// The bindings that a sequence of pairs of a name and a type holds.
pub open spec fn bonds_of(v: Seq<(String, MonoType)>) -> Seq<Bond> {
    Seq::new(v.len(), |i: int| (v[i].0@, v[i].1@))
}

/// The environment that a sequence of pairs of a name and its entry holds.
pub open spec fn entries_of(v: Seq<(String, Type)>) -> Seq<(Seq<char>, Binding)> {
    Seq::new(v.len(), |i: int| (v[i].0@, v[i].1@))
}

impl View for MonoType {
    type V = Ty;

    open spec fn view(&self) -> Ty {
        self.ty()
    }
}

impl MonoType {
    /// The type that this value stands for.
    pub open spec fn ty(&self) -> Ty
        decreases self,
    {
        match self {
            MonoType::Int => Ty::Int,
            MonoType::Bool => Ty::Bool,
            MonoType::Fn(i, o) => Ty::Fn(Box::new(i.ty()), Box::new(o.ty())),
            MonoType::TypeVariable(x) => Ty::Var(x@),
        }
    }

    /// The type written out, a function type as argument, arrow and result.
    pub fn to_string(&self) -> (res: String)
        ensures
            res@ == self@.text(),
        decreases self,
    {
        match self {
            MonoType::Int => String::from_str("Int"),
            MonoType::Bool => String::from_str("Bool"),
            MonoType::TypeVariable(x) => x.clone(),
            MonoType::Fn(i, o) => {
                let mut out = i.to_string();
                out.append(" -> ");
                let right = o.to_string();
                out.append(right.as_str());
                out
            },
        }
    }
}

impl Clone for MonoType {
    fn clone(&self) -> (res: MonoType)
        ensures
            res@ == self@,
        decreases self,
    {
        match self {
            MonoType::Int => MonoType::Int,
            MonoType::Bool => MonoType::Bool,
            MonoType::Fn(i, o) => MonoType::Fn(Box::new((**i).clone()), Box::new((**o).clone())),
            MonoType::TypeVariable(x) => MonoType::TypeVariable(x.clone()),
        }
    }
}

impl View for PolyType {
    type V = Scheme;

    open spec fn view(&self) -> Scheme {
        Scheme { bound: names_of(self.bounded_type_vars@), body: self.typ@ }
    }
}

impl Clone for PolyType {
    fn clone(&self) -> (res: PolyType)
        ensures
            res@ == self@,
    {
        let bounded_type_vars = clone_names(&self.bounded_type_vars);
        PolyType { bounded_type_vars, typ: self.typ.clone() }
    }
}

impl View for Type {
    type V = Binding;

    open spec fn view(&self) -> Binding {
        match self {
            Type::MonoType(m) => Binding::Mono(m@),
            Type::PolyType(p) => Binding::Poly(p@),
        }
    }
}

impl Clone for Type {
    fn clone(&self) -> (res: Type)
        ensures
            res@ == self@,
    {
        match self {
            Type::MonoType(m) => Type::MonoType(m.clone()),
            Type::PolyType(p) => Type::PolyType(p.clone()),
        }
    }
}

impl View for TypeError {
    type V = TypeFault;

    open spec fn view(&self) -> TypeFault {
        match self {
            TypeError::UnboundVariable(x) => TypeFault::UnboundVariable(x@),
            TypeError::IfGuardError(t) => TypeFault::IfGuardError(t@),
            TypeError::IfBranchError(a, b) => TypeFault::IfBranchError(a@, b@),
            TypeError::BinOpError => TypeFault::BinOpError,
            TypeError::UnsolvableConstraints(a, b) => TypeFault::UnsolvableConstraints(a@, b@),
        }
    }
}

impl Clone for TypeError {
    fn clone(&self) -> (res: TypeError)
        ensures
            res@ == self@,
    {
        match self {
            TypeError::UnboundVariable(x) => TypeError::UnboundVariable(x.clone()),
            TypeError::IfGuardError(t) => TypeError::IfGuardError(t.clone()),
            TypeError::IfBranchError(a, b) => TypeError::IfBranchError(a.clone(), b.clone()),
            TypeError::BinOpError => TypeError::BinOpError,
            TypeError::UnsolvableConstraints(a, b) => TypeError::UnsolvableConstraints(
                a.clone(),
                b.clone(),
            ),
        }
    }
}

/// A copy of a list of names.
pub fn clone_names(v: &Vec<String>) -> (res: Vec<String>)
    ensures
        names_of(res@) == names_of(v@),
{
    let mut out: Vec<String> = Vec::new();
    let mut i: usize = 0;
    while i < v.len()
        invariant
            i <= v.len(),
            out@.len() == i,
            forall|k: int| 0 <= k < i ==> out@[k]@ == v@[k]@,
        decreases v.len() - i,
    {
        out.push(v[i].clone());
        i = i + 1;
    }
    assert(names_of(out@) =~= names_of(v@));
    out
}

/// Whether `name` is one of `names`.
pub fn contains_name(names: &Vec<String>, name: &String) -> (found: bool)
    ensures
        found == names_of(names@).contains(name@),
{
    let mut i: usize = 0;
    while i < names.len()
        invariant
            i <= names.len(),
            forall|k: int| 0 <= k < i ==> names@[k]@ != name@,
        decreases names.len() - i,
    {
        if names[i] == *name {
            assert(names_of(names@)[i as int] == name@);
            return true;
        }
        i = i + 1;
    }
    false
}

} // verus!

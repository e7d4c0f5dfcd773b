use vstd::prelude::*;
use crate::names::{signed_decimal, signed_decimal_string};

verus! {

/// A binary operator of the object language.
#[derive(Clone, Copy, Debug, PartialEq, Eq, Structural)]
pub enum BinOp {
    Plus,
    Times,
    Le,
}

/// The mathematical model of an expression: the same tree, with names as
/// character sequences and integers unbounded.
#[allow(inconsistent_fields)]
pub enum Term {
    Int(int),
    Bool(bool),
    Var(Seq<char>),
    Let { x: Seq<char>, e1: Box<Term>, e2: Box<Term> },
    If { guard: Box<Term>, e1: Box<Term>, e2: Box<Term> },
    Bin { op: BinOp, e1: Box<Term>, e2: Box<Term> },
    Fn { arg: Seq<char>, body: Box<Term> },
    Apply { func: Box<Term>, arg: Box<Term> },
}

/// An expression of the object language.
#[allow(inconsistent_fields)]
#[derive(Debug, PartialEq, Eq)]
pub enum Expr {
    Int(i64),
    Bool(bool),
    Var(String),
    Let { x: String, e1: Box<Expr>, e2: Box<Expr> },
    If { guard: Box<Expr>, e1: Box<Expr>, e2: Box<Expr> },
    Bin { op: BinOp, e1: Box<Expr>, e2: Box<Expr> },
    Fn { arg: String, body: Box<Expr> },
    Apply { func: Box<Expr>, arg: Box<Expr> },
}

impl Term {
    /// Fully reduced terms: integers, booleans and functions.
    pub open spec fn is_value(self) -> bool {
        self is Int || self is Bool || self is Fn
    }

    /// A value written out: the numeral of an integer, `true` or `false`,
    /// and `<function>` for any function.
    pub open spec fn text(self) -> Seq<char>
        recommends
            self.is_value(),
    {
        match self {
            Term::Int(i) => signed_decimal(i),
            Term::Bool(b) => if b {
                "true"@
            } else {
                "false"@
            },
            _ => "<function>"@,
        }
    }

    /// The number of nodes of the tree.
    pub open spec fn size(self) -> nat
        decreases self,
    {
        match self {
            Term::Int(_) | Term::Bool(_) | Term::Var(_) => 1,
            Term::Let { x: _, e1, e2 } => 1 + e1.size() + e2.size(),
            Term::If { guard, e1, e2 } => 1 + guard.size() + e1.size() + e2.size(),
            Term::Bin { op: _, e1, e2 } => 1 + e1.size() + e2.size(),
            Term::Fn { arg: _, body } => 1 + body.size(),
            Term::Apply { func, arg } => 1 + func.size() + arg.size(),
        }
    }
}

/// The function of several parameters as functions of one: the first
/// parameter is the outermost.
pub open spec fn nested_function(params: Seq<Seq<char>>, body: Term) -> Term
    decreases params.len(),
{
    if params.len() == 0 {
        body
    } else {
        nested_function(
            params.drop_last(),
            Term::Fn { arg: params.last(), body: Box::new(body) },
        )
    }
}

/// The application to several arguments as applications to one: the first
/// argument is applied first.
pub open spec fn nested_application(func: Term, args: Seq<Term>) -> Term
    decreases args.len(),
{
    if args.len() == 0 {
        func
    } else {
        Term::Apply {
            func: Box::new(nested_application(func, args.drop_last())),
            arg: Box::new(args.last()),
        }
    }
}

/// The terms of a sequence of expressions.
pub open spec fn terms_of(v: Seq<Expr>) -> Seq<Term> {
    Seq::new(v.len(), |i: int| v[i]@)
}

impl View for Expr {
    type V = Term;

    open spec fn view(&self) -> Term {
        self.term()
    }
}

impl Expr {
    /// The term that this expression stands for.
    pub open spec fn term(&self) -> Term
        decreases self,
    {
        match self {
            Expr::Int(i) => Term::Int(*i as int),
            Expr::Bool(b) => Term::Bool(*b),
            Expr::Var(x) => Term::Var(x@),
            Expr::Let { x, e1, e2 } => Term::Let {
                x: x@,
                e1: Box::new(e1.term()),
                e2: Box::new(e2.term()),
            },
            Expr::If { guard, e1, e2 } => Term::If {
                guard: Box::new(guard.term()),
                e1: Box::new(e1.term()),
                e2: Box::new(e2.term()),
            },
            Expr::Bin { op, e1, e2 } => Term::Bin {
                op: *op,
                e1: Box::new(e1.term()),
                e2: Box::new(e2.term()),
            },
            Expr::Fn { arg, body } => Term::Fn { arg: arg@, body: Box::new(body.term()) },
            Expr::Apply { func, arg } => Term::Apply {
                func: Box::new(func.term()),
                arg: Box::new(arg.term()),
            },
        }
    }

    /// Tells results from reducible terms.
    pub fn is_value(&self) -> (b: bool)
        ensures
            b == self@.is_value(),
            b == (self is Int || self is Bool || self is Fn),
    {
        match self {
            Expr::Int(_) | Expr::Bool(_) | Expr::Fn { arg: _, body: _ } => true,
            _ => false,
        }
    }
}

impl Expr {
    /// The value written out. Only a value can be written out: an integer,
    /// a boolean or a function.
    pub fn to_string(&self) -> (res: String)
        requires
            self@.is_value(),
        ensures
            res@ == self@.text(),
    {
        match self {
            Expr::Int(i) => signed_decimal_string(*i),
            Expr::Bool(b) => {
                if *b {
                    String::from_str("true")
                } else {
                    String::from_str("false")
                }
            },
            _ => String::from_str("<function>"),
        }
    }
}

impl Expr {
    /// A function of the given parameters, as nested functions of one
    /// parameter each. Without parameters it is the body.
    pub fn function_of(params: Vec<String>, body: Expr) -> (res: Expr)
        ensures
            res@ == nested_function(crate::types::names_of(params@), body@),
    {
        let ghost all = crate::types::names_of(params@);
        let mut rest = params;
        let mut out = body;
        while rest.len() > 0
            invariant
                nested_function(all, body@) == nested_function(crate::types::names_of(rest@), out@),
            decreases rest.len(),
        {
            let ghost before = crate::types::names_of(rest@);
            let last = rest.pop().unwrap();
            proof {
                assert(crate::types::names_of(rest@) =~= before.drop_last());
                assert(before.last() == last@);
            }
            out = Expr::Fn { arg: last, body: Box::new(out) };
        }
        out
    }

    /// The application of a function to the given arguments, one after the
    /// other. Without arguments it is the function.
    pub fn application_of(func: Expr, args: Vec<Expr>) -> (res: Expr)
        ensures
            res@ == nested_application(func@, terms_of(args@)),
    {
        let ghost all = terms_of(args@);
        let mut out = func;
        let mut i: usize = 0;
        while i < args.len()
            invariant
                i <= args.len(),
                all == terms_of(args@),
                out@ == nested_application(func@, all.take(i as int)),
            decreases args.len() - i,
        {
            proof {
                let part = all.take(i + 1);
                assert(part.drop_last() =~= all.take(i as int));
                assert(part.last() == args@[i as int]@);
            }
            out = Expr::Apply { func: Box::new(out), arg: Box::new(args[i].clone()) };
            i = i + 1;
        }
        proof {
            assert(all.take(i as int) =~= all);
        }
        out
    }
}

impl Clone for Expr {
    fn clone(&self) -> (res: Expr)
        ensures
            res@ == self@,
        decreases self,
    {
        match self {
            Expr::Int(i) => Expr::Int(*i),
            Expr::Bool(b) => Expr::Bool(*b),
            Expr::Var(x) => Expr::Var(x.clone()),
            Expr::Let { x, e1, e2 } => Expr::Let {
                x: x.clone(),
                e1: Box::new((**e1).clone()),
                e2: Box::new((**e2).clone()),
            },
            Expr::If { guard, e1, e2 } => Expr::If {
                guard: Box::new((**guard).clone()),
                e1: Box::new((**e1).clone()),
                e2: Box::new((**e2).clone()),
            },
            Expr::Bin { op, e1, e2 } => Expr::Bin {
                op: *op,
                e1: Box::new((**e1).clone()),
                e2: Box::new((**e2).clone()),
            },
            Expr::Fn { arg, body } => Expr::Fn { arg: arg.clone(), body: Box::new((**body).clone()) },
            Expr::Apply { func, arg } => Expr::Apply {
                func: Box::new((**func).clone()),
                arg: Box::new((**arg).clone()),
            },
        }
    }
}

} // verus!

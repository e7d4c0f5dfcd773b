use rain::ast::{BinOp, Expr};
use rain::typecheck::TypeChecker;
use rain::types::{MonoType, PolyType, Type, TypeError};
use std::collections::VecDeque;

fn num(i: i64) -> Expr {
    Expr::Int(i)
}

fn boolean(b: bool) -> Expr {
    Expr::Bool(b)
}

fn var(x: &str) -> Expr {
    Expr::Var(x.to_owned())
}

fn let_in(x: &str, e1: Expr, e2: Expr) -> Expr {
    Expr::Let { x: x.to_owned(), e1: Box::new(e1), e2: Box::new(e2) }
}

fn if_then(guard: Expr, e1: Expr, e2: Expr) -> Expr {
    Expr::If { guard: Box::new(guard), e1: Box::new(e1), e2: Box::new(e2) }
}

fn bin(op: BinOp, e1: Expr, e2: Expr) -> Expr {
    Expr::Bin { op, e1: Box::new(e1), e2: Box::new(e2) }
}

fn lambda(arg: &str, body: Expr) -> Expr {
    Expr::Fn { arg: arg.to_owned(), body: Box::new(body) }
}

fn call(func: Expr, arg: Expr) -> Expr {
    Expr::Apply { func: Box::new(func), arg: Box::new(arg) }
}

fn tv(name: &str) -> MonoType {
    MonoType::TypeVariable(name.to_owned())
}

fn arrow(i: MonoType, o: MonoType) -> MonoType {
    MonoType::Fn(Box::new(i), Box::new(o))
}

fn check(e: &Expr) -> Result<MonoType, TypeError> {
    TypeChecker::new().type_check(e)
}

#[test]
fn literals_have_base_types() {
    assert_eq!(check(&num(3)), Ok(MonoType::Int));
    assert_eq!(check(&boolean(true)), Ok(MonoType::Bool));
}

#[test]
fn operators_have_their_result_types() {
    assert_eq!(check(&bin(BinOp::Plus, num(1), num(2))), Ok(MonoType::Int));
    assert_eq!(check(&bin(BinOp::Times, num(1), num(2))), Ok(MonoType::Int));
    assert_eq!(check(&bin(BinOp::Le, num(1), num(2))), Ok(MonoType::Bool));
}

#[test]
fn an_operand_must_be_an_integer() {
    assert_eq!(
        check(&bin(BinOp::Plus, boolean(true), num(2))),
        Err(TypeError::UnsolvableConstraints(MonoType::Bool, MonoType::Int))
    );
    assert_eq!(
        check(&bin(BinOp::Le, num(2), boolean(false))),
        Err(TypeError::UnsolvableConstraints(MonoType::Bool, MonoType::Int))
    );
}

#[test]
fn a_conditional_has_the_type_of_its_branches() {
    let e = if_then(bin(BinOp::Le, num(2), num(3)), num(10), num(20));
    assert_eq!(check(&e), Ok(MonoType::Int));
}

#[test]
fn a_guard_must_be_a_boolean() {
    let e = if_then(num(1), num(10), num(20));
    assert_eq!(check(&e), Err(TypeError::UnsolvableConstraints(MonoType::Int, MonoType::Bool)));
}

#[test]
fn the_branches_must_agree() {
    let e = if_then(boolean(true), num(10), boolean(false));
    assert_eq!(check(&e), Err(TypeError::UnsolvableConstraints(MonoType::Int, MonoType::Bool)));
}

#[test]
fn an_unbound_variable_has_no_type() {
    assert_eq!(check(&var("x")), Err(TypeError::UnboundVariable("x".to_owned())));
    let e = let_in("x", num(1), var("y"));
    assert_eq!(check(&e), Err(TypeError::UnboundVariable("y".to_owned())));
    // The bound name is not in scope in its own right-hand side.
    let e = let_in("x", var("x"), num(1));
    assert_eq!(check(&e), Err(TypeError::UnboundVariable("x".to_owned())));
}

#[test]
fn functions_have_function_types() {
    assert_eq!(check(&lambda("x", var("x"))), Ok(arrow(tv("'1"), tv("'1"))));
    assert_eq!(
        check(&lambda("x", bin(BinOp::Plus, var("x"), num(1)))),
        Ok(arrow(MonoType::Int, MonoType::Int))
    );
    assert_eq!(
        check(&lambda("x", lambda("y", bin(BinOp::Le, var("x"), var("y"))))),
        Ok(arrow(MonoType::Int, arrow(MonoType::Int, MonoType::Bool)))
    );
}

#[test]
fn application_has_the_result_type() {
    let e = call(lambda("x", bin(BinOp::Plus, var("x"), num(1))), num(41));
    assert_eq!(check(&e), Ok(MonoType::Int));
    let e = call(lambda("x", bin(BinOp::Le, var("x"), num(1))), num(41));
    assert_eq!(check(&e), Ok(MonoType::Bool));
}

#[test]
fn an_argument_must_fit_the_parameter() {
    let e = call(lambda("x", bin(BinOp::Plus, var("x"), num(1))), boolean(true));
    assert!(matches!(check(&e), Err(TypeError::UnsolvableConstraints(_, _))));
    let e = call(num(1), num(2));
    assert!(matches!(check(&e), Err(TypeError::UnsolvableConstraints(_, _))));
}

#[test]
fn a_let_bound_identity_is_polymorphic() {
    let e = let_in(
        "id",
        lambda("x", var("x")),
        if_then(call(var("id"), boolean(true)), call(var("id"), num(1)), call(var("id"), num(2))),
    );
    assert_eq!(check(&e), Ok(MonoType::Int));
}

#[test]
fn a_parameter_is_not_generalized() {
    // The same program with the identity passed as an argument: its
    // parameter has one type only.
    let body = if_then(call(var("id"), boolean(true)), call(var("id"), num(1)), call(var("id"), num(2)));
    let e = call(lambda("id", body), lambda("x", var("x")));
    assert!(matches!(check(&e), Err(TypeError::UnsolvableConstraints(_, _))));
}

#[test]
fn self_application_fails_the_occurs_check() {
    let e = lambda("x", call(var("x"), var("x")));
    assert_eq!(
        check(&e),
        Err(TypeError::UnsolvableConstraints(tv("'1"), arrow(tv("'1"), tv("'2"))))
    );
}

#[test]
fn unify_rejects_a_variable_inside_its_own_type() {
    let mut type_checker = TypeChecker::new();
    let constraints = VecDeque::from_iter([(tv("'a"), arrow(MonoType::Int, tv("'a")))]);
    assert_eq!(
        type_checker.unify(&constraints),
        Err(TypeError::UnsolvableConstraints(tv("'a"), arrow(MonoType::Int, tv("'a"))))
    );
    let constraints = VecDeque::from_iter([(arrow(tv("'a"), MonoType::Bool), tv("'a"))]);
    assert_eq!(
        type_checker.unify(&constraints),
        Err(TypeError::UnsolvableConstraints(arrow(tv("'a"), MonoType::Bool), tv("'a")))
    );
}

#[test]
fn unify_drops_what_holds_already() {
    let mut type_checker = TypeChecker::new();
    let constraints = VecDeque::from_iter([
        (MonoType::Int, MonoType::Int),
        (MonoType::Bool, MonoType::Bool),
        (tv("'a"), tv("'a")),
    ]);
    assert_eq!(type_checker.unify(&constraints), Ok(VecDeque::new()));
    assert_eq!(type_checker.unify(&VecDeque::new()), Ok(VecDeque::new()));
}

#[test]
fn unify_binds_either_side() {
    let mut type_checker = TypeChecker::new();
    let constraints = VecDeque::from_iter([(tv("'a"), tv("'b")), (MonoType::Int, tv("'b"))]);
    assert_eq!(
        type_checker.unify(&constraints),
        Ok(VecDeque::from_iter([("'a".to_owned(), tv("'b")), ("'b".to_owned(), MonoType::Int)]))
    );
}

#[test]
fn unify_substitutes_into_what_is_left() {
    let mut type_checker = TypeChecker::new();
    let constraints = VecDeque::from_iter([(tv("'a"), MonoType::Int), (tv("'a"), MonoType::Bool)]);
    assert_eq!(
        type_checker.unify(&constraints),
        Err(TypeError::UnsolvableConstraints(MonoType::Int, MonoType::Bool))
    );
}

#[test]
fn unify_names_the_two_shapes_that_differ() {
    let mut type_checker = TypeChecker::new();
    let constraints =
        VecDeque::from_iter([(arrow(MonoType::Int, MonoType::Int), MonoType::Bool)]);
    assert_eq!(
        type_checker.unify(&constraints),
        Err(TypeError::UnsolvableConstraints(arrow(MonoType::Int, MonoType::Int), MonoType::Bool))
    );
    let constraints = VecDeque::from_iter([(
        arrow(MonoType::Int, MonoType::Int),
        arrow(MonoType::Int, MonoType::Bool),
    )]);
    assert_eq!(
        type_checker.unify(&constraints),
        Err(TypeError::UnsolvableConstraints(MonoType::Int, MonoType::Bool))
    );
}

#[test]
fn a_variable_is_followed_through_the_chain() {
    let substitutions = VecDeque::from_iter([
        ("'a".to_owned(), arrow(tv("'b"), tv("'c"))),
        ("'b".to_owned(), MonoType::Int),
        ("'c".to_owned(), tv("'d")),
        ("'d".to_owned(), MonoType::Bool),
    ]);
    assert_eq!(
        TypeChecker::apply_substitutions_for_monotype(&arrow(tv("'a"), tv("'e")), &substitutions),
        Ok(arrow(arrow(MonoType::Int, MonoType::Bool), tv("'e")))
    );
}

#[test]
fn a_scheme_keeps_its_quantified_variables() {
    let scheme = PolyType {
        bounded_type_vars: vec!["'a".to_owned()],
        typ: arrow(tv("'a"), tv("'b")),
    };
    let substitutions = VecDeque::from_iter([
        ("'a".to_owned(), MonoType::Int),
        ("'b".to_owned(), MonoType::Bool),
    ]);
    assert_eq!(
        TypeChecker::apply_substitutions_for_polytype(&scheme, &substitutions),
        Ok(PolyType {
            bounded_type_vars: vec!["'a".to_owned()],
            typ: arrow(tv("'a"), MonoType::Bool),
        })
    );
}

#[test]
fn each_instance_has_fresh_variables() {
    let mut type_checker = TypeChecker::new();
    let scheme = PolyType {
        bounded_type_vars: vec!["'a".to_owned(), "'b".to_owned()],
        typ: arrow(tv("'a"), arrow(tv("'b"), tv("'c"))),
    };
    assert_eq!(
        type_checker.instantiate(&scheme),
        Ok(arrow(tv("'1"), arrow(tv("'2"), tv("'c"))))
    );
    assert_eq!(
        type_checker.instantiate(&scheme),
        Ok(arrow(tv("'3"), arrow(tv("'4"), tv("'c"))))
    );
}

#[test]
fn free_type_variables_of_types_and_schemes() {
    let type_checker = TypeChecker::new();
    let t = arrow(tv("'b"), arrow(tv("'a"), tv("'b")));
    assert_eq!(
        type_checker.free_type_vars(&Type::MonoType(t)),
        vec!["'b".to_owned(), "'a".to_owned()]
    );
    let scheme = PolyType {
        bounded_type_vars: vec!["'b".to_owned()],
        typ: arrow(tv("'b"), arrow(tv("'a"), tv("'b"))),
    };
    assert_eq!(type_checker.free_type_vars(&Type::PolyType(scheme)), vec!["'a".to_owned()]);
    assert_eq!(type_checker.free_type_vars(&Type::MonoType(MonoType::Int)), Vec::<String>::new());
}

#[test]
fn occurrence_of_a_variable_in_a_type() {
    let type_checker = TypeChecker::new();
    let t = arrow(MonoType::Int, arrow(tv("'a"), MonoType::Bool));
    assert!(type_checker.is_appear_in(&"'a".to_owned(), &t));
    assert!(!type_checker.is_appear_in(&"'b".to_owned(), &t));
    assert!(!type_checker.is_appear_in(&"'a".to_owned(), &MonoType::Int));
}

#[test]
fn generalize_quantifies_what_the_environment_does_not_hold() {
    let mut type_checker = TypeChecker::new();
    let env = vec![("y".to_owned(), Type::MonoType(tv("'e")))];
    let constraints = VecDeque::from_iter([(tv("'a"), tv("'e"))]);
    let t = arrow(tv("'a"), tv("'b"));
    let new_env = type_checker.generalize(&constraints, &env, (&"f".to_owned(), &t));
    assert_eq!(
        new_env,
        Ok(vec![
            ("y".to_owned(), Type::MonoType(tv("'e"))),
            (
                "f".to_owned(),
                Type::PolyType(PolyType {
                    bounded_type_vars: vec!["'b".to_owned()],
                    typ: arrow(tv("'e"), tv("'b")),
                })
            ),
        ])
    );
}

#[test]
fn generalize_binds_a_closed_type_as_it_is() {
    let mut type_checker = TypeChecker::new();
    let env = vec![("x".to_owned(), Type::MonoType(MonoType::Bool))];
    let new_env =
        type_checker.generalize(&VecDeque::new(), &env, (&"x".to_owned(), &MonoType::Int));
    assert_eq!(new_env, Ok(vec![("x".to_owned(), Type::MonoType(MonoType::Int))]));
}

#[test]
fn generalize_fails_with_the_constraints() {
    let mut type_checker = TypeChecker::new();
    let constraints = VecDeque::from_iter([(MonoType::Int, MonoType::Bool)]);
    let new_env = type_checker.generalize(&constraints, &Vec::new(), (&"x".to_owned(), &tv("'a")));
    assert_eq!(new_env, Err(TypeError::UnsolvableConstraints(MonoType::Int, MonoType::Bool)));
}

#[test]
fn constraints_of_an_operator() {
    let mut type_checker = TypeChecker::new();
    let e = bin(BinOp::Le, num(1), num(2));
    let (t, c) = type_checker.build_constraints(&Vec::new(), &e).unwrap();
    assert_eq!(t, tv("'1"));
    assert_eq!(
        c,
        VecDeque::from_iter([
            (MonoType::Int, MonoType::Int),
            (MonoType::Int, MonoType::Int),
            (tv("'1"), MonoType::Bool),
        ])
    );
}

#[test]
fn constraints_of_a_conditional() {
    let mut type_checker = TypeChecker::new();
    let e = if_then(boolean(true), num(1), num(2));
    let (t, c) = type_checker.build_constraints(&Vec::new(), &e).unwrap();
    assert_eq!(t, tv("'1"));
    assert_eq!(
        c,
        VecDeque::from_iter([
            (MonoType::Bool, MonoType::Bool),
            (tv("'1"), MonoType::Int),
            (tv("'1"), MonoType::Int),
        ])
    );
}

#[test]
fn constraints_of_an_application() {
    let mut type_checker = TypeChecker::new();
    let e = call(lambda("x", var("x")), num(2));
    let (t, c) = type_checker.build_constraints(&Vec::new(), &e).unwrap();
    assert_eq!(t, tv("'1"));
    assert_eq!(
        c,
        VecDeque::from_iter([(arrow(tv("'2"), tv("'2")), arrow(MonoType::Int, tv("'1")))])
    );
}

#[test]
fn types_are_written_out() {
    assert_eq!(MonoType::Int.to_string(), "Int");
    assert_eq!(MonoType::Bool.to_string(), "Bool");
    assert_eq!(tv("'12").to_string(), "'12");
    assert_eq!(arrow(MonoType::Int, arrow(tv("'1"), MonoType::Bool)).to_string(), "Int -> '1 -> Bool");
    assert_eq!(arrow(arrow(MonoType::Int, MonoType::Int), MonoType::Bool).to_string(), "Int -> Int -> Bool");
}

#[test]
fn a_checker_keeps_counting() {
    let mut type_checker = TypeChecker::new();
    assert_eq!(type_checker.type_check(&lambda("x", var("x"))), Ok(arrow(tv("'1"), tv("'1"))));
    assert_eq!(type_checker.type_check(&lambda("x", var("x"))), Ok(arrow(tv("'2"), tv("'2"))));
    for _ in 0..10 {
        let _ = type_checker.type_check(&lambda("x", var("x")));
    }
    assert_eq!(type_checker.type_check(&lambda("x", var("x"))), Ok(arrow(tv("'13"), tv("'13"))));
}

#[test]
fn sound_on_the_examples() {
    // What has type Int evaluates to an integer, what has type Bool to a
    // boolean.
    let programs = vec![
        if_then(bin(BinOp::Le, num(2), num(3)), num(10), num(20)),
        bin(BinOp::Le, bin(BinOp::Plus, num(2), num(3)), num(4)),
        let_in("f", lambda("x", bin(BinOp::Times, var("x"), num(2))), call(var("f"), num(21))),
        call(lambda("b", if_then(var("b"), boolean(false), boolean(true))), boolean(true)),
    ];
    for program in programs {
        let t = TypeChecker::new().type_check(&program).unwrap();
        let v = rain::interpret::Interpreter::new().eval(&program).unwrap();
        match t {
            MonoType::Int => assert!(matches!(v, Expr::Int(_))),
            MonoType::Bool => assert!(matches!(v, Expr::Bool(_))),
            _ => panic!("a base type was expected"),
        }
    }
}

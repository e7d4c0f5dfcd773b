use rain::typecheck::{MonoType, TypeChecker};
use std::collections::VecDeque;

fn var(name: &str) -> MonoType {
    MonoType::TypeVariable(name.to_owned())
}

fn arrow(i: MonoType, o: MonoType) -> MonoType {
    MonoType::Fn(Box::new(i), Box::new(o))
}

#[test]
fn test_unify() {
    // 'a = 'd -> 'e
    // 'c = int -> 'd
    // int -> int -> int = 'b -> 'c

    let mut type_checker = TypeChecker::new();
    let constraints = VecDeque::from_iter([
        (var("'a"), arrow(var("'d"), var("'e"))),
        (var("'c"), arrow(MonoType::Int, var("'d"))),
        (
            arrow(MonoType::Int, arrow(MonoType::Int, MonoType::Int)),
            arrow(var("'b"), var("'c")),
        ),
    ]);
    let substitutions = type_checker.unify(&constraints).unwrap();

    println!("{substitutions:#?}");
    let expected = VecDeque::from_iter([
        ("'a".to_owned(), arrow(var("'d"), var("'e"))),
        ("'c".to_owned(), arrow(MonoType::Int, var("'d"))),
        ("'b".to_owned(), MonoType::Int),
        ("'d".to_owned(), MonoType::Int),
    ]);
    assert_eq!(substitutions, expected);
}

#[test]
fn a_solution_makes_both_sides_equal() {
    let mut type_checker = TypeChecker::new();
    let constraints = VecDeque::from_iter([
        (var("'a"), arrow(var("'d"), var("'e"))),
        (var("'c"), arrow(MonoType::Int, var("'d"))),
        (
            arrow(MonoType::Int, arrow(MonoType::Int, MonoType::Int)),
            arrow(var("'b"), var("'c")),
        ),
        (arrow(var("'a"), var("'f")), arrow(var("'g"), var("'g"))),
    ]);
    let substitutions = type_checker.unify(&constraints).unwrap();
    for (lhs, rhs) in constraints.iter() {
        let left = TypeChecker::apply_substitutions_for_monotype(lhs, &substitutions).unwrap();
        let right = TypeChecker::apply_substitutions_for_monotype(rhs, &substitutions).unwrap();
        assert_eq!(left, right);
        // What was resolved holds no bound variable: resolving again changes nothing.
        let again = TypeChecker::apply_substitutions_for_monotype(&left, &substitutions).unwrap();
        assert_eq!(again, left);
    }
    assert_eq!(
        TypeChecker::apply_substitutions_for_monotype(&var("'f"), &substitutions),
        Ok(arrow(MonoType::Int, var("'e")))
    );
}

use rain::environment::{collect_type_vars, insert, lookup, names_outside};
use rain::interpret::VariableNameGenerator;
use rain::names::{decimal_string, signed_decimal_string, NameCounter};
use rain::typecheck::{MonoType, Type, TypeVariableNameGenerator};
use rain::types::{clone_names, contains_name};

fn text(s: &str) -> String {
    s.to_owned()
}

#[test]
fn a_counter_starts_at_zero_and_carries() {
    let mut counter = NameCounter::new();
    assert_eq!(counter.name("#"), "#0");
    for _ in 0..9 {
        counter.advance();
    }
    assert_eq!(counter.name("#"), "#9");
    counter.advance();
    assert_eq!(counter.name("#"), "#10");
    for _ in 0..89 {
        counter.advance();
    }
    assert_eq!(counter.name(""), "99");
    counter.advance();
    assert_eq!(counter.name("n"), "n100");
    let copy = counter.clone();
    counter.advance();
    assert_eq!(copy.name("n"), "n100");
    assert_eq!(counter.name("n"), "n101");
}

#[test]
fn generators_number_from_one() {
    let mut variables = VariableNameGenerator::new();
    assert_eq!(variables.next(), "$1");
    assert_eq!(variables.next(), "$2");
    let mut type_variables = TypeVariableNameGenerator::new();
    assert_eq!(type_variables.next(), "'1");
    for _ in 0..18 {
        let _ = type_variables.next();
    }
    assert_eq!(type_variables.next(), "'20");
}

#[test]
fn numerals_are_decimal() {
    assert_eq!(decimal_string(0), "0");
    assert_eq!(decimal_string(7), "7");
    assert_eq!(decimal_string(10), "10");
    assert_eq!(decimal_string(9081726354), "9081726354");
    assert_eq!(decimal_string(u64::MAX), "18446744073709551615");
    assert_eq!(signed_decimal_string(0), "0");
    assert_eq!(signed_decimal_string(-1), "-1");
    assert_eq!(signed_decimal_string(305), "305");
    assert_eq!(signed_decimal_string(i64::MIN), "-9223372036854775808");
}

#[test]
fn the_last_binding_of_a_name_counts() {
    let env = vec![
        (text("x"), Type::MonoType(MonoType::Int)),
        (text("y"), Type::MonoType(MonoType::Bool)),
    ];
    assert_eq!(lookup(&env, &text("x")), Some(Type::MonoType(MonoType::Int)));
    assert_eq!(lookup(&env, &text("z")), None);
    let env = insert(&env, text("x"), Type::MonoType(MonoType::Bool));
    assert_eq!(
        env,
        vec![
            (text("y"), Type::MonoType(MonoType::Bool)),
            (text("x"), Type::MonoType(MonoType::Bool)),
        ]
    );
    assert_eq!(lookup(&env, &text("x")), Some(Type::MonoType(MonoType::Bool)));
    assert_eq!(lookup(&env, &text("y")), Some(Type::MonoType(MonoType::Bool)));
}

#[test]
fn variables_are_collected_once_each() {
    let t = MonoType::Fn(
        Box::new(MonoType::TypeVariable(text("'b"))),
        Box::new(MonoType::Fn(
            Box::new(MonoType::TypeVariable(text("'a"))),
            Box::new(MonoType::TypeVariable(text("'b"))),
        )),
    );
    let mut seen = vec![text("'c")];
    collect_type_vars(&t, &mut seen);
    assert_eq!(seen, vec![text("'c"), text("'b"), text("'a")]);
}

#[test]
fn names_are_kept_in_their_order() {
    let names = vec![text("a"), text("b"), text("a"), text("c")];
    let excluded = vec![text("b"), text("z")];
    assert_eq!(names_outside(&names, &excluded), vec![text("a"), text("a"), text("c")]);
    assert_eq!(names_outside(&names, &names), Vec::<String>::new());
    assert!(contains_name(&names, &text("c")));
    assert!(!contains_name(&names, &text("d")));
    assert_eq!(clone_names(&names), names);
}

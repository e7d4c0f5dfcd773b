use rain::ast::Expr;

#[test]
fn test_is_value() {
    let e = Expr::Int(4);
    assert_eq!(e.is_value(), true);

    let e = Expr::Bool(true);
    assert_eq!(e.is_value(), true);

    let e = Expr::Var("x".into());
    assert_eq!(e.is_value(), false);
}

#[test]
fn several_parameters_nest_from_the_first() {
    let body = Expr::Var("b".into());
    let f = Expr::function_of(vec!["a".to_owned(), "b".to_owned(), "c".to_owned()], body);
    let expected = Expr::Fn {
        arg: "a".into(),
        body: Box::new(Expr::Fn {
            arg: "b".into(),
            body: Box::new(Expr::Fn { arg: "c".into(), body: Box::new(Expr::Var("b".into())) }),
        }),
    };
    assert_eq!(f, expected);
    assert_eq!(Expr::function_of(Vec::new(), Expr::Int(1)), Expr::Int(1));
}

#[test]
fn several_arguments_apply_from_the_first() {
    let call = Expr::application_of(
        Expr::Var("f".into()),
        vec![Expr::Int(1), Expr::Bool(true), Expr::Var("z".into())],
    );
    let expected = Expr::Apply {
        func: Box::new(Expr::Apply {
            func: Box::new(Expr::Apply {
                func: Box::new(Expr::Var("f".into())),
                arg: Box::new(Expr::Int(1)),
            }),
            arg: Box::new(Expr::Bool(true)),
        }),
        arg: Box::new(Expr::Var("z".into())),
    };
    assert_eq!(call, expected);
    assert_eq!(Expr::application_of(Expr::Int(1), Vec::new()), Expr::Int(1));
}

#[test]
fn a_copy_is_equal() {
    let e = Expr::Let {
        x: "x".into(),
        e1: Box::new(Expr::Int(1)),
        e2: Box::new(Expr::If {
            guard: Box::new(Expr::Bool(true)),
            e1: Box::new(Expr::Var("x".into())),
            e2: Box::new(Expr::Int(0)),
        }),
    };
    assert_eq!(e.clone(), e);
}

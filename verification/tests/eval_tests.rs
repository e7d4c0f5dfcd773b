use rain::ast::{BinOp, Expr};
use rain::interpret::{InterpretError, Interpreter};

fn num(i: i64) -> Expr {
    Expr::Int(i)
}

fn boolean(b: bool) -> Expr {
    Expr::Bool(b)
}

fn var(x: &str) -> Expr {
    Expr::Var(x.to_owned())
}

fn let_in(x: &str, e1: Expr, e2: Expr) -> Expr {
    Expr::Let { x: x.to_owned(), e1: Box::new(e1), e2: Box::new(e2) }
}

fn if_then(guard: Expr, e1: Expr, e2: Expr) -> Expr {
    Expr::If { guard: Box::new(guard), e1: Box::new(e1), e2: Box::new(e2) }
}

fn bin(op: BinOp, e1: Expr, e2: Expr) -> Expr {
    Expr::Bin { op, e1: Box::new(e1), e2: Box::new(e2) }
}

fn lambda(arg: &str, body: Expr) -> Expr {
    Expr::Fn { arg: arg.to_owned(), body: Box::new(body) }
}

fn call(func: Expr, arg: Expr) -> Expr {
    Expr::Apply { func: Box::new(func), arg: Box::new(arg) }
}

fn name(x: &str) -> String {
    x.to_owned()
}

#[test]
fn values_evaluate_to_themselves() {
    let mut interpreter = Interpreter::new();
    assert_eq!(interpreter.eval(&num(7)), Ok(num(7)));
    assert_eq!(interpreter.eval(&boolean(false)), Ok(boolean(false)));
    let f = lambda("x", bin(BinOp::Plus, var("x"), var("free")));
    assert_eq!(interpreter.eval(&f), Ok(lambda("x", bin(BinOp::Plus, var("x"), var("free")))));
}

#[test]
fn a_variable_is_unbound() {
    let mut interpreter = Interpreter::new();
    assert_eq!(interpreter.eval(&var("y")), Err(InterpretError::UnboundValue(name("y"))));
}

#[test]
fn arithmetic_and_comparison() {
    let mut interpreter = Interpreter::new();
    assert_eq!(interpreter.eval(&bin(BinOp::Plus, num(2), num(3))), Ok(num(5)));
    assert_eq!(interpreter.eval(&bin(BinOp::Times, num(-4), num(6))), Ok(num(-24)));
    assert_eq!(interpreter.eval(&bin(BinOp::Le, num(3), num(3))), Ok(boolean(true)));
    assert_eq!(interpreter.eval(&bin(BinOp::Le, num(4), num(3))), Ok(boolean(false)));
    let nested = bin(BinOp::Plus, num(1), bin(BinOp::Times, num(2), num(3)));
    assert_eq!(interpreter.eval(&nested), Ok(num(7)));
}

#[test]
fn the_left_operand_fails_first() {
    let mut interpreter = Interpreter::new();
    let e = bin(BinOp::Plus, var("left"), var("right"));
    assert_eq!(interpreter.eval(&e), Err(InterpretError::UnboundValue(name("left"))));
}

#[test]
fn the_function_fails_before_the_argument() {
    let mut interpreter = Interpreter::new();
    let e = call(var("f"), var("a"));
    assert_eq!(interpreter.eval(&e), Err(InterpretError::UnboundValue(name("f"))));
}

#[test]
fn conditional_takes_one_branch() {
    let mut interpreter = Interpreter::new();
    let e = if_then(bin(BinOp::Le, num(2), num(3)), num(10), num(20));
    assert_eq!(interpreter.eval(&e), Ok(num(10)));
    let e = if_then(bin(BinOp::Le, num(5), num(3)), num(10), num(20));
    assert_eq!(interpreter.eval(&e), Ok(num(20)));
}

#[test]
fn the_untaken_branch_is_not_evaluated() {
    let mut interpreter = Interpreter::new();
    let e = if_then(boolean(true), num(1), var("nowhere"));
    assert_eq!(interpreter.eval(&e), Ok(num(1)));
    let e = if_then(boolean(false), var("nowhere"), num(2));
    assert_eq!(interpreter.eval(&e), Ok(num(2)));
    let e = if_then(boolean(false), num(1), var("nowhere"));
    assert_eq!(interpreter.eval(&e), Err(InterpretError::UnboundValue(name("nowhere"))));
}

#[test]
fn let_binds_by_substitution() {
    let mut interpreter = Interpreter::new();
    let e = let_in("x", bin(BinOp::Plus, num(1), num(2)), bin(BinOp::Times, var("x"), var("x")));
    assert_eq!(interpreter.eval(&e), Ok(num(9)));
}

#[test]
fn the_inner_binding_shadows_the_outer() {
    let mut interpreter = Interpreter::new();
    let e = let_in("x", num(1), let_in("x", num(2), var("x")));
    assert_eq!(interpreter.eval(&e), Ok(num(2)));
    // The outer binding still holds where the inner one is not in scope.
    let e = let_in(
        "x",
        num(1),
        bin(BinOp::Plus, let_in("x", num(2), var("x")), var("x")),
    );
    assert_eq!(interpreter.eval(&e), Ok(num(3)));
    // The bound name is not in scope in its own right-hand side.
    let e = let_in("x", num(1), let_in("x", bin(BinOp::Plus, var("x"), num(10)), var("x")));
    assert_eq!(interpreter.eval(&e), Ok(num(11)));
}

#[test]
fn application_substitutes_the_argument() {
    let mut interpreter = Interpreter::new();
    let e = call(lambda("x", bin(BinOp::Plus, var("x"), num(1))), num(41));
    assert_eq!(interpreter.eval(&e), Ok(num(42)));
    let curried = lambda("a", lambda("b", bin(BinOp::Times, var("a"), var("b"))));
    let e = call(call(curried, num(6)), num(7));
    assert_eq!(interpreter.eval(&e), Ok(num(42)));
}

#[test]
fn an_identity_is_used_at_two_types() {
    let mut interpreter = Interpreter::new();
    let e = let_in(
        "id",
        lambda("x", var("x")),
        if_then(call(var("id"), boolean(true)), call(var("id"), num(1)), call(var("id"), num(2))),
    );
    assert_eq!(interpreter.eval(&e), Ok(num(1)));
}

#[test]
fn free_variables_of_expressions() {
    let interpreter = Interpreter::new();
    assert_eq!(interpreter.freevars(&num(1)), Vec::<String>::new());
    assert_eq!(interpreter.freevars(&var("x")), vec![name("x")]);
    assert_eq!(interpreter.freevars(&lambda("x", var("x"))), Vec::<String>::new());
    assert_eq!(interpreter.freevars(&lambda("x", var("y"))), vec![name("y")]);
    // The bound name is free in its own right-hand side.
    let e = let_in("x", var("x"), var("x"));
    assert_eq!(interpreter.freevars(&e), vec![name("x")]);
    let e = let_in("x", num(1), bin(BinOp::Plus, var("x"), var("z")));
    assert_eq!(interpreter.freevars(&e), vec![name("z")]);
    let e = if_then(var("a"), call(var("b"), var("c")), var("a"));
    assert_eq!(interpreter.freevars(&e), vec![name("a"), name("b"), name("c"), name("a")]);
}

#[test]
fn replace_renames_everywhere() {
    let interpreter = Interpreter::new();
    let e = lambda("y", let_in("z", var("y"), call(var("z"), var("y"))));
    let renamed = interpreter.replace(&e, &name("y"), &name("$1"));
    assert_eq!(
        renamed,
        Ok(lambda("$1", let_in("z", var("$1"), call(var("z"), var("$1")))))
    );
    let e = let_in("y", var("y"), if_then(var("y"), var("w"), num(0)));
    let renamed = interpreter.replace(&e, &name("y"), &name("n"));
    assert_eq!(renamed, Ok(let_in("n", var("n"), if_then(var("n"), var("w"), num(0)))));
}

#[test]
fn substitute_replaces_free_occurrences() {
    let mut interpreter = Interpreter::new();
    let e = bin(BinOp::Plus, var("x"), var("y"));
    assert_eq!(
        interpreter.substitute(&e, &num(5), &name("x")),
        Ok(bin(BinOp::Plus, num(5), var("y")))
    );
    // A binder of the same name shadows.
    let e = lambda("x", var("x"));
    assert_eq!(interpreter.substitute(&e, &num(5), &name("x")), Ok(lambda("x", var("x"))));
    let e = let_in("x", var("x"), var("x"));
    assert_eq!(
        interpreter.substitute(&e, &num(5), &name("x")),
        Ok(let_in("x", num(5), var("x")))
    );
    let e = let_in("y", var("x"), var("x"));
    assert_eq!(
        interpreter.substitute(&e, &num(5), &name("x")),
        Ok(let_in("y", num(5), num(5)))
    );
}

#[test]
fn substitute_wants_a_value() {
    let mut interpreter = Interpreter::new();
    let not_a_value = bin(BinOp::Plus, num(1), num(2));
    assert_eq!(
        interpreter.substitute(&var("x"), &not_a_value, &name("x")),
        Err(InterpretError::NotAValue)
    );
    assert_eq!(
        interpreter.substitute(&num(3), &var("y"), &name("x")),
        Err(InterpretError::NotAValue)
    );
}

#[test]
fn substitute_renames_a_parameter_that_would_capture() {
    let mut interpreter = Interpreter::new();
    // In `fn y => x y`, putting `fn z => y` for `x` must not bind that `y`.
    let e = lambda("y", call(var("x"), var("y")));
    let value = lambda("z", var("y"));
    let result = interpreter.substitute(&e, &value, &name("x"));
    assert_eq!(result, Ok(lambda("$1", call(lambda("z", var("y")), var("$1")))));
    // The next renaming takes the next name.
    let result = interpreter.substitute(&e, &value, &name("x"));
    assert_eq!(result, Ok(lambda("$2", call(lambda("z", var("y")), var("$2")))));
}

#[test]
fn renaming_skips_names_that_are_free_in_the_value() {
    let mut interpreter = Interpreter::new();
    // `$1` is free in the value too, so the parameter ends as `$2`.
    let e = lambda("y", call(var("x"), var("y")));
    let value = lambda("z", call(var("y"), var("$1")));
    let result = interpreter.substitute(&e, &value, &name("x"));
    assert_eq!(
        result,
        Ok(lambda("$2", call(lambda("z", call(var("y"), var("$1"))), var("$2"))))
    );
}

#[test]
fn evaluation_avoids_capture() {
    // let y = 1 in let f = (fn x => fn y => x + y) in f(y)(10): with capture
    // the result would be 20.
    let mut interpreter = Interpreter::new();
    let f = lambda("x", lambda("y", bin(BinOp::Plus, var("x"), var("y"))));
    let e = let_in("y", num(1), let_in("f", f, call(call(var("f"), var("y")), num(10))));
    assert_eq!(interpreter.eval(&e), Ok(num(11)));
}

#[test]
fn the_result_does_not_depend_on_the_fresh_name() {
    // An open term: the value put for `f` has `y` free, and the function
    // binds `y`.
    let program = || {
        let_in(
            "f",
            lambda("a", var("y")),
            call(lambda("y", call(var("f"), num(0))), num(5)),
        )
    };
    let mut first = Interpreter::new();
    let one = first.eval(&program());
    // An evaluator that has made names before takes other names.
    let mut second = Interpreter::new();
    let e = lambda("y", call(var("x"), var("y")));
    let _ = second.substitute(&e, &lambda("z", var("y")), &name("x"));
    let _ = second.substitute(&e, &lambda("z", var("y")), &name("x"));
    let two = second.eval(&program());
    assert_eq!(one, Err(InterpretError::UnboundValue(name("y"))));
    assert_eq!(one, two);
}

#[test]
fn values_are_written_out() {
    assert_eq!(num(0).to_string(), "0");
    assert_eq!(num(1234567890).to_string(), "1234567890");
    assert_eq!(num(-42).to_string(), "-42");
    assert_eq!(num(i64::MAX).to_string(), "9223372036854775807");
    assert_eq!(num(i64::MIN).to_string(), "-9223372036854775808");
    assert_eq!(boolean(true).to_string(), "true");
    assert_eq!(boolean(false).to_string(), "false");
    assert_eq!(lambda("x", var("x")).to_string(), "<function>");
}

#[test]
fn only_results_are_written_out() {
    let mut interpreter = Interpreter::new();
    let e = call(lambda("x", bin(BinOp::Le, var("x"), num(1))), num(1));
    assert!(!e.is_value());
    let result = interpreter.eval(&e).unwrap();
    assert!(result.is_value());
    assert_eq!(result.to_string(), "true");
}

#[test]
fn many_renamings_take_many_names() {
    let mut interpreter = Interpreter::new();
    let e = lambda("y", call(var("x"), var("y")));
    let value = lambda("z", var("y"));
    let mut last = Ok(num(0));
    for _ in 0..1234 {
        last = interpreter.substitute(&e, &value, &name("x"));
    }
    assert_eq!(last, Ok(lambda("$1234", call(lambda("z", var("y")), var("$1234")))));
}

#[test]
fn a_copy_of_an_evaluator_counts_on_its_own() {
    let mut first = Interpreter::new();
    let e = lambda("y", call(var("x"), var("y")));
    let value = lambda("z", var("y"));
    let _ = first.substitute(&e, &value, &name("x"));
    let mut second = first.clone();
    let a = first.substitute(&e, &value, &name("x"));
    let b = second.substitute(&e, &value, &name("x"));
    assert_eq!(a, Ok(lambda("$2", call(lambda("z", var("y")), var("$2")))));
    assert_eq!(a, b);
}

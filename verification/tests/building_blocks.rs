use text_analyzer::concepts::{
    eval, factorial, get_human, map_example, map_generic, pure_add, squares_of_positive,
    sum_positive, Config, Expr,
};
use text_analyzer::higher_order::{
    closure_example, compose, curry_add, lambda_example, partial_first,
};

#[test]
fn pure_add_adds() {
    assert_eq!(pure_add(2, 3), 5);
    assert_eq!(pure_add(-7, 7), 0);
    assert_eq!(pure_add(i32::MAX, 0), i32::MAX);
}

#[test]
fn lambda_squares() {
    let sq = lambda_example();
    assert_eq!(sq(5), 25);
    assert_eq!(sq(-4), 16);
    assert_eq!(sq(0), 0);
}

#[test]
fn closure_scales() {
    let double = closure_example(2);
    assert_eq!(double(7), 14);
    assert_eq!(closure_example(-3)(5), -15);
}

#[test]
fn map_example_doubles() {
    assert_eq!(map_example(&[1, 2, 3]), vec![2, 4, 6]);
    assert_eq!(map_example(&[]), Vec::<i32>::new());
    assert_eq!(map_example(&[-5, 0]), vec![-10, 0]);
}

#[test]
fn map_generic_applies_in_order() {
    assert_eq!(map_generic(&[1, 2, 3], |x: &i32| *x + 1), vec![2, 3, 4]);
    assert_eq!(map_generic(&["a", "bcd"], |s: &&str| s.len()), vec![1, 3]);
}

#[test]
fn sum_positive_skips_the_rest() {
    assert_eq!(sum_positive(&[-2, 3, 5]), 8);
    assert_eq!(sum_positive(&[-2, -3, 0]), 0);
    assert_eq!(sum_positive(&[]), 0);
}

#[test]
fn squares_of_positive_filters_then_squares() {
    assert_eq!(squares_of_positive(&[-1, 2, 3]), vec![4, 9]);
    assert_eq!(squares_of_positive(&[0, -4]), Vec::<i32>::new());
}

#[test]
fn factorial_values() {
    assert_eq!(factorial(0), 1);
    assert_eq!(factorial(1), 1);
    assert_eq!(factorial(5), 120);
    assert_eq!(factorial(20), 2432902008176640000);
}

#[test]
fn compose_applies_inner_first() {
    let f = compose(|x: i32| x + 1, |x: i32| x * 2);
    assert_eq!(f(3), 7);
}

#[test]
fn curry_add_adds() {
    assert_eq!(curry_add(5)(7), 12);
}

#[test]
fn partial_first_fixes_first_argument() {
    let add10 = partial_first(|a: i32, b: i32| a + b, 10);
    assert_eq!(add10(3), 13);
    let sub_from_10 = partial_first(|a: i32, b: i32| a - b, 10);
    assert_eq!(sub_from_10(3), 7);
}

#[test]
fn eval_sums_the_tree() {
    let expr = Expr::Add(Box::new(Expr::Const(2)), Box::new(Expr::Const(4)));
    assert_eq!(eval(&expr), 6);
    assert_eq!(eval(&Expr::Const(-9)), -9);
    let nested = Expr::Add(Box::new(expr), Box::new(Expr::Const(-10)));
    assert_eq!(eval(&nested), -4);
}

#[test]
fn builder_uses_what_was_chosen() {
    let cfg = Config::builder().host("localhost").port(8080).build();
    assert_eq!(cfg.host, "localhost");
    assert_eq!(cfg.port, 8080);
}

#[test]
fn builder_falls_back_to_defaults() {
    let cfg = Config::builder().build();
    assert_eq!(cfg.host, "127.0.0.1");
    assert_eq!(cfg.port, 80);
    let only_port = Config::builder().port(1).build();
    assert_eq!(only_port.host, "127.0.0.1");
    assert_eq!(only_port.port, 1);
    let only_host = Config::builder().host("h").build();
    assert_eq!(only_host.host, "h");
    assert_eq!(only_host.port, 80);
}

#[test]
fn get_human_needs_a_name() {
    assert!(get_human("").is_none());
    let alice = get_human("Alice");
    assert!(alice.is_some());
    assert_eq!(alice.unwrap().name(), "Alice");
}

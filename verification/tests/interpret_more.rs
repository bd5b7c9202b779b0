use zerox::interpret::{
    assign, check_arity, define, lookup, outermost_scope, string_literal_text, Env,
};
use zerox::interpret::rules::{check_binary, check_unary, short_circuits, truthy, Kind};
use zerox::parse::{BinaryOperator, UnaryOperator};
use zerox::text::usize_to_string;
use zerox::Error;

fn stack(scopes: &[&[(&str, i32)]]) -> Vec<Env<i32>> {
    let mut envs = Vec::new();
    for scope in scopes {
        let mut e = Env::new();
        for (k, v) in scope.iter() {
            e.insert(k, *v);
        }
        envs.push(e);
    }
    envs
}

fn runtime_message(r: Result<(), Error>) -> String {
    match r {
        Err(Error::RuntimeError(m)) => m,
        other => panic!("expected a runtime error, got {:?}", other),
    }
}

#[test]
fn env_insert_get_and_contains() {
    let mut e: Env<i32> = Env::new();
    assert!(!e.contains("x"));
    assert_eq!(e.get("x"), None);
    e.insert("x", 1);
    e.insert("y", 2);
    assert!(e.contains("x"));
    assert_eq!(e.get("x"), Some(&1));
    assert_eq!(e.get("y"), Some(&2));
    e.insert("x", 3);
    assert_eq!(e.get("x"), Some(&3));
    assert_eq!(e.get("y"), Some(&2));
    assert_eq!(e.get("z"), None);
}

#[test]
fn env_clone_binds_the_same_names() {
    let mut e: Env<i32> = Env::new();
    e.insert("a", 7);
    e.insert("b", 8);
    let c = e.clone();
    assert_eq!(c.get("a"), Some(&7));
    assert_eq!(c.get("b"), Some(&8));
    assert!(!c.contains("c"));
}

#[test]
fn lookup_reads_the_innermost_binding() {
    let envs = stack(&[&[("x", 1), ("y", 10)], &[("x", 2)]]);
    assert_eq!(lookup(&envs, "x"), Some(&2));
    assert_eq!(lookup(&envs, "y"), Some(&10));
    assert_eq!(lookup(&envs, "z"), None);
    let empty: Vec<Env<i32>> = Vec::new();
    assert_eq!(lookup(&empty, "x"), None);
}

#[test]
fn outermost_scope_finds_the_first_scope_binding_the_name() {
    let envs = stack(&[&[("y", 10)], &[("x", 1)], &[("x", 2)]]);
    assert_eq!(outermost_scope(&envs, "x"), Some(1));
    assert_eq!(outermost_scope(&envs, "y"), Some(0));
    assert_eq!(outermost_scope(&envs, "z"), None);
}

#[test]
fn define_binds_in_the_innermost_scope() {
    let mut envs = stack(&[&[("x", 1)], &[]]);
    define(&mut envs, "x", 5);
    assert_eq!(envs[1].get("x"), Some(&5));
    assert_eq!(envs[0].get("x"), Some(&1));
    assert_eq!(lookup(&envs, "x"), Some(&5));
    let mut empty: Vec<Env<i32>> = Vec::new();
    define(&mut empty, "x", 5);
    assert!(empty.is_empty());
}

#[test]
fn define_keeps_other_names() {
    let mut envs = stack(&[&[("y", 4)], &[("z", 6)]]);
    define(&mut envs, "x", 5);
    assert_eq!(lookup(&envs, "y"), Some(&4));
    assert_eq!(lookup(&envs, "z"), Some(&6));
}

#[test]
fn assign_rebinds_in_the_outermost_binding_scope() {
    let mut envs = stack(&[&[("x", 1)], &[("y", 2)]]);
    assert_eq!(assign(&mut envs, "x", 9), None);
    assert_eq!(envs[0].get("x"), Some(&9));
    assert!(!envs[1].contains("x"));
    assert_eq!(lookup(&envs, "x"), Some(&9));
}

#[test]
fn assign_to_an_unbound_name_gives_the_value_back() {
    let mut envs = stack(&[&[("x", 1)]]);
    assert_eq!(assign(&mut envs, "nope", 3), Some(3));
    assert!(!envs[0].contains("nope"));
    assert_eq!(lookup(&envs, "x"), Some(&1));
}

#[test]
fn assign_under_a_shadowing_scope_is_not_read_back() {
    let mut envs = stack(&[&[("x", 1)], &[("x", 2)]]);
    assert_eq!(assign(&mut envs, "x", 3), None);
    assert_eq!(envs[0].get("x"), Some(&3));
    assert_eq!(lookup(&envs, "x"), Some(&2));
}

#[test]
fn string_literal_text_strips_the_quotes() {
    assert_eq!(string_literal_text("\"hello\""), Some("hello"));
    assert_eq!(string_literal_text("\"\""), Some(""));
    assert_eq!(string_literal_text("\"héllo\""), Some("héllo"));
    assert_eq!(string_literal_text("\""), None);
    assert_eq!(string_literal_text("hello"), None);
    assert_eq!(string_literal_text("\"open"), None);
}

#[test]
fn check_arity_accepts_matching_counts() {
    assert!(check_arity(0, 0).is_ok());
    assert!(check_arity(3, 3).is_ok());
    assert!(check_arity(254, 254).is_ok());
}

#[test]
fn check_arity_reports_a_mismatch() {
    assert_eq!(runtime_message(check_arity(2, 3)), "Function expect 2 arguments, get 3.");
    assert_eq!(runtime_message(check_arity(10, 0)), "Function expect 10 arguments, get 0.");
}

#[test]
fn check_arity_rejects_too_many() {
    let m = "Function can't receive more than 255 arguments.";
    assert_eq!(runtime_message(check_arity(255, 255)), m);
    assert_eq!(runtime_message(check_arity(1, 300)), m);
    assert_eq!(runtime_message(check_arity(256, 1)), m);
}

fn refusal(r: Result<(), Error>) -> Option<String> {
    match r {
        Ok(()) => None,
        Err(Error::RuntimeError(m)) => Some(m),
        Err(other) => panic!("unexpected error {:?}", other),
    }
}

#[test]
fn truthiness_of_each_kind() {
    assert!(!truthy(Kind::Nil));
    assert!(!truthy(Kind::Bool(false)));
    assert!(truthy(Kind::Bool(true)));
    assert!(truthy(Kind::Number));
    assert!(truthy(Kind::Str));
    assert!(truthy(Kind::Function));
}

#[test]
fn negation_takes_only_numbers() {
    assert_eq!(refusal(check_unary(UnaryOperator::Negative, Kind::Number)), None);
    assert_eq!(
        refusal(check_unary(UnaryOperator::Negative, Kind::Str)).as_deref(),
        Some("Operand must be boolean.")
    );
    assert_eq!(refusal(check_unary(UnaryOperator::Not, Kind::Str)), None);
    assert_eq!(refusal(check_unary(UnaryOperator::Not, Kind::Nil)), None);
}

#[test]
fn arithmetic_operand_rules() {
    assert_eq!(refusal(check_binary(BinaryOperator::Add, Kind::Number, Kind::Number)), None);
    assert_eq!(refusal(check_binary(BinaryOperator::Add, Kind::Str, Kind::Str)), None);
    assert_eq!(
        refusal(check_binary(BinaryOperator::Add, Kind::Str, Kind::Number)).as_deref(),
        Some("Operands must be number or string.")
    );
    assert_eq!(refusal(check_binary(BinaryOperator::Minus, Kind::Number, Kind::Number)), None);
    assert_eq!(
        refusal(check_binary(BinaryOperator::Multiply, Kind::Str, Kind::Str)).as_deref(),
        Some("Operands must be number.")
    );
    assert_eq!(
        refusal(check_binary(BinaryOperator::Divide, Kind::Number, Kind::Nil)).as_deref(),
        Some("Operands must be number.")
    );
}

#[test]
fn comparison_operand_rules() {
    for op in [BinaryOperator::Equal, BinaryOperator::NotEqual, BinaryOperator::Less, BinaryOperator::LessEqual, BinaryOperator::Greater, BinaryOperator::GreaterEqual] {
        assert_eq!(refusal(check_binary(op, Kind::Number, Kind::Number)), None);
        assert_eq!(refusal(check_binary(op, Kind::Nil, Kind::Nil)), None);
        assert_eq!(
            refusal(check_binary(op, Kind::Str, Kind::Str)).as_deref(),
            Some("Uncomparable.")
        );
        assert_eq!(
            refusal(check_binary(op, Kind::Bool(true), Kind::Bool(true))).as_deref(),
            Some("Uncomparable.")
        );
        assert_eq!(
            refusal(check_binary(op, Kind::Nil, Kind::Number)).as_deref(),
            Some("Uncomparable.")
        );
    }
    assert_eq!(refusal(check_binary(BinaryOperator::Or, Kind::Str, Kind::Nil)), None);
    assert_eq!(refusal(check_binary(BinaryOperator::And, Kind::Function, Kind::Number)), None);
}

#[test]
fn and_or_short_circuit() {
    assert!(short_circuits(BinaryOperator::Or, Kind::Bool(true)));
    assert!(short_circuits(BinaryOperator::Or, Kind::Number));
    assert!(!short_circuits(BinaryOperator::Or, Kind::Nil));
    assert!(short_circuits(BinaryOperator::And, Kind::Nil));
    assert!(short_circuits(BinaryOperator::And, Kind::Bool(false)));
    assert!(!short_circuits(BinaryOperator::And, Kind::Str));
    assert!(!short_circuits(BinaryOperator::Add, Kind::Nil));
}

#[test]
fn decimal_text_of_integers() {
    assert_eq!(usize_to_string(0), "0");
    assert_eq!(usize_to_string(7), "7");
    assert_eq!(usize_to_string(10), "10");
    assert_eq!(usize_to_string(1234509), "1234509");
    assert_eq!(usize_to_string(usize::MAX), usize::MAX.to_string());
}

#[test]
fn env_clone_copies_each_value() {
    let mut e: Env<String> = Env::new();
    e.insert("a", "one".to_string());
    e.insert("b", "two".to_string());
    let c = e.clone();
    assert_eq!(c.get("a").map(|s| s.as_str()), Some("one"));
    assert_eq!(c.get("b").map(|s| s.as_str()), Some("two"));
}

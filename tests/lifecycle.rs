use lux_rust::bridge::value_to_term;
use lux_rust::component::{ComponentConfig, EchoComponent, LuxComponent, LuxError};
use lux_rust::resource::{cleanup, initialize, process};
use lux_rust::term::Term;
use lux_rust::value::{Number, Value};

fn config(name: &str) -> ComponentConfig {
    ComponentConfig {
        name: name.to_string(),
        config: Term::Mapping(vec![(Term::Binary(b"mode".to_vec()), Term::Integer(3))]),
    }
}

#[test]
fn echo_component_returns_its_input() {
    let c = EchoComponent::new(Value::Null);
    assert_eq!(c.initialize(), Ok(()));
    let v = Value::Array(vec![Value::Number(Number::Int(5))]);
    assert_eq!(c.process(Value::Array(vec![Value::Number(Number::Int(5))])), Ok(v));
    assert_eq!(c.cleanup(), Ok(()));
}

#[test]
fn echo_handle_gives_back_what_it_is_sent() {
    let mut h = initialize(config("echo")).expect("echo is registered");
    let v = Value::Object(vec![
        ("a".to_string(), Value::String("x".to_string())),
        ("b".to_string(), Value::Array(vec![Value::Bool(false), Value::Null])),
    ]);
    let input = value_to_term(&v);
    let out = process(&mut h, &input).expect("echo succeeds");
    assert_eq!(out, input);
    assert_eq!(lux_rust::bridge::term_to_value(&out), v);
}

#[test]
fn echo_handle_normalizes_its_input() {
    let mut h = initialize(config("echo")).expect("echo is registered");
    let out = process(&mut h, &Term::BigInteger).expect("echo succeeds");
    assert_eq!(out, Term::Integer(0));
    let out = process(&mut h, &Term::ImproperList).expect("echo succeeds");
    assert_eq!(out, Term::List(vec![]));
}

#[test]
fn unknown_component_is_not_implemented() {
    let r = initialize(config("nonexistent-name"));
    assert!(matches!(r, Err(LuxError::NotImplemented)));
}

#[test]
fn closed_handle_rejects_invocations() {
    let mut h = initialize(config("echo")).expect("echo is registered");
    assert_eq!(cleanup(&mut h), Ok(()));
    assert_eq!(process(&mut h, &Term::Integer(1)), Err(LuxError::Closed));
}

#[test]
fn second_cleanup_is_rejected() {
    let mut h = initialize(config("echo")).expect("echo is registered");
    assert_eq!(cleanup(&mut h), Ok(()));
    assert_eq!(cleanup(&mut h), Err(LuxError::Closed));
}

#[test]
fn handle_stays_ready_across_calls() {
    let mut h = initialize(config("echo")).expect("echo is registered");
    for n in 0..3i64 {
        assert_eq!(process(&mut h, &Term::Integer(n)), Ok(Term::Integer(n)));
    }
}

#[test]
fn echo_handle_turns_whole_doubles_into_integers() {
    let mut h = initialize(config("echo")).expect("echo is registered");
    let out = process(&mut h, &Term::Float(4.0f64.to_bits())).expect("echo succeeds");
    assert_eq!(out, Term::Integer(4));
    let out = process(&mut h, &Term::Float(4.5f64.to_bits())).expect("echo succeeds");
    assert_eq!(out, Term::Float(4.5f64.to_bits()));
}

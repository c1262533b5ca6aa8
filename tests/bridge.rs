use lux_rust::bridge::{term_to_value, value_to_term};
use lux_rust::term::Term;
use lux_rust::value::{Number, Value};

fn text(s: &str) -> Term {
    Term::Binary(s.as_bytes().to_vec())
}

fn atom(s: &str) -> Term {
    Term::Atom(s.to_string())
}

#[test]
fn integer_term_becomes_integer_number() {
    assert_eq!(term_to_value(&Term::Integer(-42)), Value::Number(Number::Int(-42)));
}

#[test]
fn big_integer_falls_back_to_zero() {
    assert_eq!(term_to_value(&Term::BigInteger), Value::Number(Number::Int(0)));
}

#[test]
fn finite_float_is_kept() {
    let bits = 1.5f64.to_bits();
    assert_eq!(term_to_value(&Term::Float(bits)), Value::Number(Number::Float(bits)));
}

#[test]
fn non_finite_float_falls_back_to_zero() {
    assert_eq!(
        term_to_value(&Term::Float(f64::NAN.to_bits())),
        Value::Number(Number::Int(0))
    );
    assert_eq!(
        term_to_value(&Term::Float(f64::INFINITY.to_bits())),
        Value::Number(Number::Int(0))
    );
}

#[test]
fn utf8_binary_becomes_string() {
    assert_eq!(term_to_value(&text("héllo")), Value::String("héllo".to_string()));
}

#[test]
fn invalid_utf8_binary_becomes_null() {
    assert_eq!(term_to_value(&Term::Binary(vec![0xff, 0xfe])), Value::Null);
}

#[test]
fn boolean_atoms_become_booleans() {
    assert_eq!(term_to_value(&atom("true")), Value::Bool(true));
    assert_eq!(term_to_value(&atom("false")), Value::Bool(false));
}

#[test]
fn nil_atom_becomes_null() {
    assert_eq!(term_to_value(&atom("nil")), Value::Null);
}

#[test]
fn other_atom_becomes_its_name() {
    assert_eq!(term_to_value(&atom("ok")), Value::String("ok".to_string()));
}

#[test]
fn other_terms_become_null() {
    assert_eq!(term_to_value(&Term::Other), Value::Null);
}

#[test]
fn list_becomes_array_in_order() {
    let t = Term::List(vec![Term::Integer(1), text("a"), atom("nil")]);
    assert_eq!(
        term_to_value(&t),
        Value::Array(vec![
            Value::Number(Number::Int(1)),
            Value::String("a".to_string()),
            Value::Null,
        ])
    );
}

#[test]
fn empty_and_improper_lists_become_empty_arrays() {
    assert_eq!(term_to_value(&Term::List(vec![])), Value::Array(vec![]));
    assert_eq!(term_to_value(&Term::ImproperList), Value::Array(vec![]));
}

#[test]
fn mapping_keys_are_text_or_atom_names() {
    let t = Term::Mapping(vec![
        (text("a"), Term::Integer(1)),
        (atom("b"), Term::Integer(2)),
        (Term::Integer(9), Term::Integer(3)),
        (text("c"), Term::List(vec![atom("true")])),
    ]);
    assert_eq!(
        term_to_value(&t),
        Value::Object(vec![
            ("a".to_string(), Value::Number(Number::Int(1))),
            ("b".to_string(), Value::Number(Number::Int(2))),
            ("c".to_string(), Value::Array(vec![Value::Bool(true)])),
        ])
    );
}

#[test]
fn repeated_key_keeps_first_entry() {
    let t = Term::Mapping(vec![
        (atom("k"), Term::Integer(1)),
        (text("k"), Term::Integer(2)),
    ]);
    assert_eq!(
        term_to_value(&t),
        Value::Object(vec![("k".to_string(), Value::Number(Number::Int(1)))])
    );
}

#[test]
fn whole_doubles_become_integers() {
    let f = |x: f64| value_to_term(&Value::Number(Number::Float(x.to_bits())));
    assert_eq!(f(2.0), Term::Integer(2));
    assert_eq!(f(-3.0), Term::Integer(-3));
    assert_eq!(f(0.0), Term::Integer(0));
    assert_eq!(f(-0.0), Term::Integer(0));
    assert_eq!(f(1024.0), Term::Integer(1024));
    assert_eq!(f(9007199254740992.0), Term::Integer(9007199254740992));
    assert_eq!(f(-9223372036854775808.0), Term::Integer(i64::MIN));
}

#[test]
fn other_doubles_stay_floats() {
    let f = |x: f64| value_to_term(&Value::Number(Number::Float(x.to_bits())));
    for x in [2.5f64, -0.75, 1e-300, 5e-324, 9223372036854775808.0, 1e300] {
        assert_eq!(f(x), Term::Float(x.to_bits()));
    }
}

#[test]
fn value_to_term_covers_every_variant() {
    assert_eq!(value_to_term(&Value::Null), atom("nil"));
    assert_eq!(value_to_term(&Value::Bool(true)), atom("true"));
    assert_eq!(value_to_term(&Value::Bool(false)), atom("false"));
    assert_eq!(value_to_term(&Value::Number(Number::Int(7))), Term::Integer(7));
    let bits = (-2.25f64).to_bits();
    assert_eq!(value_to_term(&Value::Number(Number::Float(bits))), Term::Float(bits));
    assert_eq!(value_to_term(&Value::String("ü".to_string())), Term::Binary(vec![0xc3, 0xbc]));
    assert_eq!(
        value_to_term(&Value::Array(vec![Value::Null])),
        Term::List(vec![atom("nil")])
    );
    assert_eq!(
        value_to_term(&Value::Object(vec![("k".to_string(), Value::Bool(false))])),
        Term::Mapping(vec![(text("k"), atom("false"))])
    );
}

#[test]
fn nested_value_round_trips() {
    let v = Value::Object(vec![
        ("name".to_string(), Value::String("lux".to_string())),
        ("count".to_string(), Value::Number(Number::Int(i64::MIN))),
        ("ratio".to_string(), Value::Number(Number::Float(0.5f64.to_bits()))),
        (
            "items".to_string(),
            Value::Array(vec![Value::Null, Value::Bool(true), Value::Object(vec![])]),
        ),
    ]);
    assert_eq!(term_to_value(&value_to_term(&v)), v);
}

#[test]
fn nil_text_is_not_null() {
    assert_eq!(term_to_value(&text("nil")), Value::String("nil".to_string()));
    let v = Value::String("true".to_string());
    assert_eq!(term_to_value(&value_to_term(&v)), v);
}

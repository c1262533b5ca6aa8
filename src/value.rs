//! The structured value model that components consume and produce.
use vstd::prelude::*;

verus! {

broadcast use vstd::std_specs::vec::group_vec_axioms, vstd::seq::group_seq_axioms;

/// A number: an integer, or a finite IEEE-754 double held as its bit pattern.
#[derive(PartialEq, Eq, Structural, Clone, Copy, Debug)]
pub enum Number {
    Int(i64),
    Float(u64),
}

/// A structured value. Object entries keep the order in which they were built.
/// A well-formed value holds only integers and finite doubles
/// (`bridge::numbers_finite`) and distinct keys in each object
/// (`bridge::keys_unique`); every value converted from a host term is so.
/// A double that is a whole number in the range of `i64` becomes an integer
/// term.
#[derive(Debug, PartialEq)]
pub enum Value {
    Null,
    Bool(bool),
    Number(Number),
    String(String),
    Array(Vec<Value>),
    Object(Vec<(String, Value)>),
}

/// The mathematical content of a `Value`.
pub enum ValueModel {
    Null,
    Bool(bool),
    Number(Number),
    Str(Seq<char>),
    Array(Seq<ValueModel>),
    Object(Seq<(Seq<char>, ValueModel)>),
}

pub open spec fn value_model(v: Value) -> ValueModel
    decreases v,
{
    match v {
        Value::Null => ValueModel::Null,
        Value::Bool(b) => ValueModel::Bool(b),
        Value::Number(n) => ValueModel::Number(n),
        Value::String(s) => ValueModel::Str(s@),
        Value::Array(a) => ValueModel::Array(
            Seq::new(
                a@.len(),
                |i: int|
                    if 0 <= i < a@.len() {
                        value_model(a@[i])
                    } else {
                        ValueModel::Null
                    },
            ),
        ),
        Value::Object(es) => ValueModel::Object(
            Seq::new(
                es@.len(),
                |i: int|
                    if 0 <= i < es@.len() {
                        (es@[i].0@, value_model(es@[i].1))
                    } else {
                        (Seq::empty(), ValueModel::Null)
                    },
            ),
        ),
    }
}

impl View for Value {
    type V = ValueModel;

    open spec fn view(&self) -> ValueModel {
        value_model(*self)
    }
}

} // verus!

//! A host term, as the bridge reads it.
use vstd::prelude::*;

verus! {

broadcast use vstd::std_specs::vec::group_vec_axioms, vstd::seq::group_seq_axioms;

/// A term of the host runtime. Integers outside the range of `i64` are
/// `BigInteger`; a float is held as the bit pattern of its double; tuples,
/// process identifiers, references, functions and the like are `Other`.
#[derive(Debug, PartialEq)]
pub enum Term {
    Mapping(Vec<(Term, Term)>),
    List(Vec<Term>),
    ImproperList,
    Integer(i64),
    BigInteger,
    Float(u64),
    Binary(Vec<u8>),
    Atom(String),
    Other,
}

/// The mathematical content of a `Term`.
pub enum TermModel {
    Mapping(Seq<(TermModel, TermModel)>),
    List(Seq<TermModel>),
    ImproperList,
    Integer(i64),
    BigInteger,
    Float(u64),
    Binary(Seq<u8>),
    Atom(Seq<char>),
    Other,
}

pub open spec fn term_model(t: Term) -> TermModel
    decreases t,
{
    match t {
        Term::Mapping(es) => TermModel::Mapping(
            Seq::new(
                es@.len(),
                |i: int|
                    if 0 <= i < es@.len() {
                        (term_model(es@[i].0), term_model(es@[i].1))
                    } else {
                        (TermModel::Other, TermModel::Other)
                    },
            ),
        ),
        Term::List(items) => TermModel::List(
            Seq::new(
                items@.len(),
                |i: int|
                    if 0 <= i < items@.len() {
                        term_model(items@[i])
                    } else {
                        TermModel::Other
                    },
            ),
        ),
        Term::ImproperList => TermModel::ImproperList,
        Term::Integer(n) => TermModel::Integer(n),
        Term::BigInteger => TermModel::BigInteger,
        Term::Float(bits) => TermModel::Float(bits),
        Term::Binary(b) => TermModel::Binary(b@),
        Term::Atom(name) => TermModel::Atom(name@),
        Term::Other => TermModel::Other,
    }
}

impl View for Term {
    type V = TermModel;

    open spec fn view(&self) -> TermModel {
        term_model(*self)
    }
}

} // verus!

//! Conversion between host terms and structured values.
use vstd::arithmetic::div_mod::lemma_small_mod;
use vstd::arithmetic::power2::{
    lemma2_to64, lemma2_to64_rest, lemma_pow2_pos, lemma_pow2_strictly_increases, pow2,
};
use vstd::bits::{
    lemma_u64_low_bits_mask_is_mod, lemma_u64_shl_is_mul, lemma_u64_shr_is_div, low_bits_mask,
};
use vstd::prelude::*;
use vstd::string::StrSliceExecFns;
use vstd::utf8::{
    decode_utf8, decode_utf8_encode_utf8, encode_utf8, encode_utf8_decode_utf8, encode_utf8_valid_utf8,
    valid_utf8,
};

use crate::term::{Term, TermModel};
use crate::value::{Number, Value, ValueModel};

verus! {

broadcast use vstd::std_specs::vec::group_vec_axioms, vstd::seq::group_seq_axioms;

/// The bit pattern of a double is finite when its exponent is not all ones.
pub open spec fn is_finite_bits(bits: u64) -> bool {
    (bits >> 52u64) & 0x7ffu64 != 0x7ffu64
}

pub open spec fn nil_name() -> Seq<char> {
    seq!['n', 'i', 'l']
}

pub open spec fn true_name() -> Seq<char> {
    seq!['t', 'r', 'u', 'e']
}

pub open spec fn false_name() -> Seq<char> {
    seq!['f', 'a', 'l', 's', 'e']
}

/// The biased exponent field of a double.
pub open spec fn exponent_of(bits: u64) -> int {
    ((bits >> 52u64) & 0x7ffu64) as int
}

/// The mantissa field of a double.
pub open spec fn mantissa_of(bits: u64) -> int {
    (bits & 0xf_ffff_ffff_ffffu64) as int
}

pub open spec fn sign_of(bits: u64) -> bool {
    bits >> 63u64 == 1u64
}

/// The magnitude of a double when it is a whole number. A normal double is
/// (2^52 + mantissa) * 2^(exponent - 1075); a zero of either sign is whole,
/// a subnormal one lies strictly between 0 and 1, and infinities and NaNs are
/// not numbers.
pub open spec fn whole_magnitude(bits: u64) -> Option<int> {
    let e = exponent_of(bits);
    let sig = pow2(52) + mantissa_of(bits);
    if e == 0 && mantissa_of(bits) == 0 {
        Some(0)
    } else if e == 0 || e == 0x7ff {
        None
    } else if e >= 1075 {
        Some(sig * pow2((e - 1075) as nat))
    } else if sig % (pow2((1075 - e) as nat) as int) == 0 {
        Some(sig / (pow2((1075 - e) as nat) as int))
    } else {
        None
    }
}

/// The integer a double stands for, when it has no fractional part and lies
/// in the range of `i64`.
pub open spec fn whole_value(bits: u64) -> Option<i64> {
    match whole_magnitude(bits) {
        Some(mag) => {
            let v = if sign_of(bits) {
                -mag
            } else {
                mag
            };
            if i64::MIN <= v <= i64::MAX {
                Some(v as i64)
            } else {
                None
            }
        },
        None => None,
    }
}

/// The text a term decodes as: a binary holding valid UTF-8.
pub open spec fn text_of(t: TermModel) -> Option<Seq<char>> {
    match t {
        TermModel::Binary(b) => if valid_utf8(b) {
            Some(decode_utf8(b))
        } else {
            None
        },
        _ => None,
    }
}

/// The value a term converts to. The shapes are tried in a fixed order:
/// mapping, list, number, text, boolean, atom; anything else is null.
pub open spec fn value_of_term(t: TermModel) -> ValueModel
    decreases t,
{
    match t {
        TermModel::Mapping(es) => ValueModel::Object(object_of_entries(es)),
        TermModel::List(items) => ValueModel::Array(
            Seq::new(
                items.len(),
                |i: int|
                    if 0 <= i < items.len() {
                        value_of_term(items[i])
                    } else {
                        ValueModel::Null
                    },
            ),
        ),
        TermModel::ImproperList => ValueModel::Array(Seq::empty()),
        TermModel::Integer(n) => ValueModel::Number(Number::Int(n)),
        TermModel::BigInteger => ValueModel::Number(Number::Int(0)),
        TermModel::Float(bits) => if is_finite_bits(bits) {
            ValueModel::Number(Number::Float(bits))
        } else {
            ValueModel::Number(Number::Int(0))
        },
        TermModel::Binary(b) => if valid_utf8(b) {
            ValueModel::Str(decode_utf8(b))
        } else {
            ValueModel::Null
        },
        TermModel::Atom(name) => if name == true_name() {
            ValueModel::Bool(true)
        } else if name == false_name() {
            ValueModel::Bool(false)
        } else if name == nil_name() {
            ValueModel::Null
        } else {
            ValueModel::Str(name)
        },
        TermModel::Other => ValueModel::Null,
    }
}

/// The key a mapping entry's key term gives: its text, or the name of an atom.
pub open spec fn key_of(t: TermModel) -> Option<Seq<char>> {
    match t {
        TermModel::Atom(name) => Some(name),
        _ => text_of(t),
    }
}

/// Whether some entry has key `k`.
pub open spec fn has_key(es: Seq<(Seq<char>, ValueModel)>, k: Seq<char>) -> bool {
    exists|i: int| 0 <= i < es.len() && #[trigger] es[i].0 == k
}

/// The entries of a mapping, converted, in order. An entry whose key is
/// neither text nor an atom is left out, and so is one whose key an earlier
/// entry already gave.
pub open spec fn object_of_entries(es: Seq<(TermModel, TermModel)>) -> Seq<(Seq<char>, ValueModel)>
    decreases es,
{
    if es.len() == 0 {
        Seq::empty()
    } else {
        let rest = object_of_entries(es.drop_last());
        match key_of(es.last().0) {
            Some(k) => if has_key(rest, k) {
                rest
            } else {
                rest.push((k, value_of_term(es.last().1)))
            },
            None => rest,
        }
    }
}

/// The term a value converts to: null and booleans become atoms, a number an
/// integer when it is whole and fits in `i64` and a float otherwise, text a
/// UTF-8 binary, an array a list, an object a mapping with text keys.
pub open spec fn term_of_value(v: ValueModel) -> TermModel
    decreases v,
{
    match v {
        ValueModel::Null => TermModel::Atom(nil_name()),
        ValueModel::Bool(b) => TermModel::Atom(
            if b {
                true_name()
            } else {
                false_name()
            },
        ),
        ValueModel::Number(Number::Int(n)) => TermModel::Integer(n),
        ValueModel::Number(Number::Float(bits)) => match whole_value(bits) {
            Some(n) => TermModel::Integer(n),
            None => TermModel::Float(bits),
        },
        ValueModel::Str(s) => TermModel::Binary(encode_utf8(s)),
        ValueModel::Array(a) => TermModel::List(
            Seq::new(
                a.len(),
                |i: int|
                    if 0 <= i < a.len() {
                        term_of_value(a[i])
                    } else {
                        TermModel::Other
                    },
            ),
        ),
        ValueModel::Object(es) => TermModel::Mapping(
            Seq::new(
                es.len(),
                |i: int|
                    if 0 <= i < es.len() {
                        (TermModel::Binary(encode_utf8(es[i].0)), term_of_value(es[i].1))
                    } else {
                        (TermModel::Other, TermModel::Other)
                    },
            ),
        ),
    }
}

/// Relies on std's `String::from_utf8`: it succeeds exactly when the bytes are
/// valid UTF-8, and the string then holds the characters they encode.
#[verifier::external_body]
fn text_from_utf8(bytes: &Vec<u8>) -> (r: Option<String>)
    ensures
        r is Some <==> valid_utf8(bytes@),
        r matches Some(s) ==> s@ == decode_utf8(bytes@),
{
    String::from_utf8(bytes.clone()).ok()
}

fn is_finite(bits: u64) -> (r: bool)
    ensures
        r == is_finite_bits(bits),
{
    (bits >> 52u64) & 0x7ffu64 != 0x7ffu64
}

/// Whether `name` spells `word`.
fn spells(name: &String, word: &str) -> (r: bool)
    ensures
        r == (name@ == word@),
{
    let w = word.to_owned();
    *name == w
}

fn atom_to_value(name: &String) -> (r: Value)
    ensures
        r@ == value_of_term(TermModel::Atom(name@)),
{
    proof {
        reveal_strlit("true");
        reveal_strlit("false");
        reveal_strlit("nil");
        assert("true"@ =~= true_name());
        assert("false"@ =~= false_name());
        assert("nil"@ =~= nil_name());
    }
    if spells(name, "true") {
        Value::Bool(true)
    } else if spells(name, "false") {
        Value::Bool(false)
    } else if spells(name, "nil") {
        Value::Null
    } else {
        Value::String(name.clone())
    }
}

/// The model of the entries of a mapping term.
pub open spec fn entries_model(es: Seq<(Term, Term)>) -> Seq<(TermModel, TermModel)> {
    Seq::new(es.len(), |i: int| (es[i].0@, es[i].1@))
}

/// The model of the entries of an object value.
pub open spec fn object_model(es: Seq<(String, Value)>) -> Seq<(Seq<char>, ValueModel)> {
    Seq::new(es.len(), |i: int| (es[i].0@, es[i].1@))
}

/// Converts a host term to a value. Never fails: every term has a value.
/// A mapping's entry takes as key its key's text, or the name of an atom key;
/// an entry with any other key, or with a key that an earlier entry already
/// gave, is left out, so the keys of every object are distinct.
pub fn term_to_value(t: &Term) -> (r: Value)
    ensures
        r@ == value_of_term(t@),
        numbers_finite(r@),
        keys_unique(r@),
    decreases t,
{
    proof {
        lemma_converted_numbers_finite(t@);
        lemma_converted_keys_unique(t@);
    }
    match t {
        Term::Mapping(es) => {
            let out = object_from_entries(es);
            let r = Value::Object(out);
            proof {
                assert(t@->Mapping_0 =~= entries_model(es@));
                assert(r@->Object_0 =~= object_model(out@));
            }
            r
        },
        Term::List(items) => {
            let out = values_from_terms(items);
            let r = Value::Array(out);
            assert(r@->Array_0 =~= value_of_term(t@)->Array_0);
            r
        },
        Term::ImproperList => {
            let r = Value::Array(Vec::new());
            assert(r@->Array_0 =~= Seq::empty());
            r
        },
        Term::Integer(n) => Value::Number(Number::Int(*n)),
        Term::BigInteger => Value::Number(Number::Int(0)),
        Term::Float(bits) => if is_finite(*bits) {
            Value::Number(Number::Float(*bits))
        } else {
            Value::Number(Number::Int(0))
        },
        Term::Binary(b) => match text_from_utf8(b) {
            Some(s) => Value::String(s),
            None => Value::Null,
        },
        Term::Atom(name) => atom_to_value(name),
        Term::Other => Value::Null,
    }
}

fn values_from_terms(items: &Vec<Term>) -> (r: Vec<Value>)
    ensures
        r@.len() == items@.len(),
        forall|j: int| 0 <= j < items@.len() ==> (#[trigger] r@[j])@ == value_of_term(items@[j]@),
    decreases items,
{
    let mut out: Vec<Value> = Vec::new();
    let mut i: usize = 0;
    while i < items.len()
        invariant
            0 <= i <= items@.len(),
            out@.len() == i,
            forall|j: int| 0 <= j < i ==> (#[trigger] out@[j])@ == value_of_term(items@[j]@),
        decreases items@.len() - i,
    {
        let v = term_to_value(&items[i]);
        out.push(v);
        i += 1;
    }
    out
}

fn entry_value(e: &(Term, Term)) -> (r: Value)
    ensures
        r@ == value_of_term(e.1@),
    decreases e,
{
    term_to_value(&e.1)
}

/// Whether some entry of `es` has key `k`.
fn contains_key(es: &Vec<(String, Value)>, k: &String) -> (r: bool)
    ensures
        r == has_key(object_model(es@), k@),
{
    let mut j: usize = 0;
    while j < es.len()
        invariant
            0 <= j <= es@.len(),
            forall|l: int| 0 <= l < j ==> es@[l].0@ != k@,
        decreases es@.len() - j,
    {
        if es[j].0 == *k {
            assert(object_model(es@)[j as int].0 == k@);
            return true;
        }
        j += 1;
    }
    proof {
        let om = object_model(es@);
        assert forall|l: int| 0 <= l < om.len() implies #[trigger] om[l].0 != k@ by {
            assert(om[l].0 == es@[l].0@);
        }
    }
    false
}

fn object_from_entries(es: &Vec<(Term, Term)>) -> (r: Vec<(String, Value)>)
    ensures
        object_model(r@) == object_of_entries(entries_model(es@)),
    decreases es,
{
    let ghost em = entries_model(es@);
    let mut out: Vec<(String, Value)> = Vec::new();
    let mut i: usize = 0;
    while i < es.len()
        invariant
            0 <= i <= es@.len(),
            em == entries_model(es@),
            object_model(out@) == object_of_entries(em.take(i as int)),
        decreases es@.len() - i,
    {
        let key = match &es[i].0 {
            Term::Binary(b) => text_from_utf8(b),
            Term::Atom(name) => Some(name.clone()),
            _ => None,
        };
        proof {
            assert(em.take(i + 1).drop_last() =~= em.take(i as int));
            assert(em.take(i + 1).last() == em[i as int]);
        }
        match key {
            Some(k) => {
                let ghost before = out@;
                if !contains_key(&out, &k) {
                    let v = entry_value(&es[i]);
                    out.push((k, v));
                    proof {
                        assert(object_model(out@) =~= object_model(before).push((k@, v@)));
                    }
                }
            },
            None => {},
        }
        i += 1;
    }
    proof {
        assert(em.take(i as int) =~= em);
    }
    out
}

/// The integer a double stands for, if it is whole and fits in `i64`.
fn whole_number(bits: u64) -> (r: Option<i64>)
    ensures
        r == whole_value(bits),
{
    let e = (bits >> 52u64) & 0x7ffu64;
    let m = bits & 0xf_ffff_ffff_ffffu64;
    let negative = bits >> 63u64 == 1u64;
    proof {
        lemma2_to64();
        lemma2_to64_rest();
        assert(e <= 0x7ff) by (bit_vector)
            requires
                e == (bits >> 52u64) & 0x7ffu64,
        ;
        assert(m < 0x10_0000_0000_0000u64) by (bit_vector)
            requires
                m == bits & 0xf_ffff_ffff_ffffu64,
        ;
    }
    if e == 0 && m == 0 {
        return Some(0);
    }
    if e == 0 || e == 0x7ff {
        return None;
    }
    let sig = m | 0x10_0000_0000_0000u64;
    proof {
        assert(sig == m + 0x10_0000_0000_0000u64) by (bit_vector)
            requires
                sig == m | 0x10_0000_0000_0000u64,
                m < 0x10_0000_0000_0000u64,
        ;
        assert(pow2(52) == 0x10_0000_0000_0000);
    }
    let mag: u64;
    if e >= 1075 {
        let k = e - 1075;
        if k > 11 {
            proof {
                if k > 12 {
                    lemma_pow2_strictly_increases(12, k as nat);
                }
                assert(pow2(12) == 4096);
                assert(sig * pow2(k as nat) >= 0x10_0000_0000_0000 * 4096) by (nonlinear_arith)
                    requires
                        sig >= 0x10_0000_0000_0000,
                        pow2(k as nat) >= 4096,
                ;
                assert(exponent_of(bits) == e as int);
                assert(mantissa_of(bits) == m as int);
                assert(whole_magnitude(bits) == Some(sig as int * pow2(k as nat)));
            }
            return None;
        }
        proof {
            if k < 11 {
                lemma_pow2_strictly_increases(k as nat, 11);
            }
            assert(pow2(11) == 2048);
            assert(sig * pow2(k as nat) <= u64::MAX) by (nonlinear_arith)
                requires
                    sig < 0x20_0000_0000_0000,
                    pow2(k as nat) <= 2048,
            ;
            lemma_u64_shl_is_mul(sig, k);
        }
        mag = sig << k;
    } else {
        let k = 1075 - e;
        if k >= 53 {
            proof {
                if k > 53 {
                    lemma_pow2_strictly_increases(53, k as nat);
                }
                assert(pow2(53) == 0x20_0000_0000_0000);
                lemma_small_mod(sig as nat, pow2(k as nat));
            }
            return None;
        }
        proof {
            lemma_u64_shl_is_mul(1u64, k);
            lemma_u64_low_bits_mask_is_mod(sig, k as nat);
            lemma_u64_shr_is_div(sig, k);
            lemma_pow2_pos(k as nat);
        }
        let mask = (1u64 << k) - 1;
        proof {
            assert(low_bits_mask(k as nat) == pow2(k as nat) - 1);
        }
        if sig & mask != 0 {
            return None;
        }
        mag = sig >> k;
    }
    if negative {
        if mag > 0x8000_0000_0000_0000u64 {
            None
        } else if mag == 0x8000_0000_0000_0000u64 {
            Some(i64::MIN)
        } else {
            Some(-(mag as i64))
        }
    } else if mag > 0x7fff_ffff_ffff_ffffu64 {
        None
    } else {
        Some(mag as i64)
    }
}

/// Converts a value to a host term. Never fails: every value has a term.
pub fn value_to_term(v: &Value) -> (r: Term)
    ensures
        r@ == term_of_value(v@),
        keys_unique(v@) ==> map_keys_distinct(r@),
    decreases v,
{
    proof {
        if keys_unique(v@) {
            lemma_built_keys_distinct(v@);
        }
        reveal_strlit("true");
        reveal_strlit("false");
        reveal_strlit("nil");
        assert("true"@ =~= true_name());
        assert("false"@ =~= false_name());
        assert("nil"@ =~= nil_name());
    }
    match v {
        Value::Null => Term::Atom("nil".to_owned()),
        Value::Bool(b) => if *b {
            Term::Atom("true".to_owned())
        } else {
            Term::Atom("false".to_owned())
        },
        Value::Number(Number::Int(n)) => Term::Integer(*n),
        Value::Number(Number::Float(bits)) => match whole_number(*bits) {
            Some(n) => Term::Integer(n),
            None => Term::Float(*bits),
        },
        Value::String(s) => Term::Binary(s.as_str().as_bytes_vec()),
        Value::Array(a) => {
            let out = terms_from_values(a);
            let r = Term::List(out);
            assert(r@->List_0 =~= term_of_value(v@)->List_0);
            r
        },
        Value::Object(es) => {
            let out = entries_from_object(es);
            let r = Term::Mapping(out);
            assert(r@->Mapping_0 =~= term_of_value(v@)->Mapping_0);
            r
        },
    }
}

fn terms_from_values(items: &Vec<Value>) -> (r: Vec<Term>)
    ensures
        r@.len() == items@.len(),
        forall|j: int| 0 <= j < items@.len() ==> (#[trigger] r@[j])@ == term_of_value(items@[j]@),
    decreases items,
{
    let mut out: Vec<Term> = Vec::new();
    let mut i: usize = 0;
    while i < items.len()
        invariant
            0 <= i <= items@.len(),
            out@.len() == i,
            forall|j: int| 0 <= j < i ==> (#[trigger] out@[j])@ == term_of_value(items@[j]@),
        decreases items@.len() - i,
    {
        let t = value_to_term(&items[i]);
        out.push(t);
        i += 1;
    }
    out
}

fn entry_term(e: &(String, Value)) -> (r: Term)
    ensures
        r@ == term_of_value(e.1@),
    decreases e,
{
    value_to_term(&e.1)
}

fn entries_from_object(es: &Vec<(String, Value)>) -> (r: Vec<(Term, Term)>)
    ensures
        r@.len() == es@.len(),
        forall|j: int|
            0 <= j < es@.len() ==> (#[trigger] r@[j]).0@ == TermModel::Binary(encode_utf8(es@[j].0@))
                && r@[j].1@ == term_of_value(es@[j].1@),
    decreases es,
{
    let mut out: Vec<(Term, Term)> = Vec::new();
    let mut i: usize = 0;
    while i < es.len()
        invariant
            0 <= i <= es@.len(),
            out@.len() == i,
            forall|j: int|
                0 <= j < i ==> (#[trigger] out@[j]).0@ == TermModel::Binary(encode_utf8(es@[j].0@))
                    && out@[j].1@ == term_of_value(es@[j].1@),
        decreases es@.len() - i,
    {
        let key = Term::Binary(es[i].0.as_str().as_bytes_vec());
        let t = entry_term(&es[i]);
        out.push((key, t));
        i += 1;
    }
    out
}


/// Every number in the value is an integer or a finite double.
pub open spec fn numbers_finite(v: ValueModel) -> bool
    decreases v,
{
    match v {
        ValueModel::Number(Number::Float(bits)) => is_finite_bits(bits),
        ValueModel::Array(a) => forall|i: int| 0 <= i < a.len() ==> numbers_finite(#[trigger] a[i]),
        ValueModel::Object(es) => forall|i: int|
            0 <= i < es.len() ==> numbers_finite(#[trigger] es[i].1),
        _ => true,
    }
}

/// Every double in the value is finite and has a fractional part or lies
/// outside the range of `i64`: such doubles stay doubles in a term.
pub open spec fn doubles_stay_doubles(v: ValueModel) -> bool
    decreases v,
{
    match v {
        ValueModel::Number(Number::Float(bits)) => is_finite_bits(bits) && whole_value(bits) is None,
        ValueModel::Array(a) => forall|i: int|
            0 <= i < a.len() ==> doubles_stay_doubles(#[trigger] a[i]),
        ValueModel::Object(es) => forall|i: int|
            0 <= i < es.len() ==> doubles_stay_doubles(#[trigger] es[i].1),
        _ => true,
    }
}

/// Converting a value to a term and back gives the value again, for every
/// value with distinct keys in each object whose doubles are finite and not
/// whole numbers that fit in `i64` (those come back as integers of the same
/// value).
pub proof fn lemma_round_trip(v: ValueModel)
    requires
        doubles_stay_doubles(v),
        keys_unique(v),
    ensures
        value_of_term(term_of_value(v)) == v,
    decreases v,
{
    match v {
        ValueModel::Str(s) => {
            encode_utf8_valid_utf8(s);
            encode_utf8_decode_utf8(s);
        },
        ValueModel::Array(a) => {
            let t = term_of_value(v);
            assert forall|i: int| 0 <= i < a.len() implies value_of_term(t->List_0[i]) == a[i] by {
                lemma_round_trip(a[i]);
            }
            assert(value_of_term(t)->Array_0 =~= a);
        },
        ValueModel::Object(es) => {
            lemma_entries_round_trip(es);
        },
        _ => {},
    }
}

/// The entries of an object survive the trip through a mapping term.
proof fn lemma_entries_round_trip(es: Seq<(Seq<char>, ValueModel)>)
    requires
        forall|i: int| 0 <= i < es.len() ==> doubles_stay_doubles(#[trigger] es[i].1),
        forall|i: int| 0 <= i < es.len() ==> keys_unique(#[trigger] es[i].1),
        forall|i: int, j: int| 0 <= i < j < es.len() ==> #[trigger] es[i].0 != #[trigger] es[j].0,
    ensures
        object_of_entries(term_of_value(ValueModel::Object(es))->Mapping_0) == es,
    decreases es,
{
    let ms = term_of_value(ValueModel::Object(es))->Mapping_0;
    if es.len() > 0 {
        let init = es.drop_last();
        assert forall|i: int, j: int| 0 <= i < j < init.len() implies #[trigger] init[i].0
            != #[trigger] init[j].0 by {
            assert(init[i] == es[i] && init[j] == es[j]);
        }
        lemma_entries_round_trip(init);
        assert(ms.drop_last() =~= term_of_value(ValueModel::Object(init))->Mapping_0);
        let k = es.last().0;
        assert forall|i: int| 0 <= i < init.len() implies #[trigger] init[i].0 != k by {
            assert(init[i] == es[i]);
        }
        encode_utf8_valid_utf8(k);
        encode_utf8_decode_utf8(k);
        lemma_round_trip(es.last().1);
        assert(object_of_entries(ms) =~= es);
    } else {
        assert(object_of_entries(ms) =~= es);
    }
}


/// Every value that a term converts to holds only integers and finite doubles.
pub proof fn lemma_converted_numbers_finite(t: TermModel)
    ensures
        numbers_finite(value_of_term(t)),
    decreases t,
{
    match t {
        TermModel::Mapping(es) => {
            lemma_entries_numbers_finite(es);
            let oe = value_of_term(t)->Object_0;
            assert(oe == object_of_entries(es));
            assert forall|i: int| 0 <= i < oe.len() implies numbers_finite(#[trigger] oe[i].1) by {}
        },
        TermModel::List(items) => {
            let a = value_of_term(t)->Array_0;
            assert forall|i: int| 0 <= i < a.len() implies numbers_finite(#[trigger] a[i]) by {
                lemma_converted_numbers_finite(items[i]);
            }
        },
        _ => {},
    }
}

proof fn lemma_entries_numbers_finite(es: Seq<(TermModel, TermModel)>)
    ensures
        forall|i: int|
            0 <= i < object_of_entries(es).len() ==> numbers_finite(
                #[trigger] object_of_entries(es)[i].1,
            ),
    decreases es,
{
    if es.len() > 0 {
        let rest = object_of_entries(es.drop_last());
        lemma_entries_numbers_finite(es.drop_last());
        lemma_converted_numbers_finite(es.last().1);
        let all = object_of_entries(es);
        assert forall|i: int| 0 <= i < all.len() implies numbers_finite(#[trigger] all[i].1) by {
            if i < rest.len() {
                assert(all[i] == rest[i]);
            }
        }
    }
}


/// The keys of every object in the value are pairwise distinct.
pub open spec fn keys_unique(v: ValueModel) -> bool
    decreases v,
{
    match v {
        ValueModel::Array(a) => forall|i: int| 0 <= i < a.len() ==> keys_unique(#[trigger] a[i]),
        ValueModel::Object(es) => {
            &&& forall|i: int, j: int| 0 <= i < j < es.len() ==> #[trigger] es[i].0 != #[trigger] es[j].0
            &&& forall|i: int| 0 <= i < es.len() ==> keys_unique(#[trigger] es[i].1)
        },
        _ => true,
    }
}

/// The keys of every mapping in the term are pairwise distinct, as they are
/// in every term the host runtime builds.
pub open spec fn map_keys_distinct(t: TermModel) -> bool
    decreases t,
{
    match t {
        TermModel::Mapping(es) => {
            &&& forall|i: int, j: int| 0 <= i < j < es.len() ==> #[trigger] es[i].0 != #[trigger] es[j].0
            &&& forall|i: int| 0 <= i < es.len() ==> map_keys_distinct(#[trigger] es[i].1)
        },
        TermModel::List(items) => forall|i: int|
            0 <= i < items.len() ==> map_keys_distinct(#[trigger] items[i]),
        _ => true,
    }
}

/// Every value that a term converts to has distinct keys in each object.
pub proof fn lemma_converted_keys_unique(t: TermModel)
    ensures
        keys_unique(value_of_term(t)),
    decreases t,
{
    match t {
        TermModel::Mapping(es) => {
            lemma_entries_keys_unique(es);
            let oe = value_of_term(t)->Object_0;
            assert(oe == object_of_entries(es));
        },
        TermModel::List(items) => {
            let a = value_of_term(t)->Array_0;
            assert forall|i: int| 0 <= i < a.len() implies keys_unique(#[trigger] a[i]) by {
                lemma_converted_keys_unique(items[i]);
            }
        },
        _ => {},
    }
}

proof fn lemma_entries_keys_unique(es: Seq<(TermModel, TermModel)>)
    ensures
        ({
            let oe = object_of_entries(es);
            &&& forall|i: int, j: int| 0 <= i < j < oe.len() ==> #[trigger] oe[i].0 != #[trigger] oe[j].0
            &&& forall|i: int| 0 <= i < oe.len() ==> keys_unique(#[trigger] oe[i].1)
        }),
    decreases es,
{
    if es.len() > 0 {
        let init = es.drop_last();
        let rest = object_of_entries(init);
        lemma_entries_keys_unique(init);
        let oe = object_of_entries(es);
        let last = es.last();
        match key_of(last.0) {
            Some(k) => {
                if !has_key(rest, k) {
                    lemma_converted_keys_unique(last.1);
                    assert forall|i: int, j: int| 0 <= i < j < oe.len() implies #[trigger] oe[i].0
                        != #[trigger] oe[j].0 by {
                        assert(oe[i] == rest[i]);
                        if j < rest.len() {
                            assert(oe[j] == rest[j]);
                        }
                    }
                    assert forall|i: int| 0 <= i < oe.len() implies keys_unique(#[trigger] oe[i].1) by {
                        if i < rest.len() {
                            assert(oe[i] == rest[i]);
                        }
                    }
                }
            },
            None => {},
        }
    }
}

/// A value whose object keys are distinct converts to a term whose mapping
/// keys are distinct, so the host can build every mapping in it.
pub proof fn lemma_built_keys_distinct(v: ValueModel)
    requires
        keys_unique(v),
    ensures
        map_keys_distinct(term_of_value(v)),
    decreases v,
{
    match v {
        ValueModel::Array(a) => {
            let items = term_of_value(v)->List_0;
            assert forall|i: int| 0 <= i < items.len() implies map_keys_distinct(#[trigger] items[i]) by {
                lemma_built_keys_distinct(a[i]);
            }
        },
        ValueModel::Object(es) => {
            let ms = term_of_value(v)->Mapping_0;
            assert forall|i: int, j: int| 0 <= i < j < ms.len() implies #[trigger] ms[i].0 != #[trigger] ms[j].0 by {
                encode_utf8_decode_utf8(es[i].0);
                encode_utf8_decode_utf8(es[j].0);
            }
            assert forall|i: int| 0 <= i < ms.len() implies map_keys_distinct(#[trigger] ms[i].1) by {
                lemma_built_keys_distinct(es[i].1);
            }
        },
        _ => {},
    }
}

} // verus!

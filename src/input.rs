use num_bigint::BigInt;
use std::str::FromStr;
use vstd::prelude::*;

verus! {

#[verifier::external_type_specification]
#[verifier::external_body]
pub struct ExBigInt(num_bigint::BigInt);

/// Drops a leading `c`, unless a `+` follows it.
pub open spec fn strip_sign(s: Seq<char>, c: char) -> Seq<char> {
    if s.len() > 0 && s[0] == c && !(s.len() > 1 && s[1] == '+') {
        s.drop_first()
    } else {
        s
    }
}

/// Whether the text is a base-10 integer literal: an optional `-`, an
/// optional `+`, then decimal digits and `_` separators, starting with a digit.
pub open spec fn is_integer_literal(s: Seq<char>) -> bool {
    let d = strip_sign(strip_sign(s, '-'), '+');
    &&& d.len() > 0
    &&& d[0] != '_'
    &&& forall|i: int| 0 <= i < d.len() ==> ('0' <= #[trigger] d[i] <= '9' || d[i] == '_')
}

/// The integer that `BigInt::from_str` reads from a literal.
pub uninterp spec fn integer_of_text(s: Seq<char>) -> BigInt;

/// The integer that `BigInt::from(i64)` gives.
pub uninterp spec fn integer_of_i64(n: i64) -> BigInt;

/// Relies on `BigInt::from_str` (base 10): `Some` exactly for an integer
/// literal, holding the integer it denotes.
#[verifier::external_body]
fn parse_integer(s: &str) -> (r: Option<BigInt>)
    ensures
        r is Some <==> is_integer_literal(s@),
        r is Some ==> r->Some_0 == integer_of_text(s@),
{
    BigInt::from_str(s).ok()
}

/// Relies on `BigInt::from(i64)`: every `i64` converts, to its own value.
#[verifier::external_body]
fn integer_from_i64(n: i64) -> (r: BigInt)
    ensures
        r == integer_of_i64(n),
{
    BigInt::from(n)
}

/// One value of an input document.
pub enum JsonValue {
    Number(i64),
    Str(String),
    Array(Vec<JsonValue>),
    /// Any other shape: object, boolean, null, or a number that is not an integer.
    Other,
}

/// Why a document could not be turned into inputs.
#[derive(Debug, PartialEq, Eq, Structural)]
pub enum InputError {
    /// A value has a shape that is not a number, a string or an array.
    DocumentParse,
    /// A string does not hold an integer.
    InputConversion,
}

/// Whether one array element converts to an integer.
pub open spec fn element_converts(v: JsonValue) -> bool {
    match v {
        JsonValue::Number(_) => true,
        JsonValue::Str(s) => is_integer_literal(s@),
        _ => false,
    }
}

/// The integer an array element converts to.
pub open spec fn element_integer(v: JsonValue) -> BigInt {
    match v {
        JsonValue::Number(n) => integer_of_i64(n),
        JsonValue::Str(s) => integer_of_text(s@),
        _ => arbitrary(),
    }
}

/// The integers an accepted value converts to, in source order.
pub open spec fn value_integers(v: JsonValue) -> Seq<BigInt> {
    match v {
        JsonValue::Array(a) => a@.map_values(|e: JsonValue| element_integer(e)),
        _ => seq![element_integer(v)],
    }
}

/// Whether a value has one of the accepted shapes.
pub open spec fn shape_accepted(v: JsonValue) -> bool {
    match v {
        JsonValue::Number(_) => true,
        JsonValue::Str(_) => true,
        JsonValue::Array(_) => true,
        JsonValue::Other => false,
    }
}

/// Whether every element of an array converts.
pub open spec fn elements_convert(a: Seq<JsonValue>) -> bool {
    forall|j: int| 0 <= j < a.len() ==> element_converts(#[trigger] a[j])
}

/// Whether every integer of an accepted value converts.
pub open spec fn value_converts(v: JsonValue) -> bool {
    match v {
        JsonValue::Number(_) => true,
        JsonValue::Str(s) => is_integer_literal(s@),
        JsonValue::Array(a) => elements_convert(a@),
        JsonValue::Other => false,
    }
}

/// How many integers an accepted value yields.
pub open spec fn value_count(v: JsonValue) -> nat {
    match v {
        JsonValue::Array(a) => a.len() as nat,
        _ => 1,
    }
}

/// The inputs of one document, one entry per key, in document order.
pub struct R1CSInputs {
    pub inputs: Vec<(String, Vec<BigInt>)>,
}

fn convert_element(v: &JsonValue) -> (r: Option<BigInt>)
    ensures
        r is Some <==> element_converts(*v),
        r is Some ==> r->Some_0 == element_integer(*v),
{
    match v {
        JsonValue::Number(n) => Some(integer_from_i64(*n)),
        JsonValue::Str(s) => parse_integer(s.as_str()),
        _ => None,
    }
}

fn convert_value(v: &JsonValue) -> (r: Result<Vec<BigInt>, InputError>)
    requires
        shape_accepted(*v),
    ensures
        r is Ok <==> value_converts(*v),
        r is Err ==> r->Err_0 == InputError::InputConversion,
        r is Ok ==> r->Ok_0.len() == value_count(*v),
        r is Ok ==> r->Ok_0@ == value_integers(*v),
{
    match v {
        JsonValue::Array(a) => {
            let mut out: Vec<BigInt> = Vec::new();
            let mut i: usize = 0;
            while i < a.len()
                invariant
                    *v == JsonValue::Array(*a),
                    i <= a.len(),
                    out.len() == i,
                    forall|j: int| 0 <= j < i ==> element_converts(#[trigger] a@[j]),
                    forall|j: int| 0 <= j < i ==> #[trigger] out@[j] == element_integer(a@[j]),
                decreases a.len() - i,
            {
                proof { assert(a@.len() == a.len()); }
                match convert_element(&a[i]) {
                    Some(x) => out.push(x),
                    None => {
                        assert(!element_converts(a@[i as int]));
                        assert(*v == JsonValue::Array(*a));
                        assert(!elements_convert(a@));
                        return Err(InputError::InputConversion);
                    },
                }
                i = i + 1;
            }
            assert(out@ =~= a@.map_values(|e: JsonValue| element_integer(e)));
            Ok(out)
        },
        _ => match convert_element(v) {
            Some(x) => {
                let out = vec![x];
                assert(out@ =~= value_integers(*v));
                Ok(out)
            },
            None => Err(InputError::InputConversion),
        },
    }
}

impl R1CSInputs {
    /// Converts a document, all or nothing. A value of an unaccepted shape
    /// anywhere fails the document with `DocumentParse`; otherwise a string
    /// that is no integer fails it with `InputConversion`.
    pub fn new(doc: Vec<(String, JsonValue)>) -> (r: Result<R1CSInputs, InputError>)
        ensures
            (r is Err && r->Err_0 == InputError::DocumentParse) <==> exists|i: int|
                0 <= i < doc.len() && !shape_accepted(#[trigger] doc@[i].1),
            r is Ok <==> forall|i: int| 0 <= i < doc.len() ==> value_converts(#[trigger] doc@[i].1),
            r is Ok ==> r->Ok_0.inputs.len() == doc.len(),
            r is Ok ==> forall|i: int| 0 <= i < doc.len() ==> {
                &&& (#[trigger] r->Ok_0.inputs@[i]).0@ == doc@[i].0@
                &&& r->Ok_0.inputs@[i].1.len() == value_count(doc@[i].1)
                &&& r->Ok_0.inputs@[i].1@ == value_integers(doc@[i].1)
            },
    {
        let mut k: usize = 0;
        while k < doc.len()
            invariant
                k <= doc.len(),
                forall|i: int| 0 <= i < k ==> shape_accepted(#[trigger] doc@[i].1),
            decreases doc.len() - k,
        {
            if !is_accepted(&doc[k].1) {
                return Err(InputError::DocumentParse);
            }
            k = k + 1;
        }
        let mut inputs: Vec<(String, Vec<BigInt>)> = Vec::new();
        let ghost d = doc@;
        let mut i: usize = 0;
        while i < doc.len()
            invariant
                doc@ == d,
                i <= d.len(),
                inputs.len() == i,
                forall|j: int| 0 <= j < d.len() ==> shape_accepted(#[trigger] d[j].1),
                forall|j: int| 0 <= j < i ==> value_converts(#[trigger] d[j].1),
                forall|j: int| 0 <= j < i ==> {
                    &&& (#[trigger] inputs@[j]).0@ == d[j].0@
                    &&& inputs@[j].1.len() == value_count(d[j].1)
                    &&& inputs@[j].1@ == value_integers(d[j].1)
                },
            decreases d.len() - i,
        {
            let vals = convert_value(&doc[i].1);
            match vals {
                Ok(vals) => {
                    let name = doc[i].0.clone();
                    inputs.push((name, vals));
                },
                Err(e) => {
                    assert(!value_converts(d[i as int].1));
                    assert(e == InputError::InputConversion);
                    assert(!(forall|j: int| 0 <= j < doc.len() ==> value_converts(#[trigger] doc@[j].1)));
                    return Err(e);
                },
            }
            i = i + 1;
        }
        Ok(R1CSInputs { inputs })
    }
}

fn is_accepted(v: &JsonValue) -> (r: bool)
    ensures
        r == shape_accepted(*v),
{
    match v {
        JsonValue::Other => false,
        _ => true,
    }
}

} // verus!

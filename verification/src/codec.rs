//! Reading JSON and YAML documents, and bytes that should be UTF-8.

use vstd::prelude::*;

use crate::json::{self, Json, JsonMap, JsonV};

verus! {

/// A value as `serde_json` holds it.
#[verifier::external_type_specification]
#[verifier::external_body]
pub struct ExValue(serde_json::Value);

/// What a `serde_json::Value` holds.
pub uninterp spec fn value_json(v: serde_json::Value) -> JsonV;

/// What a JSON document says; nothing where the text is no JSON document.
pub uninterp spec fn json_document(text: Seq<char>) -> Option<JsonV>;

/// What a YAML document says as JSON; nothing where the text is no such document.
pub uninterp spec fn yaml_document(text: Seq<char>) -> Option<JsonV>;

/// Bytes read as UTF-8, with U+FFFD for what is not valid.
pub uninterp spec fn utf8_lossy(bytes: Seq<u8>) -> Seq<char>;

/// One layer of a `serde_json::Value`.
pub enum Shape {
    Null,
    Bool(bool),
    /// The integer that the number is, if it is one, and the bits of its double.
    Number(Option<i128>, Option<u64>),
    Text(String),
    List(Vec<serde_json::Value>),
    Members(Vec<(String, serde_json::Value)>),
}

/// What the values of a list hold.
pub open spec fn values_json(v: Seq<serde_json::Value>) -> Seq<JsonV> {
    v.map_values(|x: serde_json::Value| value_json(x))
}

/// What the members of an object hold.
pub open spec fn members_json(v: Seq<(String, serde_json::Value)>) -> Seq<(Seq<char>, JsonV)> {
    v.map_values(|e: (String, serde_json::Value)| (e.0@, value_json(e.1)))
}

/// What a layer holds.
pub open spec fn shape_json(s: Shape) -> JsonV {
    match s {
        Shape::Null => JsonV::Null,
        Shape::Bool(b) => JsonV::Bool(b),
        Shape::Number(Some(i), _) => JsonV::Int(i as int),
        Shape::Number(None, bits) => JsonV::Real(bits.unwrap_or(0)),
        Shape::Text(t) => JsonV::Str(t@),
        Shape::List(l) => JsonV::Array(values_json(l@)),
        Shape::Members(m) => JsonV::Object(members_json(m@)),
    }
}

/// Takes the outermost layer off a `serde_json::Value`: which of its variants it is, with the
/// fields of that variant. A number gives what `Number::as_i128` and `Number::as_f64` say of it:
/// it is an integer between the smallest `i64` and the largest `u64`, or else a finite double. An
/// object gives its members in the order that it keeps.
#[verifier::external_body]
fn shape_of(v: serde_json::Value) -> (r: Shape)
    ensures
        shape_json(r) == value_json(v),
        r matches Shape::Number(Some(i), _) ==> i64::MIN <= i <= u64::MAX,
        r matches Shape::Number(None, bits) ==> bits is Some,
{
    match v {
        serde_json::Value::Null => Shape::Null,
        serde_json::Value::Bool(b) => Shape::Bool(b),
        serde_json::Value::Number(n) => Shape::Number(n.as_i128(), n.as_f64().map(|x| x.to_bits())),
        serde_json::Value::String(s) => Shape::Text(s),
        serde_json::Value::Array(a) => Shape::List(a),
        serde_json::Value::Object(o) => Shape::Members(o.into_iter().collect()),
    }
}

/// `serde_json::from_str` into a `serde_json::Value`: the value of a JSON document, or nothing
/// where the text is none. Which texts are documents, and what they say, is left to the name
/// `json_document`.
#[verifier::external_body]
fn json_value(text: &str) -> (r: Option<serde_json::Value>)
    ensures
        (match r {
            Some(v) => json_document(text@) == Some(value_json(v)),
            None => json_document(text@) is None,
        }),
{
    serde_json::from_str(text).ok()
}

/// `serde_yaml::from_str` into a `serde_json::Value`: the value of a YAML document, or nothing
/// where the text is none that JSON can hold. Which texts are, and what they say, is left to the
/// name `yaml_document`.
#[verifier::external_body]
fn yaml_value(text: &str) -> (r: Option<serde_json::Value>)
    ensures
        (match r {
            Some(v) => yaml_document(text@) == Some(value_json(v)),
            None => yaml_document(text@) is None,
        }),
{
    serde_yaml::from_str(text).ok()
}

/// `String::from_utf8_lossy`: the bytes as text, with replacement characters for what is not
/// valid UTF-8. Bytes that are valid give the text that they encode.
#[verifier::external_body]
pub(crate) fn text_from_utf8(bytes: &[u8]) -> (r: String)
    ensures
        r@ == utf8_lossy(bytes@),
        vstd::utf8::valid_utf8(bytes@) ==> r@ == vstd::utf8::decode_utf8(bytes@),
{
    String::from_utf8_lossy(bytes).into_owned()
}

/// The plain value of `v`.
pub fn plain(v: serde_json::Value) -> (r: Json)
    ensures
        r@ == value_json(v),
    decreases value_json(v),
{
    let ghost whole = value_json(v);
    match shape_of(v) {
        Shape::Null => Json::Null,
        Shape::Bool(b) => Json::Bool(b),
        Shape::Number(Some(i), _) => if i <= i64::MAX as i128 {
            Json::Int(i as i64)
        } else {
            Json::UInt(i as u64)
        },
        Shape::Number(None, bits) => match bits {
            Some(b) => Json::Real(b),
            None => Json::Null,
        },
        Shape::Text(t) => Json::Str(t),
        Shape::List(l) => {
            let ghost items = l@;
            let mut rest = l;
            let mut back: Vec<Json> = Vec::new();
            while rest.len() > 0
                invariant
                    rest@ == items.take(rest@.len() as int),
                    rest.len() <= items.len(),
                    back.len() == items.len() - rest.len(),
                    whole == value_json(v),
                    whole == JsonV::Array(values_json(items)),
                    forall|j: int|
                        0 <= j < back.len() ==> json::json_view(#[trigger] back@[j]) == value_json(
                            items[items.len() - 1 - j],
                        ),
                decreases rest.len(),
            {
                let n: usize = rest.len() - 1;
                match rest.pop() {
                    Some(x) => {
                        proof {
                            assert(x == items[n as int]);
                            assert(values_json(items)[n as int] == value_json(x));
                            assert(decreases_to!(whole => whole->Array_0));
                            assert(decreases_to!(whole->Array_0 => whole->Array_0[n as int]));
                        }
                        back.push(plain(x));
                    },
                    None => {},
                }
            }
            let r = reversed(back);
            proof {
                assert(json::list_view(r) =~= values_json(items));
            }
            Json::Array(r)
        },
        Shape::Members(m) => {
            let ghost items = m@;
            let mut rest = m;
            let mut back: Vec<(String, Json)> = Vec::new();
            while rest.len() > 0
                invariant
                    rest@ == items.take(rest@.len() as int),
                    rest.len() <= items.len(),
                    back.len() == items.len() - rest.len(),
                    whole == value_json(v),
                    whole == JsonV::Object(members_json(items)),
                    forall|j: int|
                        0 <= j < back.len() ==> (#[trigger] back@[j]).0@ == items[items.len() - 1
                            - j].0@ && json::json_view(back@[j].1) == value_json(
                            items[items.len() - 1 - j].1,
                        ),
                decreases rest.len(),
            {
                let n: usize = rest.len() - 1;
                match rest.pop() {
                    Some(x) => {
                        proof {
                            assert(x == items[n as int]);
                            assert(members_json(items)[n as int].1 == value_json(x.1));
                            assert(decreases_to!(whole => whole->Object_0));
                            assert(decreases_to!(whole->Object_0 => whole->Object_0[n as int]));
                            assert(decreases_to!(whole->Object_0[n as int] => whole->Object_0[n as int].1));
                        }
                        back.push((x.0, plain(x.1)));
                    },
                    None => {},
                }
            }
            let r = JsonMap { entries: reversed(back) };
            proof {
                assert(r@ =~= members_json(items));
            }
            Json::Object(r)
        },
    }
}

fn reversed<T>(v: Vec<T>) -> (r: Vec<T>)
    ensures
        r.len() == v.len(),
        forall|i: int| 0 <= i < r.len() ==> #[trigger] r@[i] == v@[v.len() - 1 - i],
{
    let ghost items = v@;
    let mut rest = v;
    let mut r: Vec<T> = Vec::new();
    while rest.len() > 0
        invariant
            rest@ == items.take(rest@.len() as int),
            rest.len() <= items.len(),
            r.len() == items.len() - rest.len(),
            forall|i: int| 0 <= i < r.len() ==> #[trigger] r@[i] == items[items.len() - 1 - i],
        decreases rest.len(),
    {
        match rest.pop() {
            Some(x) => {
                r.push(x);
            },
            None => {},
        }
    }
    r
}

/// What an optional value says.
pub open spec fn optional(v: Option<Json>) -> Option<JsonV> {
    match v {
        Some(j) => Some(j@),
        None => None,
    }
}

/// Reads a JSON document.
pub fn parse_json(text: &str) -> (r: Option<Json>)
    ensures
        optional(r) == json_document(text@),
{
    match json_value(text) {
        Some(v) => Some(plain(v)),
        None => None,
    }
}

/// Reads a YAML document.
pub fn parse_yaml(text: &str) -> (r: Option<Json>)
    ensures
        optional(r) == yaml_document(text@),
{
    match yaml_value(text) {
        Some(v) => Some(plain(v)),
        None => None,
    }
}

} // verus!

//! JSON text, read by `serde_json`.

use crate::json::{
    json_models, keys_differ, lemma_json_models, lemma_member_models, member_models, no_key_twice,
    Json, JsonModel, JsonNumber,
};
use serde_json::Value;
use vstd::prelude::*;

verus! {

/// `serde_json`'s tree of a JSON text.
#[verifier::external_type_specification]
#[verifier::external_body]
pub struct ExValue(serde_json::Value);

/// What a `serde_json::Value` holds.
pub uninterp spec fn value_contents(v: serde_json::Value) -> JsonModel;

/// What `serde_json::from_str` reads in a text; `None` where it reports an error.
pub uninterp spec fn parsed_json(text: Seq<char>) -> Option<JsonModel>;

/// The outermost layer of a `serde_json::Value`.
enum Layer {
    Null,
    Bool(bool),
    Number(JsonNumber),
    String(String),
    Array(Vec<Value>),
    Object(Vec<(String, Value)>),
}

impl Layer {
    spec fn contents(self) -> JsonModel {
        match self {
            Layer::Null => JsonModel::Null,
            Layer::Bool(b) => JsonModel::Bool(b),
            Layer::Number(n) => JsonModel::Number(n@),
            Layer::String(s) => JsonModel::String(s@),
            Layer::Array(items) => JsonModel::Array(
                Seq::new(items@.len(), |i: int| value_contents(items@[i])),
            ),
            Layer::Object(members) => JsonModel::Object(
                Seq::new(members@.len(), |i: int| (members@[i].0@, value_contents(members@[i].1))),
            ),
        }
    }
}

/// Calls `serde_json::from_str` for a `Value`. The tree that it returns, or that it reports an
/// error, is a function of the text alone.
#[verifier::external_body]
fn from_str(text: &str) -> (r: Option<Value>)
    ensures
        match r {
            Some(v) => parsed_json(text@) == Some(value_contents(v)),
            None => parsed_json(text@) is None,
        },
{
    serde_json::from_str(text).ok()
}

/// Tells the variants of `serde_json::Value` apart and hands their fields out. A number that
/// `Number::as_u64` or `Number::as_i64` gives is that integer, any other is the text that
/// `Number` prints. The members of an object come in the order in which its map is walked; it is
/// a map, so no two of them have the same key.
#[verifier::external_body]
fn open_value(v: Value) -> (r: Layer)
    ensures
        r.contents() == value_contents(v),
        r.contents() matches JsonModel::Object(members) ==> keys_differ(members),
{
    match v {
        Value::Null => Layer::Null,
        Value::Bool(b) => Layer::Bool(b),
        Value::Number(n) => Layer::Number(match (n.as_u64(), n.as_i64()) {
            (Some(u), _) => JsonNumber::PosInt(u),
            (None, Some(i)) => JsonNumber::NegInt(i),
            (None, None) => JsonNumber::Float(n.to_string()),
        }),
        Value::String(s) => Layer::String(s),
        Value::Array(items) => Layer::Array(items),
        Value::Object(members) => Layer::Object(members.into_iter().collect()),
    }
}

/// Copies a `serde_json::Value` into a [`Json`] value, layer by layer.
fn to_json(v: Value) -> (r: Json)
    ensures
        r@ == value_contents(v),
        no_key_twice(r@),
    decreases value_contents(v),
{
    let ghost model = value_contents(v);
    match open_value(v) {
        Layer::Null => Json::Null,
        Layer::Bool(b) => Json::Bool(b),
        Layer::Number(n) => Json::Number(n),
        Layer::String(s) => Json::String(s),
        Layer::Array(items) => {
            let ghost values = items@;
            let mut out: Vec<Json> = Vec::new();
            for item in it: items
                invariant
                    it.seq() == values,
                    model == (JsonModel::Array(
                        Seq::new(values.len(), |i: int| value_contents(values[i])),
                    )),
                    model == value_contents(v),
                    out@.len() == it.index(),
                    forall|j: int|
                        0 <= j < out@.len() ==> (#[trigger] out@[j])@ == value_contents(values[j])
                            && no_key_twice(out@[j]@),
            {
                assert(item == values[it.index() as int]);
                assert(decreases_to!(model => model->Array_0[it.index() as int]));
                out.push(to_json(item));
            }
            proof {
                broadcast use lemma_json_models;

                assert(json_models(out@) =~= model->Array_0);
            }
            Json::Array(out)
        },
        Layer::Object(members) => {
            let ghost values = members@;
            let mut out: Vec<(String, Json)> = Vec::new();
            for member in it: members
                invariant
                    it.seq() == values,
                    model == (JsonModel::Object(
                        Seq::new(
                            values.len(),
                            |i: int| (values[i].0@, value_contents(values[i].1)),
                        ),
                    )),
                    model == value_contents(v),
                    out@.len() == it.index(),
                    forall|j: int|
                        0 <= j < out@.len() ==> (#[trigger] out@[j]).0@ == values[j].0@
                            && out@[j].1@ == value_contents(values[j].1) && no_key_twice(
                            out@[j].1@,
                        ),
            {
                assert(member == values[it.index() as int]);
                assert(decreases_to!(model => model->Object_0[it.index() as int].1));
                let (key, value) = member;
                out.push((key, to_json(value)));
            }
            proof {
                broadcast use lemma_member_models;

                assert(member_models(out@) =~= model->Object_0);
            }
            Json::Object(out)
        },
    }
}

/// Reads `text` as one JSON value; `None` where it is not one. No object in the value has two
/// members with the same key.
pub fn parse_json(text: &str) -> (r: Option<Json>)
    ensures
        match r {
            Some(j) => parsed_json(text@) == Some(j@) && no_key_twice(j@),
            None => parsed_json(text@) is None,
        },
{
    match from_str(text) {
        Some(v) => Some(to_json(v)),
        None => None,
    }
}

} // verus!

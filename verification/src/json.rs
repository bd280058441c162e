//! JSON values.

use crate::text::str_eq;
use vstd::prelude::*;

verus! {

/// A JSON number. Integers are held as integers; a number with a fraction or an exponent, or one
/// out of the integers' range, is held as its decimal text.
#[derive(Debug, PartialEq)]
pub enum JsonNumber {
    /// An integer from 0 to `u64::MAX`.
    PosInt(u64),
    /// An integer below 0, from `i64::MIN`.
    NegInt(i64),
    /// Any other number, as decimal text.
    Float(String),
}

/// A JSON value.
#[derive(Debug, PartialEq)]
pub enum Json {
    Null,
    Bool(bool),
    Number(JsonNumber),
    String(String),
    Array(Vec<Json>),
    /// The members of an object, each a key and a value. Of members with the same key the first
    /// counts.
    Object(Vec<(String, Json)>),
}

/// The model of a [`JsonNumber`].
pub enum NumberModel {
    PosInt(u64),
    NegInt(i64),
    Float(Seq<char>),
}

/// The model of a [`Json`] value.
pub enum JsonModel {
    Null,
    Bool(bool),
    Number(NumberModel),
    String(Seq<char>),
    Array(Seq<JsonModel>),
    Object(Seq<(Seq<char>, JsonModel)>),
}

impl View for JsonNumber {
    type V = NumberModel;

    open spec fn view(&self) -> NumberModel {
        match *self {
            JsonNumber::PosInt(n) => NumberModel::PosInt(n),
            JsonNumber::NegInt(n) => NumberModel::NegInt(n),
            JsonNumber::Float(t) => NumberModel::Float(t@),
        }
    }
}

/// The model of `j`.
pub open spec fn json_model(j: Json) -> JsonModel
    decreases j,
{
    match j {
        Json::Null => JsonModel::Null,
        Json::Bool(b) => JsonModel::Bool(b),
        Json::Number(n) => JsonModel::Number(n@),
        Json::String(s) => JsonModel::String(s@),
        Json::Array(v) => JsonModel::Array(json_models(v@)),
        Json::Object(v) => JsonModel::Object(member_models(v@)),
    }
}

/// The models of a sequence of values.
pub open spec fn json_models(s: Seq<Json>) -> Seq<JsonModel>
    decreases s,
{
    if s.len() == 0 {
        Seq::empty()
    } else {
        json_models(s.drop_last()).push(json_model(s.last()))
    }
}

/// The models of a sequence of members.
pub open spec fn member_models(s: Seq<(String, Json)>) -> Seq<(Seq<char>, JsonModel)>
    decreases s,
{
    if s.len() == 0 {
        Seq::empty()
    } else {
        member_models(s.drop_last()).push((s.last().0@, json_model(s.last().1)))
    }
}

impl View for Json {
    type V = JsonModel;

    open spec fn view(&self) -> JsonModel {
        json_model(*self)
    }
}

/// `json_models` maps each value to its model.
pub broadcast proof fn lemma_json_models(s: Seq<Json>)
    ensures
        (#[trigger] json_models(s)).len() == s.len(),
        forall|i: int| 0 <= i < s.len() ==> #[trigger] json_models(s)[i] == s[i]@,
    decreases s.len(),
{
    if s.len() > 0 {
        lemma_json_models(s.drop_last());
    }
}

/// `member_models` maps each member to its key's characters and its value's model.
pub broadcast proof fn lemma_member_models(s: Seq<(String, Json)>)
    ensures
        (#[trigger] member_models(s)).len() == s.len(),
        forall|i: int|
            0 <= i < s.len() ==> #[trigger] member_models(s)[i] == (s[i].0@, s[i].1@),
    decreases s.len(),
{
    if s.len() > 0 {
        lemma_member_models(s.drop_last());
    }
}

/// The value of the first of `members` whose key is `key`.
pub open spec fn lookup(members: Seq<(Seq<char>, JsonModel)>, key: Seq<char>) -> Option<JsonModel>
    decreases members.len(),
{
    if members.len() == 0 {
        None
    } else if members[0].0 == key {
        Some(members[0].1)
    } else {
        lookup(members.drop_first(), key)
    }
}

/// Whether no two of `members` have the same key.
pub open spec fn keys_differ(members: Seq<(Seq<char>, JsonModel)>) -> bool {
    forall|i: int, j: int|
        0 <= i < j < members.len() ==> (#[trigger] members[i]).0 != (#[trigger] members[j]).0
}

/// Whether no object in `j`, at any depth, has two members with the same key.
pub open spec fn no_key_twice(j: JsonModel) -> bool
    decreases j,
{
    match j {
        JsonModel::Array(items) => forall|i: int|
            0 <= i < items.len() ==> no_key_twice(#[trigger] items[i]),
        JsonModel::Object(members) => keys_differ(members) && forall|i: int|
            0 <= i < members.len() ==> no_key_twice((#[trigger] members[i]).1),
        _ => true,
    }
}

/// Where no two members have the same key, each is found by its key: their order does not count.
pub proof fn law_members_are_found(members: Seq<(Seq<char>, JsonModel)>, i: int)
    requires
        keys_differ(members),
        0 <= i < members.len(),
    ensures
        lookup(members, members[i].0) == Some(members[i].1),
{
    lemma_lookup_at(members, members[i].0, i);
}

/// `lookup` passes over members with other keys.
pub proof fn lemma_lookup_at(members: Seq<(Seq<char>, JsonModel)>, key: Seq<char>, i: int)
    requires
        0 <= i <= members.len(),
        forall|j: int| 0 <= j < i ==> (#[trigger] members[j]).0 != key,
        i < members.len() ==> members[i].0 == key,
    ensures
        lookup(members, key) == (if i < members.len() {
            Some(members[i].1)
        } else {
            None
        }),
    decreases i,
{
    if i > 0 {
        let rest = members.drop_first();
        assert forall|j: int| 0 <= j < i - 1 implies (#[trigger] rest[j]).0 != key by {
            assert(rest[j] == members[j + 1]);
        }
        lemma_lookup_at(rest, key, i - 1);
    }
}

/// What `lookup` finds is the value of one of the members.
pub proof fn lemma_lookup_found(members: Seq<(Seq<char>, JsonModel)>, key: Seq<char>)
    ensures
        lookup(members, key) matches Some(value) ==> exists|i: int|
            0 <= i < members.len() && (#[trigger] members[i]) == (key, value),
    decreases members.len(),
{
    if members.len() > 0 {
        if members[0].0 == key {
            assert(members[0] == (key, members[0].1));
        } else {
            let rest = members.drop_first();
            lemma_lookup_found(rest, key);
            if let Some(value) = lookup(rest, key) {
                let i = choose|i: int| 0 <= i < rest.len() && (#[trigger] rest[i]) == (key, value);
                assert(members[i + 1] == (key, value));
            }
        }
    }
}

impl JsonModel {
    /// The member `key` of an object; `None` for other values.
    pub open spec fn get(self, key: Seq<char>) -> Option<JsonModel> {
        match self {
            JsonModel::Object(members) => lookup(members, key),
            _ => None,
        }
    }

    /// The items of an array; `None` for other values.
    pub open spec fn as_array(self) -> Option<Seq<JsonModel>> {
        match self {
            JsonModel::Array(items) => Some(items),
            _ => None,
        }
    }

    /// The characters of a string; `None` for other values.
    pub open spec fn as_str(self) -> Option<Seq<char>> {
        match self {
            JsonModel::String(s) => Some(s),
            _ => None,
        }
    }

    /// The characters of the string member `key` of an object; `None` where there is no such
    /// member or it is no string.
    pub open spec fn get_str(self, key: Seq<char>) -> Option<Seq<char>> {
        match self.get(key) {
            Some(member) => member.as_str(),
            None => None,
        }
    }

    /// An integer from 0 to `u64::MAX`; `None` for other values.
    pub open spec fn as_u64(self) -> Option<u64> {
        match self {
            JsonModel::Number(NumberModel::PosInt(n)) => Some(n),
            _ => None,
        }
    }
}

impl Clone for JsonNumber {
    fn clone(&self) -> (r: JsonNumber)
        ensures
            r@ == self@,
    {
        match self {
            JsonNumber::PosInt(n) => JsonNumber::PosInt(*n),
            JsonNumber::NegInt(n) => JsonNumber::NegInt(*n),
            JsonNumber::Float(t) => JsonNumber::Float(t.clone()),
        }
    }
}

impl Clone for Json {
    fn clone(&self) -> (r: Json)
        ensures
            r@ == self@,
        decreases self,
    {
        match self {
            Json::Null => Json::Null,
            Json::Bool(b) => Json::Bool(*b),
            Json::Number(n) => Json::Number(n.clone()),
            Json::String(s) => Json::String(s.clone()),
            Json::Array(items) => {
                let mut out: Vec<Json> = Vec::new();
                let mut i: usize = 0;
                while i < items.len()
                    invariant
                        i <= items@.len(),
                        out@.len() == i,
                        forall|j: int| 0 <= j < i ==> (#[trigger] out@[j])@ == items@[j]@,
                        decreases_to!(*self => items@),
                    decreases items@.len() - i,
                {
                    let item = items[i].clone();
                    out.push(item);
                    i = i + 1;
                }
                proof {
                    broadcast use lemma_json_models;
                    assert(json_models(out@) =~= json_models(items@));
                }
                Json::Array(out)
            },
            Json::Object(members) => {
                let mut out: Vec<(String, Json)> = Vec::new();
                let mut i: usize = 0;
                while i < members.len()
                    invariant
                        i <= members@.len(),
                        out@.len() == i,
                        forall|j: int|
                            0 <= j < i ==> (#[trigger] out@[j]).0@ == members@[j].0@ && out@[j].1@
                                == members@[j].1@,
                        decreases_to!(*self => members@),
                    decreases members@.len() - i,
                {
                    let key = members[i].0.clone();
                    let value = members[i].1.clone();
                    out.push((key, value));
                    i = i + 1;
                }
                proof {
                    broadcast use lemma_member_models;
                    assert(member_models(out@) =~= member_models(members@));
                }
                Json::Object(out)
            },
        }
    }
}

/// Copies every value of `items`.
pub fn clone_all(items: &Vec<Json>) -> (r: Vec<Json>)
    ensures
        json_models(r@) == json_models(items@),
{
    let mut out: Vec<Json> = Vec::new();
    let mut i: usize = 0;
    while i < items.len()
        invariant
            i <= items@.len(),
            out@.len() == i,
            forall|j: int| 0 <= j < i ==> (#[trigger] out@[j])@ == items@[j]@,
        decreases items@.len() - i,
    {
        out.push(items[i].clone());
        i = i + 1;
    }
    proof {
        broadcast use lemma_json_models;

        assert(json_models(out@) =~= json_models(items@));
    }
    out
}

impl Json {
    /// The member `key` of an object; `None` for other values.
    pub fn get(&self, key: &str) -> (r: Option<&Json>)
        ensures
            match r {
                Some(v) => self@.get(key@) == Some(v@),
                None => self@.get(key@) is None,
            },
    {
        match self {
            Json::Object(members) => {
                let ghost model = member_models(members@);
                broadcast use lemma_member_models;
                let mut i: usize = 0;
                while i < members.len()
                    invariant
                        i <= members@.len(),
                        model == member_models(members@),
                        self@ == JsonModel::Object(model),
                        forall|j: int| 0 <= j < i ==> (#[trigger] model[j]).0 != key@,
                    decreases members@.len() - i,
                {
                    broadcast use lemma_member_models;
                    assert(model[i as int] == (members@[i as int].0@, members@[i as int].1@));
                    if str_eq(members[i].0.as_str(), key) {
                        proof {
                            lemma_lookup_at(model, key@, i as int);
                        }
                        return Some(&members[i].1);
                    }
                    i = i + 1;
                }
                proof {
                    lemma_lookup_at(model, key@, i as int);
                }
                None
            },
            _ => None,
        }
    }

    /// The items of an array; `None` for other values.
    pub fn as_array(&self) -> (r: Option<&Vec<Json>>)
        ensures
            match r {
                Some(items) => self@.as_array() == Some(json_models(items@)),
                None => self@.as_array() is None,
            },
    {
        match self {
            Json::Array(items) => Some(items),
            _ => None,
        }
    }

    /// The text of a string; `None` for other values.
    pub fn as_str(&self) -> (r: Option<&str>)
        ensures
            match r {
                Some(s) => self@.as_str() == Some(s@),
                None => self@.as_str() is None,
            },
    {
        match self {
            Json::String(s) => Some(s.as_str()),
            _ => None,
        }
    }

    /// The text of the string member `key` of an object; `None` where there is no such member or
    /// it is no string.
    pub fn get_str(&self, key: &str) -> (r: Option<&str>)
        ensures
            match r {
                Some(s) => self@.get_str(key@) == Some(s@),
                None => self@.get_str(key@) is None,
            },
    {
        match self.get(key) {
            Some(member) => member.as_str(),
            None => None,
        }
    }

    /// An integer from 0 to `u64::MAX`; `None` for other values.
    pub fn as_u64(&self) -> (r: Option<u64>)
        ensures
            r == self@.as_u64(),
    {
        match self {
            Json::Number(JsonNumber::PosInt(n)) => Some(*n),
            _ => None,
        }
    }

    /// Whether the value is `null`.
    pub fn is_null(&self) -> (r: bool)
        ensures
            r == (self@ is Null),
    {
        match self {
            Json::Null => true,
            _ => false,
        }
    }
}

/// An object is asked for a key: it gives the value of the first member with that key, whatever
/// stands before and behind it.
pub proof fn law_first_member_is_found(
    before: Seq<(Seq<char>, JsonModel)>,
    key: Seq<char>,
    value: JsonModel,
    behind: Seq<(Seq<char>, JsonModel)>,
)
    requires
        forall|i: int| 0 <= i < before.len() ==> (#[trigger] before[i]).0 != key,
    ensures
        JsonModel::Object(before + seq![(key, value)] + behind).get(key) == Some(value),
{
    let members = before + seq![(key, value)] + behind;
    let n = before.len() as int;
    assert forall|j: int| 0 <= j < n implies (#[trigger] members[j]).0 != key by {
        assert(members[j] == before[j]);
    }
    assert(members[n] == (key, value));
    lemma_lookup_at(members, key, n);
}

/// A value gives nothing for a key that it has no member for; a value that is no object gives
/// nothing for any key.
pub proof fn law_nothing_else_is_found(j: JsonModel, key: Seq<char>)
    ensures
        j.get(key) matches Some(value) ==> (j matches JsonModel::Object(members) && exists|i: int|
            0 <= i < members.len() && (#[trigger] members[i]) == (key, value)),
        !(j is Object) ==> j.get(key) is None,
{
    if j is Object {
        lemma_lookup_found(j->Object_0, key);
    }
}

/// Strings give their characters, integers from 0 on their number and arrays their items, as they
/// stand; other values give none of them.
pub proof fn law_kinds_of_values(
    j: JsonModel,
    key: Seq<char>,
    text: Seq<char>,
    n: u64,
    items: Seq<JsonModel>,
)
    ensures
        j.as_str() == Some(text) <==> j == JsonModel::String(text),
        j.as_u64() == Some(n) <==> j == JsonModel::Number(NumberModel::PosInt(n)),
        j.as_array() == Some(items) <==> j == JsonModel::Array(items),
        !(j is String) ==> j.as_str() is None,
        !(j is Array) ==> j.as_array() is None,
        !(j matches JsonModel::Number(NumberModel::PosInt(_))) ==> j.as_u64() is None,
        j.get_str(key) == Some(text) <==> j.get(key) == Some(JsonModel::String(text)),
        !(j.get(key) matches Some(JsonModel::String(_))) ==> j.get_str(key) is None,
{
}

/// The model of a value holds all that the value holds: its kind, the number, each character, each
/// item and each member in order.
pub proof fn law_model_keeps_the_value(j: Json)
    ensures
        match j {
            Json::Null => j@ == JsonModel::Null,
            Json::Bool(b) => j@ == JsonModel::Bool(b),
            Json::Number(JsonNumber::PosInt(n)) => j@ == JsonModel::Number(NumberModel::PosInt(n)),
            Json::Number(JsonNumber::NegInt(n)) => j@ == JsonModel::Number(NumberModel::NegInt(n)),
            Json::Number(JsonNumber::Float(t)) => j@ == JsonModel::Number(NumberModel::Float(t@)),
            Json::String(t) => j@ == JsonModel::String(t@),
            Json::Array(items) => j@ matches JsonModel::Array(models) && models.len()
                == items@.len() && forall|i: int|
                0 <= i < items@.len() ==> #[trigger] models[i] == items@[i]@,
            Json::Object(members) => j@ matches JsonModel::Object(models) && models.len()
                == members@.len() && forall|i: int|
                0 <= i < members@.len() ==> #[trigger] models[i] == (
                    members@[i].0@,
                    members@[i].1@,
                ),
        },
{
    match j {
        Json::Array(items) => {
            lemma_json_models(items@);
            assert(j@ == JsonModel::Array(json_models(items@)));
        },
        Json::Object(members) => {
            lemma_member_models(members@);
            assert(j@ == JsonModel::Object(member_models(members@)));
        },
        _ => {},
    }
}

} // verus!

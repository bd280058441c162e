//! Assembling function calls out of the fragments that a stream carries.

use crate::frame::{Frame, FrameModel, FunctionCall, FunctionCallModel};
use crate::json::{json_models, lemma_json_models, Json, JsonModel, NumberModel};
use crate::parse::{parse_json, parsed_json};
use std::collections::BTreeMap;
use vstd::prelude::*;

verus! {

/// A function call under assembly.
#[derive(Debug, PartialEq)]
pub struct ToolAcc {
    pub id: String,
    pub name: String,
    pub args: String,
}

/// The model of a [`ToolAcc`].
pub struct ToolAccModel {
    pub id: Seq<char>,
    pub name: Seq<char>,
    pub args: Seq<char>,
}

impl View for ToolAcc {
    type V = ToolAccModel;

    open spec fn view(&self) -> ToolAccModel {
        ToolAccModel { id: self.id@, name: self.name@, args: self.args@ }
    }
}

/// The models of the calls under assembly, by index.
pub open spec fn acc_models(acc: Map<u64, ToolAcc>) -> Map<u64, ToolAccModel> {
    acc.map_values(|t: ToolAcc| t@)
}

/// A call of which nothing has arrived yet.
pub open spec fn blank_call() -> ToolAccModel {
    ToolAccModel { id: Seq::empty(), name: Seq::empty(), args: Seq::empty() }
}

/// The index that the fragment `call` names, 0 where it names none.
pub open spec fn call_index(call: JsonModel) -> u64 {
    match call.get("index"@) {
        Some(index) => match index.as_u64() {
            Some(n) => n,
            None => 0,
        },
        None => 0,
    }
}

/// The call id in the fragment `call`, empty where it has none.
pub open spec fn call_id(call: JsonModel) -> Seq<char> {
    match call.get_str("id"@) {
        Some(id) => id,
        None => Seq::empty(),
    }
}

/// The text of the member `key` of the function in the fragment `call`, empty where it has none.
pub open spec fn function_text(call: JsonModel, key: Seq<char>) -> Seq<char> {
    match call.get("function"@) {
        Some(function) => match function.get_str(key) {
            Some(text) => text,
            None => Seq::empty(),
        },
        None => Seq::empty(),
    }
}

/// `acc` after the fragment `call`: a non-empty id replaces the one before, name and arguments
/// grow at their end.
pub open spec fn merge_call(acc: ToolAccModel, call: JsonModel) -> ToolAccModel {
    ToolAccModel {
        id: if call_id(call).len() > 0 {
            call_id(call)
        } else {
            acc.id
        },
        name: acc.name + function_text(call, "name"@),
        args: acc.args + function_text(call, "arguments"@),
    }
}

/// The call under assembly at `index`, blank where there is none.
pub open spec fn call_at(acc: Map<u64, ToolAccModel>, index: u64) -> ToolAccModel {
    if acc.dom().contains(index) {
        acc[index]
    } else {
        blank_call()
    }
}

/// The calls under assembly after the fragments `calls`, each taken at its index.
pub open spec fn add_calls(
    acc: Map<u64, ToolAccModel>,
    calls: Seq<JsonModel>,
) -> Map<u64, ToolAccModel>
    decreases calls.len(),
{
    if calls.len() == 0 {
        acc
    } else {
        let before = add_calls(acc, calls.drop_last());
        let index = call_index(calls.last());
        before.insert(index, merge_call(call_at(before, index), calls.last()))
    }
}

/// Fragments may be added in any portions.
pub proof fn lemma_add_calls_append(
    acc: Map<u64, ToolAccModel>,
    a: Seq<JsonModel>,
    b: Seq<JsonModel>,
)
    ensures
        add_calls(add_calls(acc, a), b) == add_calls(acc, a + b),
    decreases b.len(),
{
    if b.len() == 0 {
        assert(a + b =~= a);
    } else {
        lemma_add_calls_append(acc, a, b.drop_last());
        assert((a + b).drop_last() =~= a + b.drop_last());
    }
}

/// Whether `keys` lists the members of `s` from the least to the greatest.
pub open spec fn lists_in_order(keys: Seq<u64>, s: Set<u64>) -> bool {
    &&& forall|i: int, j: int| 0 <= i < j < keys.len() ==> keys[i] < keys[j]
    &&& forall|k: u64| keys.contains(k) <==> #[trigger] s.contains(k)
}

/// The members of `s` from the least to the greatest.
pub open spec fn in_order(s: Set<u64>) -> Seq<u64> {
    choose|keys: Seq<u64>| lists_in_order(keys, s)
}

/// There is one way to list a set in order.
pub proof fn lemma_in_order(keys: Seq<u64>, s: Set<u64>)
    requires
        lists_in_order(keys, s),
    ensures
        in_order(s) == keys,
{
    lemma_listing_unique(in_order(s), keys, s);
}

proof fn lemma_listing_unique(a: Seq<u64>, b: Seq<u64>, s: Set<u64>)
    requires
        lists_in_order(a, s),
        lists_in_order(b, s),
    ensures
        a == b,
    decreases a.len(),
{
    if a.len() == 0 {
        if b.len() > 0 {
            assert(b.contains(b[0]));
            assert(s.contains(b[0]));
        }
        assert(a =~= b);
    } else {
        let last = a.last();
        assert(a.contains(last));
        assert(s.contains(last));
        assert(b.contains(last));
        assert(b.contains(b.last()));
        assert(s.contains(b.last()));
        assert(a.contains(b.last()));
        assert(b.last() == last);
        let rest = s.remove(last);
        let c = a.drop_last();
        let d = b.drop_last();
        assert forall|k: u64| c.contains(k) <==> #[trigger] rest.contains(k) by {
            if c.contains(k) {
                let i = choose|i: int| 0 <= i < c.len() && c[i] == k;
                assert(a[i] == k);
                assert(s.contains(k));
            }
            if rest.contains(k) {
                assert(a.contains(k));
                let i = choose|i: int| 0 <= i < a.len() && a[i] == k;
                assert(c[i] == k);
            }
        }
        assert forall|k: u64| d.contains(k) <==> #[trigger] rest.contains(k) by {
            if d.contains(k) {
                let i = choose|i: int| 0 <= i < d.len() && d[i] == k;
                assert(b[i] == k);
                assert(s.contains(k));
            }
            if rest.contains(k) {
                assert(b.contains(k));
                let i = choose|i: int| 0 <= i < b.len() && b[i] == k;
                assert(d[i] == k);
            }
        }
        lemma_listing_unique(c, d, rest);
        assert(a =~= c.push(last));
        assert(b =~= d.push(last));
    }
}

/// A set that is not empty has a greatest member.
proof fn lemma_greatest(s: Set<u64>) -> (m: u64)
    requires
        s.finite(),
        s.len() > 0,
    ensures
        s.contains(m),
        forall|k: u64| #[trigger] s.contains(k) ==> k <= m,
    decreases s.len(),
{
    let a = s.choose();
    let rest = s.remove(a);
    if rest.len() == 0 {
        assert forall|k: u64| #[trigger] s.contains(k) implies k <= a by {
            if k != a {
                assert(rest.contains(k));
            }
        }
        a
    } else {
        let m = lemma_greatest(rest);
        let r = if m < a {
            a
        } else {
            m
        };
        assert forall|k: u64| #[trigger] s.contains(k) implies k <= r by {
            if k != a {
                assert(rest.contains(k));
            }
        }
        r
    }
}

proof fn lemma_listing_exists(s: Set<u64>) -> (keys: Seq<u64>)
    requires
        s.finite(),
    ensures
        lists_in_order(keys, s),
    decreases s.len(),
{
    if s.len() == 0 {
        Seq::empty()
    } else {
        let m = lemma_greatest(s);
        let rest = s.remove(m);
        let before = lemma_listing_exists(rest);
        let keys = before.push(m);
        assert forall|k: u64| keys.contains(k) <==> #[trigger] s.contains(k) by {
            if keys.contains(k) {
                let i = choose|i: int| 0 <= i < keys.len() && keys[i] == k;
                if i < before.len() {
                    assert(before.contains(before[i]));
                    assert(rest.contains(k));
                }
            }
            if s.contains(k) {
                if k == m {
                    assert(keys[before.len() as int] == m);
                } else {
                    assert(rest.contains(k));
                    assert(before.contains(k));
                    let i = choose|i: int| 0 <= i < before.len() && before[i] == k;
                    assert(keys[i] == k);
                }
            }
        }
        assert forall|i: int, j: int| 0 <= i < j < keys.len() implies keys[i] < keys[j] by {
            assert(before.contains(before[i]));
            assert(rest.contains(keys[i]));
            assert(s.contains(keys[i]));
        }
        keys
    }
}

/// The calls come out in the order of their indices: as many as there are, the call with the
/// least index first.
pub proof fn law_calls_in_index_order(acc: Map<u64, ToolAccModel>)
    requires
        acc.dom().finite(),
    ensures
        lists_in_order(in_order(acc.dom()), acc.dom()),
        finished_calls(acc).len() == in_order(acc.dom()).len(),
        forall|i: int|
            0 <= i < finished_calls(acc).len() ==> ({
                let call = acc[in_order(acc.dom())[i]];
                #[trigger] finished_calls(acc)[i] == finished_call(call, parsed_json(call.args))
            }),
{
    let keys = lemma_listing_exists(acc.dom());
    lemma_in_order(keys, acc.dom());
}

/// The texts under `key` in the functions of those of `calls` that name `index`, put together.
pub open spec fn joined(calls: Seq<JsonModel>, index: u64, key: Seq<char>) -> Seq<char>
    decreases calls.len(),
{
    if calls.len() == 0 {
        Seq::empty()
    } else if call_index(calls.last()) == index {
        joined(calls.drop_last(), index, key) + function_text(calls.last(), key)
    } else {
        joined(calls.drop_last(), index, key)
    }
}

/// The last id that is not empty among those of `calls` that name `index`.
pub open spec fn latest_id(calls: Seq<JsonModel>, index: u64) -> Seq<char>
    decreases calls.len(),
{
    if calls.len() == 0 {
        Seq::empty()
    } else if call_index(calls.last()) == index && call_id(calls.last()).len() > 0 {
        call_id(calls.last())
    } else {
        latest_id(calls.drop_last(), index)
    }
}

/// A call is assembled from the fragments that name its index, and from no others: its name and
/// its arguments are theirs put together in order, its id is the last that was not empty.
pub proof fn law_assembly(calls: Seq<JsonModel>, index: u64)
    ensures
        ({
            let acc = add_calls(Map::empty(), calls);
            &&& acc.dom().finite()
            &&& acc.dom().contains(index) <==> exists|i: int|
                0 <= i < calls.len() && call_index(#[trigger] calls[i]) == index
            &&& call_at(acc, index) == (ToolAccModel {
                id: latest_id(calls, index),
                name: joined(calls, index, "name"@),
                args: joined(calls, index, "arguments"@),
            })
        }),
    decreases calls.len(),
{
    let acc = add_calls(Map::empty(), calls);
    if calls.len() > 0 {
        let before = calls.drop_last();
        law_assembly(before, index);
        let last = calls.last();
        if call_index(last) == index {
            assert(call_index(calls[calls.len() - 1]) == index);
        }
        if exists|i: int| 0 <= i < before.len() && call_index(#[trigger] before[i]) == index {
            let i = choose|i: int|
                0 <= i < before.len() && call_index(#[trigger] before[i]) == index;
            assert(calls[i] == before[i]);
        }
        if acc.dom().contains(index) && call_index(last) != index {
            let i = choose|i: int|
                0 <= i < before.len() && call_index(#[trigger] before[i]) == index;
            assert(calls[i] == before[i]);
        }
        if exists|i: int| 0 <= i < calls.len() && call_index(#[trigger] calls[i]) == index {
            let i = choose|i: int|
                0 <= i < calls.len() && call_index(#[trigger] calls[i]) == index;
            if i < before.len() {
                assert(before[i] == calls[i]);
            }
        }
    }
}

/// Each reported call is put together from the fragments that name its index, and its arguments
/// are what their argument texts, put together, are read as.
pub proof fn law_reported_call(calls: Seq<JsonModel>, i: int)
    requires
        0 <= i < finished_calls(add_calls(Map::empty(), calls)).len(),
    ensures
        ({
            let acc = add_calls(Map::empty(), calls);
            let index = in_order(acc.dom())[i];
            let args = joined(calls, index, "arguments"@);
            finished_calls(acc)[i] == (FunctionCallModel {
                function_name: joined(calls, index, "name"@),
                tool_call_id: latest_id(calls, index),
                arguments: arguments_of(parsed_json(args)),
            })
        }),
{
    let acc = add_calls(Map::empty(), calls);
    law_assembly(calls, 0);
    law_calls_in_index_order(acc);
    let keys = in_order(acc.dom());
    law_assembly(calls, keys[i]);
    assert(keys.contains(keys[i]));
    assert(acc.dom().contains(keys[i]));
}

/// The arguments of a call, told by what its argument text was read as: the value, or `null`
/// where the text is no JSON.
pub open spec fn arguments_of(parsed: Option<JsonModel>) -> JsonModel {
    match parsed {
        Some(value) => value,
        None => JsonModel::Null,
    }
}

/// The finished form of an assembled call whose argument text was read as `parsed`.
pub open spec fn finished_call(
    acc: ToolAccModel,
    parsed: Option<JsonModel>,
) -> FunctionCallModel {
    FunctionCallModel {
        function_name: acc.name,
        tool_call_id: acc.id,
        arguments: arguments_of(parsed),
    }
}

/// The finished calls, in the order of their indices.
pub open spec fn finished_calls(acc: Map<u64, ToolAccModel>) -> Seq<FunctionCallModel> {
    in_order(acc.dom()).map_values(|k: u64| finished_call(acc[k], parsed_json(acc[k].args)))
}

/// The finished form of an assembled call whose argument text was read as `parsed`.
pub fn finish_call(acc: &ToolAcc, parsed: Option<Json>) -> (r: FunctionCall)
    ensures
        r@ == finished_call(
            acc@,
            match parsed {
                Some(j) => Some(j@),
                None => None,
            },
        ),
{
    FunctionCall {
        function_name: acc.name.clone(),
        tool_call_id: acc.id.clone(),
        arguments: match parsed {
            Some(value) => value,
            None => Json::Null,
        },
    }
}

impl ToolAcc {
    /// A call of which nothing has arrived yet.
    pub fn new() -> (r: ToolAcc)
        ensures
            r@ == blank_call(),
    {
        ToolAcc { id: String::new(), name: String::new(), args: String::new() }
    }

    /// Adds the fragment `call`: a non-empty id replaces the one before, name and arguments grow
    /// at their end.
    pub fn merge(&mut self, call: &Json)
        ensures
            final(self)@ == merge_call(old(self)@, call@),
    {
        if let Some(id) = call.get_str("id") {
            if !id.is_empty() {
                self.id = id.to_owned();
            }
        }
        let ghost before = old(self)@;
        assert(before.name + Seq::<char>::empty() =~= before.name);
        assert(before.args + Seq::<char>::empty() =~= before.args);
        if let Some(function) = call.get("function") {
            if let Some(name) = function.get_str("name") {
                self.name.append(name);
            }
            if let Some(args) = function.get_str("arguments") {
                self.args.append(args);
            }
        }
    }
}

/// Adds the fragments `calls` to the calls under assembly, each at its index.
pub fn add_fragments(tool_acc: &mut BTreeMap<u64, ToolAcc>, calls: &Vec<Json>)
    ensures
        acc_models(final(tool_acc)@) == add_calls(acc_models(old(tool_acc)@), json_models(calls@)),
{
    broadcast use lemma_json_models;

    let ghost fragments = json_models(calls@);
    let ghost before = acc_models(tool_acc@);
    let mut i: usize = 0;
    assert(fragments.take(0) =~= Seq::<JsonModel>::empty());
    while i < calls.len()
        invariant
            i <= calls@.len(),
            fragments == json_models(calls@),
            fragments.len() == calls@.len(),
            acc_models(tool_acc@) == add_calls(before, fragments.take(i as int)),
        decreases calls@.len() - i,
    {
        broadcast use lemma_json_models;

        let ghost acc = acc_models(tool_acc@);
        let call = &calls[i];
        assert(call@ == fragments[i as int]);
        let index: u64 = match call.get("index") {
            Some(index) => match index.as_u64() {
                Some(n) => n,
                None => 0,
            },
            None => 0,
        };
        let mut entry = match tool_acc.remove(&index) {
            Some(entry) => entry,
            None => ToolAcc::new(),
        };
        assert(entry@ == call_at(acc, index));
        entry.merge(call);
        tool_acc.insert(index, entry);
        proof {
            let taken = fragments.take(i + 1);
            assert(taken.drop_last() =~= fragments.take(i as int));
            assert(taken.last() == call@);
            assert(acc_models(tool_acc@) =~= add_calls(before, taken));
        }
        i = i + 1;
    }
    assert(fragments.take(i as int) =~= fragments);
}

/// Takes the assembled calls out as one [`Frame::FunctionCallsStarted`], if there are any.
pub fn drain_tool_calls(tool_acc: &mut BTreeMap<u64, ToolAcc>) -> (r: Option<Frame>)
    ensures
        final(tool_acc)@ == Map::<u64, ToolAcc>::empty(),
        match r {
            Some(frame) => !old(tool_acc)@.is_empty() && frame@
                == FrameModel::FunctionCallsStarted(finished_calls(acc_models(old(tool_acc)@))),
            None => old(tool_acc)@.is_empty(),
        },
{
    if tool_acc.is_empty() {
        assert(tool_acc@ =~= Map::<u64, ToolAcc>::empty());
        return None;
    }
    let ghost acc = acc_models(tool_acc@);
    let mut calls: Vec<FunctionCall> = Vec::new();
    let values = tool_acc.values();
    let ghost keys = choose|keys: Seq<u64>|
        {
            &&& vstd::std_specs::btree::increasing_seq(keys)
            &&& keys.to_set() == tool_acc@.dom()
            &&& keys.no_duplicates()
            &&& vstd::std_specs::iter::IteratorSpec::remaining(&values) == keys.map(
                |i: int, k| &tool_acc@[k],
            )
        };
    let ghost values_in_order = keys.map(|i: int, k: u64| &tool_acc@[k]);
    for t in it: values
        invariant
            it.seq() == values_in_order,
            values_in_order.len() == keys.len(),
            forall|i: int|
                0 <= i < keys.len() ==> *(#[trigger] values_in_order[i]) == tool_acc@[keys[i]],
            calls@.len() == it.index(),
            forall|i: int|
                0 <= i < calls@.len() ==> (#[trigger] calls@[i])@ == finished_call(
                    tool_acc@[keys[i]]@,
                    parsed_json(tool_acc@[keys[i]].args@),
                ),
    {
        calls.push(finish_call(t, parse_json(t.args.as_str())));
    }
    proof {
        assert(keys.to_set() =~= acc.dom());
        assert forall|k: u64| keys.contains(k) <==> #[trigger] acc.dom().contains(k) by {
            assert(keys.to_set().contains(k) <==> keys.contains(k));
        }
        assert forall|i: int, j: int| 0 <= i < j < keys.len() implies keys[i] < keys[j] by {
            broadcast use vstd::std_specs::btree::axiom_increasing_seq_meaning;

            assert(vstd::laws_cmp::obeys_cmp::<u64>());
            assert(vstd::std_specs::btree::increasing_seq(keys));
            assert(vstd::std_specs::cmp::OrdSpec::cmp_spec(&keys[i], &keys[j]) is Less);
        }
        assert(lists_in_order(keys, acc.dom()));
        lemma_in_order(keys, acc.dom());
        assert(calls@.map_values(|c: FunctionCall| c@) =~= finished_calls(acc));
    }
    tool_acc.clear();
    Some(Frame::FunctionCallsStarted(calls))
}

/// The name and the argument text of a fragment are appended as they stand: what has been put
/// together grows by exactly the text in the fragment's `function`, for every text.
pub proof fn law_texts_are_appended(
    acc: ToolAccModel,
    call: JsonModel,
    function: JsonModel,
    text: Seq<char>,
)
    requires
        call.get("function"@) == Some(function),
    ensures
        function.get("arguments"@) == Some(JsonModel::String(text)) ==> merge_call(acc, call).args
            == acc.args + text,
        function.get("name"@) == Some(JsonModel::String(text)) ==> merge_call(acc, call).name
            == acc.name + text,
{
}

/// Nothing but such a text is ever appended: a fragment without one leaves the name, or the
/// argument text, as it was.
pub proof fn law_nothing_else_is_appended(acc: ToolAccModel, call: JsonModel)
    ensures
        !(call.get("function"@) matches Some(function) && function.get("arguments"@) matches Some(
            JsonModel::String(_),
        )) ==> merge_call(acc, call).args == acc.args,
        !(call.get("function"@) matches Some(function) && function.get("name"@) matches Some(
            JsonModel::String(_),
        )) ==> merge_call(acc, call).name == acc.name,
{
    assert(acc.args + Seq::<char>::empty() =~= acc.args);
    assert(acc.name + Seq::<char>::empty() =~= acc.name);
}

/// An id that is not empty replaces the one before; a fragment without one keeps it.
pub proof fn law_id_is_replaced(acc: ToolAccModel, call: JsonModel, id: Seq<char>)
    ensures
        call.get("id"@) == Some(JsonModel::String(id)) && id.len() > 0 ==> merge_call(acc, call).id
            == id,
        call.get("id"@) == Some(JsonModel::String(id)) && id.len() == 0 ==> merge_call(acc, call).id
            == acc.id,
        !(call.get("id"@) matches Some(JsonModel::String(_))) ==> merge_call(acc, call).id
            == acc.id,
{
}

/// A fragment goes to the call at the index that it names, 0 where it names none, and to no
/// other; where there was no such call, one is begun with nothing in it.
pub proof fn law_fragment_goes_to_its_index(
    acc: Map<u64, ToolAccModel>,
    calls: Seq<JsonModel>,
    call: JsonModel,
    index: u64,
)
    requires
        call.get("index"@) == Some(JsonModel::Number(NumberModel::PosInt(index))) || (index == 0
            && !(call.get("index"@) matches Some(JsonModel::Number(NumberModel::PosInt(_))))),
    ensures
        add_calls(acc, Seq::empty()) == acc,
        ({
            let before = add_calls(acc, calls);
            let after = add_calls(acc, calls.push(call));
            let nothing = ToolAccModel { id: Seq::empty(), name: Seq::empty(), args: Seq::empty() };
            &&& after.dom() == before.dom().insert(index)
            &&& after[index] == merge_call(
                if before.dom().contains(index) {
                    before[index]
                } else {
                    nothing
                },
                call,
            )
            &&& forall|k: u64|
                k != index && before.dom().contains(k) ==> #[trigger] after[k] == before[k]
        }),
{
    assert(calls.push(call).drop_last() =~= calls);
    assert(add_calls(acc, calls.push(call)).dom() =~= add_calls(acc, calls).dom().insert(index));
}

/// The argument text of a call whose fragments all name one index is their argument texts, one
/// behind the other, with nothing lost and nothing put between them.
pub proof fn law_arguments_join(calls: Seq<JsonModel>, texts: Seq<Seq<char>>, index: u64)
    requires
        calls.len() > 0,
        calls.len() == texts.len(),
        forall|i: int|
            0 <= i < calls.len() ==> (#[trigger] calls[i]).get("index"@) == Some(
                JsonModel::Number(NumberModel::PosInt(index)),
            ),
        forall|i: int|
            0 <= i < calls.len() ==> ((#[trigger] calls[i]).get("function"@) matches Some(function)
                && function.get("arguments"@) == Some(JsonModel::String(texts[i]))),
    ensures
        add_calls(Map::empty(), calls).dom() == set![index],
        add_calls(Map::empty(), calls)[index].args == texts.flatten(),
    decreases calls.len(),
{
    let before = calls.drop_last();
    let last = calls.last();
    assert(last == calls[calls.len() - 1]);
    assert(before.push(last) =~= calls);
    assert(texts.drop_last().push(texts.last()) =~= texts);
    law_fragment_goes_to_its_index(Map::empty(), before, last, index);
    texts.drop_last().lemma_flatten_push(texts.last());
    if before.len() == 0 {
        assert(add_calls(Map::empty(), calls).dom() =~= set![index]);
        assert(texts.drop_last().flatten() =~= Seq::<char>::empty());
    } else {
        law_arguments_join(before, texts.drop_last(), index);
        assert(add_calls(Map::empty(), calls).dom() =~= set![index]);
    }
    let function = last.get("function"@)->0;
    let old_call = if before.len() == 0 {
        ToolAccModel { id: Seq::empty(), name: Seq::empty(), args: Seq::empty() }
    } else {
        add_calls(Map::empty(), before)[index]
    };
    law_texts_are_appended(old_call, last, function, texts.last());
}

/// Every assembled call is reported, once, the one with the least index first, with its name, its
/// id and the value that its argument text is read as, or `null` where it is no JSON. `keys` are
/// the indices in the order of the report.
pub proof fn law_every_call_is_reported(acc: Map<u64, ToolAccModel>) -> (keys: Seq<u64>)
    requires
        acc.dom().finite(),
    ensures
        finished_calls(acc).len() == keys.len(),
        keys.len() == acc.dom().len(),
        forall|i: int, j: int| 0 <= i < j < keys.len() ==> keys[i] < keys[j],
        forall|k: u64| acc.dom().contains(k) <==> #[trigger] keys.contains(k),
        forall|i: int|
            0 <= i < keys.len() ==> {
                let call = acc[keys[i]];
                let report = #[trigger] finished_calls(acc)[i];
                &&& report.function_name == call.name
                &&& report.tool_call_id == call.id
                &&& parsed_json(call.args) matches Some(value) ==> report.arguments == value
                &&& parsed_json(call.args) is None ==> report.arguments == JsonModel::Null
            },
{
    let keys = lemma_listing_exists(acc.dom());
    lemma_in_order(keys, acc.dom());
    assert(keys.no_duplicates());
    keys.unique_seq_to_set();
    assert(keys.to_set() =~= acc.dom()) by {
        assert forall|k: u64| keys.to_set().contains(k) <==> acc.dom().contains(k) by {
            assert(keys.to_set().contains(k) <==> keys.contains(k));
        }
    }
    assert forall|k: u64| acc.dom().contains(k) <==> #[trigger] keys.contains(k) by {}
    keys
}

/// A finished call has the name and the id that were put together, and the value that its
/// argument text was read as, or `null` where it was read as none.
pub proof fn law_finished_call(acc: ToolAccModel, value: JsonModel)
    ensures
        finished_call(acc, Some(value)).arguments == value,
        finished_call(acc, None).arguments == JsonModel::Null,
        forall|parsed: Option<JsonModel>|
            (#[trigger] finished_call(acc, parsed)).function_name == acc.name && finished_call(
                acc,
                parsed,
            ).tool_call_id == acc.id,
{
}

/// The model of a call under assembly holds its three texts, and the calls are modelled one by one
/// at their indices.
pub proof fn law_model_keeps_the_calls(acc: Map<u64, ToolAcc>)
    ensures
        acc_models(acc).dom() == acc.dom(),
        forall|k: u64|
            acc.dom().contains(k) ==> {
                let model = #[trigger] acc_models(acc)[k];
                &&& model.id == acc[k].id@
                &&& model.name == acc[k].name@
                &&& model.args == acc[k].args@
            },
{
    assert(acc_models(acc).dom() =~= acc.dom());
}

} // verus!

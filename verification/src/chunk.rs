//! One chunk of a streamed chat completion:
//! `{ "choices": [ { "delta": { "content": "...", "tool_calls": [ ... ] } } ], "usage": { ... } }`.

use crate::calls::{acc_models, add_calls, add_fragments, ToolAcc};
use crate::frame::{frame_models, Frame, FrameModel, LlmTokenUsage};
use crate::json::{json_models, lemma_json_models, Json, JsonModel, NumberModel};
use std::collections::{BTreeMap, VecDeque};
use vstd::prelude::*;

verus! {

/// The delta of the first choice in `chunk`.
pub open spec fn chunk_delta(chunk: JsonModel) -> Option<JsonModel> {
    match chunk.get("choices"@) {
        Some(choices) => match choices.as_array() {
            Some(items) => if items.len() > 0 {
                items[0].get("delta"@)
            } else {
                None
            },
            None => None,
        },
        None => None,
    }
}

/// The frames that the text in `chunk` is reported in: one, where there is any text.
pub open spec fn chunk_text(chunk: JsonModel) -> Seq<FrameModel> {
    match chunk_delta(chunk) {
        Some(delta) => match delta.get_str("content"@) {
            Some(text) => if text.len() > 0 {
                seq![FrameModel::LlmText(text)]
            } else {
                Seq::empty()
            },
            None => Seq::empty(),
        },
        None => Seq::empty(),
    }
}

/// The fragments of function calls in `chunk`.
pub open spec fn chunk_calls(chunk: JsonModel) -> Seq<JsonModel> {
    match chunk_delta(chunk) {
        Some(delta) => match delta.get("tool_calls"@) {
            Some(calls) => match calls.as_array() {
                Some(items) => items,
                None => Seq::empty(),
            },
            None => Seq::empty(),
        },
        None => Seq::empty(),
    }
}

/// The number in the member `key` of `usage`, `None` where it holds none.
pub open spec fn token_count(usage: JsonModel, key: Seq<char>) -> Option<u64> {
    match usage.get(key) {
        Some(count) => count.as_u64(),
        None => None,
    }
}

/// The number in the member `key` of the member `group` of `usage`, `None` where it holds none.
pub open spec fn token_detail(usage: JsonModel, group: Seq<char>, key: Seq<char>) -> Option<u64> {
    match usage.get(group) {
        Some(details) => token_count(details, key),
        None => None,
    }
}

/// `count`, or 0 where there is none.
pub open spec fn or_zero(count: Option<u64>) -> u64 {
    match count {
        Some(n) => n,
        None => 0,
    }
}

/// The tokens that a `usage` object reports.
pub open spec fn reported_usage(usage: JsonModel) -> LlmTokenUsage {
    LlmTokenUsage {
        prompt_tokens: or_zero(token_count(usage, "prompt_tokens"@)),
        completion_tokens: or_zero(token_count(usage, "completion_tokens"@)),
        total_tokens: or_zero(token_count(usage, "total_tokens"@)),
        cache_read_input_tokens: token_detail(
            usage,
            "prompt_tokens_details"@,
            "cached_tokens"@,
        ),
        cache_creation_input_tokens: None,
        reasoning_tokens: token_detail(
            usage,
            "completion_tokens_details"@,
            "reasoning_tokens"@,
        ),
    }
}

/// The tokens that `chunk` reports, where it has a `usage` that is not `null`.
pub open spec fn chunk_usage(chunk: JsonModel) -> Option<LlmTokenUsage> {
    match chunk.get("usage"@) {
        Some(usage) => if usage is Null {
            None
        } else {
            Some(reported_usage(usage))
        },
        None => None,
    }
}

fn get_count(usage: &Json, key: &str) -> (r: Option<u64>)
    ensures
        r == token_count(usage@, key@),
{
    match usage.get(key) {
        Some(count) => count.as_u64(),
        None => None,
    }
}

fn get_detail(usage: &Json, group: &str, key: &str) -> (r: Option<u64>)
    ensures
        r == token_detail(usage@, group@, key@),
{
    match usage.get(group) {
        Some(details) => get_count(details, key),
        None => None,
    }
}

/// Reads a `usage` object: the three counts, 0 where one is missing, and the two details, where
/// they are given.
pub fn parse_usage(usage: &Json) -> (r: LlmTokenUsage)
    ensures
        r == reported_usage(usage@),
{
    LlmTokenUsage {
        prompt_tokens: get_count(usage, "prompt_tokens").unwrap_or(0),
        completion_tokens: get_count(usage, "completion_tokens").unwrap_or(0),
        total_tokens: get_count(usage, "total_tokens").unwrap_or(0),
        cache_read_input_tokens: get_detail(usage, "prompt_tokens_details", "cached_tokens"),
        cache_creation_input_tokens: None,
        reasoning_tokens: get_detail(usage, "completion_tokens_details", "reasoning_tokens"),
    }
}

/// The tokens that `chunk` reports, where it has a `usage` that is not `null`.
pub fn usage_in(chunk: &Json) -> (r: Option<LlmTokenUsage>)
    ensures
        r == chunk_usage(chunk@),
{
    match chunk.get("usage") {
        Some(usage) => if usage.is_null() {
            None
        } else {
            Some(parse_usage(usage))
        },
        None => None,
    }
}

fn first_delta(chunk: &Json) -> (r: Option<&Json>)
    ensures
        match r {
            Some(delta) => chunk_delta(chunk@) == Some(delta@),
            None => chunk_delta(chunk@) is None,
        },
{
    broadcast use lemma_json_models;

    match chunk.get("choices") {
        Some(choices) => match choices.as_array() {
            Some(items) => if items.len() > 0 {
                assert(json_models(items@)[0] == items@[0]@);
                items[0].get("delta")
            } else {
                None
            },
            None => None,
        },
        None => None,
    }
}

/// Folds one chunk into the running state: its text goes to the end of `pending`, its fragments
/// of function calls go to `tool_acc`.
pub fn accumulate(
    chunk: &Json,
    tool_acc: &mut BTreeMap<u64, ToolAcc>,
    pending: &mut VecDeque<Frame>,
)
    ensures
        acc_models(final(tool_acc)@) == add_calls(acc_models(old(tool_acc)@), chunk_calls(chunk@)),
        frame_models(final(pending)@) == frame_models(old(pending)@) + chunk_text(chunk@),
{
    let ghost before = frame_models(pending@);
    assert(before + Seq::<FrameModel>::empty() =~= before);
    if let Some(delta) = first_delta(chunk) {
        if let Some(text) = delta.get_str("content") {
            if !text.is_empty() {
                pending.push_back(Frame::LlmText(text.to_owned()));
                assert(frame_models(pending@) =~= before + chunk_text(chunk@));
            }
        }
        if let Some(calls) = delta.get("tool_calls") {
            if let Some(items) = calls.as_array() {
                add_fragments(tool_acc, items);
            }
        }
    }
}

/// The text of a chunk is the string `content` in the `delta` of its first choice, whatever else
/// the chunk, the choice and the delta hold: it is reported in one frame, unchanged, where it is
/// not empty.
pub proof fn law_text_is_reported(
    chunk: JsonModel,
    choices: Seq<JsonModel>,
    delta: JsonModel,
    text: Seq<char>,
)
    requires
        chunk.get("choices"@) == Some(JsonModel::Array(choices)),
        choices.len() > 0,
        choices[0].get("delta"@) == Some(delta),
        delta.get("content"@) == Some(JsonModel::String(text)),
    ensures
        text.len() > 0 ==> chunk_text(chunk) == seq![FrameModel::LlmText(text)],
        text.len() == 0 ==> chunk_text(chunk) == Seq::<FrameModel>::empty(),
{
}

/// The fragments of function calls in a chunk are all the items of the array `tool_calls` in the
/// `delta` of its first choice, whatever else the chunk, the choice and the delta hold.
pub proof fn law_fragments_are_taken(
    chunk: JsonModel,
    choices: Seq<JsonModel>,
    delta: JsonModel,
    calls: Seq<JsonModel>,
)
    requires
        chunk.get("choices"@) == Some(JsonModel::Array(choices)),
        choices.len() > 0,
        choices[0].get("delta"@) == Some(delta),
        delta.get("tool_calls"@) == Some(JsonModel::Array(calls)),
    ensures
        chunk_calls(chunk) == calls,
{
}

/// A chunk has no other text and no other fragments: both come from the first choice's `delta`.
pub proof fn law_only_the_first_delta_counts(chunk: JsonModel)
    ensures
        chunk_text(chunk).len() > 0 ==> ({
            &&& chunk.get("choices"@) matches Some(JsonModel::Array(choices))
            &&& choices.len() > 0
            &&& choices[0].get("delta"@) matches Some(delta)
            &&& delta.get("content"@) matches Some(JsonModel::String(text))
            &&& text.len() > 0
        }),
        chunk_calls(chunk).len() > 0 ==> ({
            &&& chunk.get("choices"@) matches Some(JsonModel::Array(choices))
            &&& choices.len() > 0
            &&& choices[0].get("delta"@) matches Some(delta)
            &&& delta.get("tool_calls"@) matches Some(JsonModel::Array(_))
        }),
{
}

/// A usage is reported for a chunk that has a `usage` other than `null`, whatever else the chunk
/// holds, and for no other.
pub proof fn law_usage_is_reported(chunk: JsonModel, usage: JsonModel)
    ensures
        chunk.get("usage"@) == Some(usage) && !(usage is Null) ==> chunk_usage(chunk) == Some(
            reported_usage(usage),
        ),
        chunk.get("usage"@) == Some(JsonModel::Null) ==> chunk_usage(chunk) is None,
        chunk.get("usage"@) is None ==> chunk_usage(chunk) is None,
{
}

/// The three counts of a usage are the integers that were sent, for every integer; a count that
/// was not sent as one is 0.
pub proof fn law_counts_are_kept(usage: JsonModel, n: u64)
    ensures
        ({
            let r = reported_usage(usage);
            let sent = Some(JsonModel::Number(NumberModel::PosInt(n)));
            &&& usage.get("prompt_tokens"@) == sent ==> r.prompt_tokens == n
            &&& usage.get("completion_tokens"@) == sent ==> r.completion_tokens == n
            &&& usage.get("total_tokens"@) == sent ==> r.total_tokens == n
            &&& r.prompt_tokens != 0 ==> usage.get("prompt_tokens"@) == Some(
                JsonModel::Number(NumberModel::PosInt(r.prompt_tokens)),
            )
            &&& r.completion_tokens != 0 ==> usage.get("completion_tokens"@) == Some(
                JsonModel::Number(NumberModel::PosInt(r.completion_tokens)),
            )
            &&& r.total_tokens != 0 ==> usage.get("total_tokens"@) == Some(
                JsonModel::Number(NumberModel::PosInt(r.total_tokens)),
            )
        }),
{
}

/// The details of a usage, the cached and the reasoning tokens, are the integers that were sent,
/// for every integer; one that was not sent as one is not reported. Tokens that a cache was
/// written with are never reported.
pub proof fn law_details_are_kept(usage: JsonModel, prompt: JsonModel, completion: JsonModel, n: u64)
    ensures
        ({
            let r = reported_usage(usage);
            let sent = Some(JsonModel::Number(NumberModel::PosInt(n)));
            &&& usage.get("prompt_tokens_details"@) == Some(prompt) ==> (prompt.get(
                "cached_tokens"@,
            ) == sent <==> r.cache_read_input_tokens == Some(n))
            &&& usage.get("prompt_tokens_details"@) is None ==> r.cache_read_input_tokens is None
            &&& usage.get("completion_tokens_details"@) == Some(completion) ==> (completion.get(
                "reasoning_tokens"@,
            ) == sent <==> r.reasoning_tokens == Some(n))
            &&& usage.get("completion_tokens_details"@) is None ==> r.reasoning_tokens is None
            &&& r.cache_creation_input_tokens is None
        }),
{
}

} // verus!

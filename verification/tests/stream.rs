use flowcat_services::calls::{add_fragments, drain_tool_calls, finish_call, ToolAcc};
use flowcat_services::frame::{Frame, FunctionCall, LlmTokenUsage, MetricsData};
use flowcat_services::json::{Json, JsonNumber};
use flowcat_services::parse::parse_json;
use flowcat_services::sse::{parse_sse_line, sse_data, sse_data_event, SseEvent, SseState, SseStep};
use flowcat_services::stream::sse_to_frames;
use flowcat_services::text::{
    find_char, str_eq, strip_prefix, trim, trim_end_char, white_space,
};
use std::collections::BTreeMap;

fn frames_of(pieces: &[&[u8]]) -> Vec<Frame> {
    let pieces: Vec<Result<Vec<u8>, ()>> = pieces.iter().map(|p| Ok(p.to_vec())).collect();
    sse_to_frames(&pieces, "m".to_string())
}

fn said(text: &str) -> Frame {
    Frame::LlmText(text.to_string())
}

fn content(text: &str) -> String {
    format!("data: {{\"choices\":[{{\"delta\":{{\"content\":\"{text}\"}}}}]}}\n")
}

const RESPONSE: &str = ": hello\r\n\ndata: {\"choices\":[{\"delta\":{\"content\":\"h\u{e9}\"}}]}\r\n\
data: {\"choices\":[{\"delta\":{\"content\":\"\",\"tool_calls\":[{\"index\":1,\"id\":\"b\",\"function\":{\"name\":\"two\",\"arguments\":\"[\"}}]}}]}\n\
data: {\"choices\":[{\"delta\":{\"tool_calls\":[{\"index\":0,\"id\":\"a\",\"function\":{\"name\":\"on\",\"arguments\":\"\"}},{\"index\":1,\"id\":\"\",\"function\":{\"arguments\":\"2]\"}}]}}]}\n\
data: {\"choices\":[{\"delta\":{\"content\":\"llo\",\"tool_calls\":[{\"function\":{\"name\":\"e\"}}]}}],\"usage\":null}\n\
data: not json\n\
event: ping\n\
data: {\"choices\":[],\"usage\":{\"prompt_tokens\":1,\"completion_tokens\":2,\"total_tokens\":3}}\n\
data: {\"choices\":[],\"usage\":{\"prompt_tokens\":4,\"completion_tokens\":5,\"total_tokens\":9}}\n\
data: [DONE]\n";

fn expected() -> Vec<Frame> {
    vec![
        Frame::LlmResponseStart,
        said("hé"),
        said("llo"),
        Frame::FunctionCallsStarted(vec![
            FunctionCall {
                function_name: "one".to_string(),
                tool_call_id: "a".to_string(),
                arguments: Json::Null,
            },
            FunctionCall {
                function_name: "two".to_string(),
                tool_call_id: "b".to_string(),
                arguments: Json::Array(vec![Json::Number(JsonNumber::PosInt(2))]),
            },
        ]),
        Frame::Metrics(vec![MetricsData::LlmUsage {
            processor: "openai".to_string(),
            model: Some("m".to_string()),
            tokens: LlmTokenUsage {
                prompt_tokens: 4,
                completion_tokens: 5,
                total_tokens: 9,
                cache_read_input_tokens: None,
                cache_creation_input_tokens: None,
                reasoning_tokens: None,
            },
        }]),
        Frame::LlmResponseEnd,
    ]
}

#[test]
fn whole_response_becomes_its_frames() {
    assert_eq!(frames_of(&[RESPONSE.as_bytes()]), expected());
}

#[test]
fn cutting_the_response_between_characters_changes_nothing() {
    for (i, _) in RESPONSE.char_indices() {
        let (a, b) = RESPONSE.as_bytes().split_at(i);
        assert_eq!(frames_of(&[a, b]), expected());
    }
    let mut buf = [0u8; 4];
    let single: Vec<Vec<u8>> = RESPONSE
        .chars()
        .map(|c| c.encode_utf8(&mut buf).as_bytes().to_vec())
        .collect();
    let single: Vec<&[u8]> = single.iter().map(|p| p.as_slice()).collect();
    assert_eq!(frames_of(&single), expected());
}

#[test]
fn a_character_cut_in_two_becomes_replacement_characters() {
    let line = content("é");
    let cut = line.find('é').unwrap() + 1;
    let (a, b) = line.as_bytes().split_at(cut);
    assert_eq!(
        frames_of(&[a, b]),
        vec![Frame::LlmResponseStart, said("\u{fffd}\u{fffd}"), Frame::LlmResponseEnd]
    );
}

#[test]
fn nothing_counts_after_the_terminal_line() {
    let tail = format!("{}data: [DONE]\n{}data: [DONE]\n", content("a"), content("b"));
    let want = vec![Frame::LlmResponseStart, said("a"), Frame::LlmResponseEnd];
    assert_eq!(frames_of(&[tail.as_bytes()]), want);
    assert_eq!(frames_of(&[content("a").as_bytes(), b"data: [DONE]\n", content("b").as_bytes()]), want);
}

#[test]
fn breaking_off_ends_the_response() {
    let want = vec![Frame::LlmResponseStart, said("a"), Frame::LlmResponseEnd];
    assert_eq!(frames_of(&[content("a").as_bytes()]), want);
    let pieces = vec![
        Ok(content("a").into_bytes()),
        Err("reset"),
        Ok(content("b").into_bytes()),
    ];
    assert_eq!(sse_to_frames(&pieces, "m".to_string()), want);
    // A line that was not completed is not read.
    let open = content("b");
    assert_eq!(
        frames_of(&[content("a").as_bytes(), open.trim_end().as_bytes()]),
        want
    );
}

#[test]
fn an_empty_response_is_framed() {
    let want = vec![Frame::LlmResponseStart, Frame::LlmResponseEnd];
    assert_eq!(frames_of(&[]), want);
    assert_eq!(frames_of(&[b"data: [DONE]\n"]), want);
    assert_eq!(frames_of(&[b"\n\n: x\n"]), want);
}

#[test]
fn state_hands_frames_out_as_they_come() {
    let mut st = SseState::new("m".to_string());
    assert_eq!(st.next_step(), SseStep::Read);
    st.feed(content("a").as_bytes());
    assert_eq!(st.next_step(), SseStep::Emit(Frame::LlmResponseStart));
    assert_eq!(st.next_step(), SseStep::Emit(said("a")));
    assert_eq!(st.next_step(), SseStep::Read);
    st.feed_text("data: [DO");
    assert_eq!(st.next_step(), SseStep::Read);
    st.feed_text("NE]\n");
    st.finish();
    st.on_event(SseEvent::Done);
    assert_eq!(st.next_step(), SseStep::Emit(Frame::LlmResponseEnd));
    assert_eq!(st.next_step(), SseStep::End);
    assert_eq!(st.next_step(), SseStep::End);
}

#[test]
fn events_drive_the_state_directly() {
    let mut st = SseState::new("m".to_string());
    st.on_event(SseEvent::Ignored);
    assert_eq!(st.next_step(), SseStep::Read);
    st.on_event(SseEvent::Chunk(Json::Null));
    assert_eq!(st.next_step(), SseStep::Emit(Frame::LlmResponseStart));
    assert_eq!(st.next_step(), SseStep::Read);
}

#[test]
fn lines_are_told_apart() {
    assert_eq!(sse_data("  data:  x y \r"), Some("x y"));
    assert_eq!(sse_data("data:"), Some(""));
    assert_eq!(sse_data("data"), None);
    assert_eq!(sse_data("\u{a0}data:[1]\u{2003}"), Some("[1]"));
    assert_eq!(parse_sse_line("data:[DONE]\r"), SseEvent::Done);
    assert_eq!(parse_sse_line(" \tdata:\u{a0} [DONE] \r"), SseEvent::Done);
    assert_eq!(
        parse_sse_line("\u{2003}data: \t7 \r"),
        SseEvent::Chunk(Json::Number(JsonNumber::PosInt(7)))
    );
    assert_eq!(parse_sse_line("data: [DONE] x"), SseEvent::Ignored);
    assert_eq!(parse_sse_line("Data: [DONE]"), SseEvent::Ignored);
    assert_eq!(parse_sse_line("data:"), SseEvent::Ignored);
    assert_eq!(parse_sse_line("data: null"), SseEvent::Chunk(Json::Null));
    assert_eq!(sse_data_event(None), SseEvent::Ignored);
    assert_eq!(sse_data_event(Some(Json::Bool(true))), SseEvent::Chunk(Json::Bool(true)));
}

#[test]
fn json_text_is_read_as_it_stands() {
    assert_eq!(parse_json(""), None);
    assert_eq!(parse_json("{"), None);
    assert_eq!(parse_json("1 2"), None);
    assert_eq!(parse_json(" true "), Some(Json::Bool(true)));
    let max = Json::Number(JsonNumber::PosInt(u64::MAX));
    assert_eq!(parse_json("18446744073709551615"), Some(max));
    let min = Json::Number(JsonNumber::NegInt(i64::MIN));
    assert_eq!(parse_json("-9223372036854775808"), Some(min));
    assert_eq!(
        parse_json("1.50"),
        Some(Json::Number(JsonNumber::Float("1.5".to_string())))
    );
    assert_eq!(
        parse_json(r#"{"b":["x",null],"a":{"c":-1}}"#)
            .map(|v| (v.get("b").cloned(), v.get("a").and_then(|a| a.get("c")).cloned())),
        Some((
            Some(Json::Array(vec![Json::String("x".to_string()), Json::Null])),
            Some(Json::Number(JsonNumber::NegInt(-1)))
        ))
    );
    assert_eq!(parse_json(r#"{"a":1,"a":2}"#).and_then(|v| v.get("a").and_then(Json::as_u64)), Some(2));
}

#[test]
fn members_and_kinds_of_values() {
    let v = parse_json(r#"{"s":"t","n":7,"a":[1]}"#).unwrap();
    assert_eq!(v.get_str("s"), Some("t"));
    assert_eq!(v.get_str("n"), None);
    assert_eq!(v.get_str("x"), None);
    assert_eq!(v.get("n").and_then(Json::as_u64), Some(7));
    assert_eq!(v.get("a").and_then(Json::as_array).map(|a| a.len()), Some(1));
    assert!(v.as_array().is_none() && v.as_str().is_none() && v.as_u64().is_none());
    assert!(Json::Null.is_null() && !v.is_null());
    assert_eq!(v.clone(), v);
}

#[test]
fn calls_come_out_in_index_order_with_their_own_fragments() {
    let fragments = parse_json(
        r#"[{"index":300,"id":"x","function":{"name":"c","arguments":"{}"}},
            {"index":2,"function":{"name":"b"}},
            {"function":{"name":"a","arguments":"1"}},
            {"index":2,"id":"y","function":{"name":"b","arguments":"{\"k\":1}"}},
            {"index":2,"id":"z"}]"#,
    )
    .unwrap();
    let mut acc = BTreeMap::new();
    add_fragments(&mut acc, fragments.as_array().unwrap());
    let Some(Frame::FunctionCallsStarted(calls)) = drain_tool_calls(&mut acc) else {
        panic!("calls");
    };
    let names: Vec<&str> = calls.iter().map(|c| c.function_name.as_str()).collect();
    let ids: Vec<&str> = calls.iter().map(|c| c.tool_call_id.as_str()).collect();
    assert_eq!(names, ["a", "bb", "c"]);
    assert_eq!(ids, ["", "z", "x"]);
    assert_eq!(calls[0].arguments, Json::Number(JsonNumber::PosInt(1)));
    assert_eq!(calls[1].arguments.get("k").and_then(Json::as_u64), Some(1));
    assert_eq!(calls[2].arguments, Json::Object(vec![]));
    assert_eq!(drain_tool_calls(&mut acc), None);
}

#[test]
fn arguments_that_are_no_json_become_null() {
    let mut acc = ToolAcc::new();
    acc.merge(&parse_json(r#"{"id":"i","function":{"name":"n","arguments":"{"}}"#).unwrap());
    assert_eq!(finish_call(&acc, parse_json(&acc.args)).arguments, Json::Null);
    let call = finish_call(&acc, Some(Json::Bool(true)));
    assert_eq!(call.arguments, Json::Bool(true));
    assert_eq!(call.function_name, "n");
    assert_eq!(call.tool_call_id, "i");
}

#[test]
fn white_space_is_unicode_white_space() {
    for n in 0..=0x10ffffu32 {
        if let Some(c) = char::from_u32(n) {
            assert_eq!(white_space(c), c.is_whitespace(), "{n:x}");
        }
    }
}

#[test]
fn text_helpers_agree_with_std() {
    for s in ["", " ", "a", " a b\t", "\u{3000}é \n", "//", "a//", "/a/", "data: x"] {
        assert_eq!(trim(s), s.trim());
        assert_eq!(trim_end_char(s, '/'), s.trim_end_matches('/'));
        assert_eq!(strip_prefix(s, "data:"), s.strip_prefix("data:"));
        assert_eq!(find_char(s, 'a'), s.chars().position(|c| c == 'a'));
        for t in ["", "a", "//", "data: x"] {
            assert_eq!(str_eq(s, t), s == t);
        }
    }
}

#[test]
fn frames_stand_in_their_order_and_keep_the_text() {
    let place = |f: &Frame| match f {
        Frame::LlmResponseStart => 0,
        Frame::LlmText(_) => 1,
        Frame::FunctionCallsStarted(_) => 2,
        Frame::Metrics(_) => 3,
        Frame::LlmResponseEnd => 4,
    };
    let frames = frames_of(&[RESPONSE.as_bytes()]);
    let places: Vec<i32> = frames.iter().map(place).collect();
    assert_eq!(places, [0, 1, 1, 2, 3, 4]);
    let spoken: String = frames
        .iter()
        .map(|f| match f {
            Frame::LlmText(t) => t.as_str(),
            _ => "",
        })
        .collect();
    assert_eq!(spoken, "h\u{e9}llo");
}

#[test]
fn a_fragment_is_enough_for_a_report_and_no_fragment_is_none() {
    let bare = b"data: {\"choices\":[{\"delta\":{\"tool_calls\":[{}]}}]}\n";
    assert_eq!(
        frames_of(&[bare]),
        vec![
            Frame::LlmResponseStart,
            Frame::FunctionCallsStarted(vec![FunctionCall {
                function_name: String::new(),
                tool_call_id: String::new(),
                arguments: Json::Null,
            }]),
            Frame::LlmResponseEnd,
        ]
    );
    let none = b"data: {\"choices\":[{\"delta\":{\"tool_calls\":[]}}]}\n";
    assert_eq!(frames_of(&[none]), vec![Frame::LlmResponseStart, Frame::LlmResponseEnd]);
}

#[test]
fn only_the_first_choice_counts() {
    let two = b"data: {\"choices\":[{\"delta\":{\"content\":\"a\"}},{\"delta\":{\"content\":\"b\"}}]}\n";
    assert_eq!(
        frames_of(&[two]),
        vec![Frame::LlmResponseStart, said("a"), Frame::LlmResponseEnd]
    );
    let odd = b"data: {\"choices\":{\"delta\":{\"content\":\"a\"}}}\ndata: {\"choices\":[{\"delta\":{\"content\":5}}]}\n";
    assert_eq!(frames_of(&[odd]), vec![Frame::LlmResponseStart, Frame::LlmResponseEnd]);
}

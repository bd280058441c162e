use flowcat_services::calls::drain_tool_calls;
use flowcat_services::chunk::{accumulate, parse_usage, usage_in};
use flowcat_services::frame::{Frame, MetricsData};
use flowcat_services::http::is_success;
use flowcat_services::json::{Json, JsonNumber};
use flowcat_services::openai::{
    check_status, refusal, send_error, status_error, FlowcatError, OpenAiLlm, OpenAiLlmBuilder,
    OPENAI_API_BASE,
};
use flowcat_services::parse::parse_json;
use flowcat_services::request::{tool_to_openai, LlmContext, Tool};
use flowcat_services::sse::{parse_sse_line, SseEvent};
use flowcat_services::stream::sse_to_frames;
use reqwest::header::{HeaderMap, HeaderName, HeaderValue};
use std::collections::{BTreeMap, VecDeque};

fn json(text: &str) -> Json {
    parse_json(text).expect("JSON")
}

fn at<'a>(v: &'a Json, path: &[&str]) -> &'a Json {
    let mut cur = v;
    for key in path {
        cur = match key.parse::<usize>() {
            Ok(i) => &cur.as_array().expect("an array")[i],
            Err(_) => cur.get(key).expect(key),
        };
    }
    cur
}

fn text<'a>(v: &'a Json, path: &[&str]) -> &'a str {
    at(v, path).as_str().expect("a string")
}

#[test]
fn request_body_carries_model_messages_stream_and_tools() {
    let mut llm = OpenAiLlm::new("k");
    llm.set_tools(vec![Tool {
        name: "end_call".into(),
        description: "end".into(),
        params: json(r#"{"type": "object"}"#),
    }]);
    let ctx = LlmContext {
        messages: vec![json(r#"{"role": "user", "content": "hi"}"#)],
        tools: vec![],
    };
    let body = llm.request_body(&ctx);
    assert_eq!(text(&body, &["model"]), "gpt-4o");
    assert_eq!(at(&body, &["stream"]), &Json::Bool(true));
    assert_eq!(text(&body, &["messages", "0", "content"]), "hi");
    assert_eq!(text(&body, &["tools", "0", "type"]), "function");
    assert_eq!(text(&body, &["tools", "0", "function", "name"]), "end_call");
}

#[test]
fn ctx_tools_are_wrapped_in_openai_shape() {
    let llm = OpenAiLlm::new("k");
    let ctx = LlmContext {
        messages: vec![json(r#"{"role": "user", "content": "hi"}"#)],
        tools: vec![json(
            r#"{"name": "go_book", "description": "book it", "params": {"type": "object"}}"#,
        )],
    };
    let body = llm.request_body(&ctx);
    assert_eq!(
        text(&body, &["tools", "0", "type"]),
        "function",
        "ctx tools need type:function"
    );
    assert_eq!(text(&body, &["tools", "0", "function", "name"]), "go_book");
    assert_eq!(
        text(&body, &["tools", "0", "function", "parameters", "type"]),
        "object"
    );
}

#[test]
fn base_url_override_points_at_openrouter() {
    let llm = OpenAiLlmBuilder::new("k")
        .base_url("https://openrouter.ai/api/v1/")
        .model("mistralai/mistral-large")
        .build();
    assert_eq!(llm.base_url(), "https://openrouter.ai/api/v1");
    assert_eq!(llm.model(), "mistralai/mistral-large");
    assert!(llm.headers().is_empty());
}

#[test]
fn parse_sse_line_classifies_chunk_done_and_noise() {
    assert!(matches!(parse_sse_line("data: [DONE]"), SseEvent::Done));
    assert!(matches!(parse_sse_line(""), SseEvent::Ignored));
    assert!(matches!(parse_sse_line(": comment"), SseEvent::Ignored));
    match parse_sse_line(r#"data: {"choices":[{"delta":{"content":"hi"}}]}"#) {
        SseEvent::Chunk(v) => assert_eq!(text(&v, &["choices", "0", "delta", "content"]), "hi"),
        _ => panic!("expected chunk"),
    }
}

#[test]
fn accumulate_emits_text_deltas_in_order() {
    let mut acc = BTreeMap::new();
    let mut pending = VecDeque::new();
    for token in ["Hello", " ", "world"] {
        let chunk = json(&format!(
            r#"{{"choices":[{{"delta":{{"content": "{token}"}}}}]}}"#
        ));
        accumulate(&chunk, &mut acc, &mut pending);
    }
    let texts: Vec<String> = pending
        .into_iter()
        .filter_map(|f| match f {
            Frame::LlmText(t) => Some(t),
            _ => None,
        })
        .collect();
    assert_eq!(texts, vec!["Hello", " ", "world"]);
}

#[test]
fn accumulate_assembles_streamed_tool_call() {
    let mut acc = BTreeMap::new();
    let mut pending = VecDeque::new();
    // The call comes in fragments: id and name first, then the rest of the arguments.
    let c1 = json(
        r#"{"choices":[{"delta":{"tool_calls":[
            {"index":0,"id":"call_1","function":{"name":"book","arguments":"{\"da"}}
        ]}}]}"#,
    );
    let c2 = json(
        r#"{"choices":[{"delta":{"tool_calls":[
            {"index":0,"function":{"arguments":"y\":\"mon\"}"}}
        ]}}]}"#,
    );
    accumulate(&c1, &mut acc, &mut pending);
    accumulate(&c2, &mut acc, &mut pending);
    assert!(
        pending.is_empty(),
        "tool calls assemble, not stream as text"
    );
    let frame = drain_tool_calls(&mut acc).expect("a tool call");
    match frame {
        Frame::FunctionCallsStarted(calls) => {
            assert_eq!(calls.len(), 1);
            assert_eq!(calls[0].function_name, "book");
            assert_eq!(calls[0].tool_call_id, "call_1");
            assert_eq!(text(&calls[0].arguments, &["day"]), "mon");
        }
        other => panic!("expected FunctionCallsStarted, got {:?}", other),
    }
    assert!(acc.is_empty());
}

#[test]
fn request_body_asks_for_include_usage() {
    let llm = OpenAiLlm::new("k");
    let ctx = LlmContext {
        messages: vec![json(r#"{"role": "user", "content": "hi"}"#)],
        tools: vec![],
    };
    let body = llm.request_body(&ctx);
    assert_eq!(
        at(&body, &["stream_options", "include_usage"]),
        &Json::Bool(true)
    );
}

#[test]
fn parse_usage_maps_openai_token_fields() {
    let u = json(
        r#"{
            "prompt_tokens": 12, "completion_tokens": 7, "total_tokens": 19,
            "prompt_tokens_details": { "cached_tokens": 4 },
            "completion_tokens_details": { "reasoning_tokens": 3 }
        }"#,
    );
    let t = parse_usage(&u);
    assert_eq!(t.prompt_tokens, 12);
    assert_eq!(t.completion_tokens, 7);
    assert_eq!(t.total_tokens, 19);
    assert_eq!(t.cache_read_input_tokens, Some(4));
    assert_eq!(t.reasoning_tokens, Some(3));
}

#[test]
fn sse_stream_emits_llm_usage_metric_from_trailing_chunk() {
    // A text delta, then the trailing chunk with the usage and no choices, then the end.
    let chunks: Vec<Result<Vec<u8>, std::convert::Infallible>> = vec![
        Ok(b"data: {\"choices\":[{\"delta\":{\"content\":\"hi\"}}]}\n".to_vec()),
        Ok(b"data: {\"choices\":[],\"usage\":{\"prompt_tokens\":12,\"completion_tokens\":7,\"total_tokens\":19}}\n".to_vec()),
        Ok(b"data: [DONE]\n".to_vec()),
    ];
    let frames = sse_to_frames(&chunks, "gpt-4o".to_string());
    let mut saw_text = false;
    let mut usage = None;
    for f in frames {
        match f {
            Frame::LlmText(_) => saw_text = true,
            Frame::Metrics(items) => {
                for m in items {
                    let MetricsData::LlmUsage { model, tokens, .. } = m;
                    usage = Some((model, tokens));
                }
            }
            _ => {}
        }
    }
    assert!(saw_text, "text delta still streams");
    let (model, tokens) = usage.expect("a usage metric is emitted");
    assert_eq!(model.as_deref(), Some("gpt-4o"));
    assert_eq!(tokens.prompt_tokens, 12);
    assert_eq!(tokens.completion_tokens, 7);
    assert_eq!(tokens.total_tokens, 19);
}

#[test]
fn default_client_points_at_openai() {
    let llm = OpenAiLlm::new("secret");
    assert_eq!(llm.name(), "openai");
    assert_eq!(llm.api_key(), "secret");
    assert_eq!(llm.base_url(), OPENAI_API_BASE);
    assert_eq!(llm.model(), "gpt-4o");
    assert_eq!(llm.endpoint(), "https://api.openai.com/v1/chat/completions");
    assert!(llm.headers().is_empty());
}

#[test]
fn every_trailing_slash_is_trimmed_and_no_other() {
    let of = |base: &str| OpenAiLlmBuilder::new("k").base_url(base).build();
    assert_eq!(of("http://h//v1///").base_url(), "http://h//v1");
    assert_eq!(of("///").base_url(), "");
    assert_eq!(of("").base_url(), "");
    assert_eq!(of("/é/").base_url(), "/é");
    assert_eq!(of("http://h/").endpoint(), "http://h/chat/completions");
}

#[test]
fn builder_setters_leave_the_rest_alone_and_the_last_one_counts() {
    let mut headers = HeaderMap::new();
    headers.insert(HeaderName::from_static("x-a"), HeaderValue::from_static("1"));
    let builder = OpenAiLlmBuilder::new(String::from("k"))
        .model("one")
        .headers(headers.clone())
        .model("two");
    let copy = builder.clone().build();
    let llm = builder.build();
    assert_eq!(llm.model(), "two");
    assert_eq!(llm.api_key(), "k");
    assert_eq!(llm.base_url(), OPENAI_API_BASE);
    assert_eq!(llm.headers(), &headers);
    assert_eq!(copy.model(), "two");
    assert_eq!(copy.api_key(), "k");
    assert_eq!(copy.headers(), &headers);
}

#[test]
fn body_without_tools_has_no_tools_member() {
    let llm = OpenAiLlm::new("k");
    let ctx = LlmContext { messages: vec![], tools: vec![] };
    let body = llm.request_body(&ctx);
    assert!(body.get("tools").is_none());
    assert_eq!(at(&body, &["messages"]), &Json::Array(vec![]));
}

#[test]
fn context_tools_take_precedence_even_where_none_is_a_tool() {
    let mut llm = OpenAiLlm::new("k");
    llm.set_tools(vec![Tool {
        name: "own".into(),
        description: "d".into(),
        params: Json::Null,
    }]);
    let with = |tools: Vec<Json>| llm.request_body(&LlmContext { messages: vec![], tools });
    let body = with(vec![
        json(r#"{"name":"a","description":"A","params":null,"extra":1}"#),
        json(r#"{"name":"no description","params":{}}"#),
        json(r#"{"name":"no params","description":"x"}"#),
        json(r#"{"name":1,"description":"x","params":{}}"#),
        json(r#"["b","B",{"type":"object"}]"#),
        json(r#"["c","C"]"#),
        json(r#""text""#),
    ]);
    let tools = at(&body, &["tools"]).as_array().expect("tools");
    assert_eq!(tools.len(), 2);
    assert_eq!(text(&body, &["tools", "0", "function", "name"]), "a");
    assert_eq!(text(&body, &["tools", "1", "function", "name"]), "b");
    assert_eq!(text(&body, &["tools", "1", "function", "description"]), "B");
    assert_eq!(
        text(&body, &["tools", "1", "function", "parameters", "type"]),
        "object"
    );
    assert!(with(vec![Json::Null]).get("tools").is_none());
    let own = with(vec![]);
    assert_eq!(text(&own, &["tools", "0", "function", "name"]), "own");
}

#[test]
fn tool_schema_holds_type_and_function() {
    let schema = tool_to_openai(&Tool {
        name: "n".into(),
        description: "d".into(),
        params: json("{\"a\":[1]}"),
    });
    let expected = Json::Object(vec![
        ("type".into(), Json::String("function".into())),
        (
            "function".into(),
            Json::Object(vec![
                ("name".into(), Json::String("n".into())),
                ("description".into(), Json::String("d".into())),
                (
                    "parameters".into(),
                    Json::Object(vec![(
                        "a".into(),
                        Json::Array(vec![Json::Number(JsonNumber::PosInt(1))]),
                    )]),
                ),
            ]),
        ),
    ]);
    assert_eq!(schema, expected);
}

#[test]
fn usage_defaults_and_null_usage() {
    let t = parse_usage(&json(
        r#"{"prompt_tokens":-1,"completion_tokens":1.5,"prompt_tokens_details":{"cached_tokens":"4"}}"#,
    ));
    assert_eq!(t.prompt_tokens, 0);
    assert_eq!(t.completion_tokens, 0);
    assert_eq!(t.total_tokens, 0);
    assert_eq!(t.cache_read_input_tokens, None);
    assert_eq!(t.cache_creation_input_tokens, None);
    assert_eq!(t.reasoning_tokens, None);
    assert_eq!(usage_in(&json(r#"{"usage":null}"#)), None);
    assert_eq!(usage_in(&json("{}")), None);
    assert_eq!(
        usage_in(&json(r#"{"usage":{"total_tokens":5}}"#)).map(|u| u.total_tokens),
        Some(5)
    );
}

#[test]
fn errors_name_the_service_and_the_reason() {
    assert_eq!(
        send_error("no route"),
        FlowcatError::Network("openai send: no route".to_string())
    );
    assert_eq!(
        refusal("418 I'm a teapot", "short"),
        FlowcatError::Network("openai 418 I'm a teapot: short".to_string())
    );
    assert_eq!(
        status_error(404, "gone"),
        FlowcatError::Network("openai 404 Not Found: gone".to_string())
    );
    assert_eq!(
        status_error(999, ""),
        FlowcatError::Network("openai 999 <unknown status code>: ".to_string())
    );
    for code in 100..1000 {
        let status = reqwest::StatusCode::from_u16(code).unwrap();
        assert_eq!(is_success(code), status.is_success());
        assert_eq!(
            status_error(code, "t"),
            FlowcatError::Network(format!("openai {status}: t"))
        );
    }
}

#[test]
fn only_a_success_status_is_no_error() {
    assert_eq!(check_status(200, "ignored"), Ok(()));
    assert_eq!(check_status(299, ""), Ok(()));
    assert_eq!(
        check_status(300, "see"),
        Err(FlowcatError::Network("openai 300 Multiple Choices: see".to_string()))
    );
    for code in 100..1000 {
        let status = reqwest::StatusCode::from_u16(code).unwrap();
        let expected = if status.is_success() {
            Ok(())
        } else {
            Err(FlowcatError::Network(format!("openai {status}: t")))
        };
        assert_eq!(check_status(code, "t"), expected);
    }
}

/// Whether no object in `v` has two members with the same key.
fn repeats_no_key(v: &Json) -> bool {
    match v {
        Json::Array(items) => items.iter().all(repeats_no_key),
        Json::Object(members) => {
            let keys: std::collections::BTreeSet<&str> =
                members.iter().map(|(key, _)| key.as_str()).collect();
            keys.len() == members.len() && members.iter().all(|(_, value)| repeats_no_key(value))
        }
        _ => true,
    }
}

#[test]
fn no_key_stands_twice_in_what_is_read_or_sent() {
    let message = json(r#"{"role":"user","role":"tool","parts":[{"a":1,"b":2,"a":3}]}"#);
    assert!(repeats_no_key(&message));
    assert_eq!(text(&message, &["role"]), "tool");
    assert_eq!(at(&message, &["parts", "0", "a"]).as_u64(), Some(3));
    let llm = OpenAiLlm::new("k");
    let ctx = LlmContext {
        messages: vec![message],
        tools: vec![json(r#"{"name":"f","description":"d","params":{"x":1,"x":2}}"#)],
    };
    assert!(repeats_no_key(&llm.request_body(&ctx)));
}

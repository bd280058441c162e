use flowcat_services::json::Json;
use flowcat_services::perplexity::{
    request_headers, PerplexityLlm, PERPLEXITY_API_BASE, PERPLEXITY_DEFAULT_MODEL,
};
use flowcat_services::request::{LlmContext, Tool};
use reqwest::header::HeaderValue;

#[test]
fn constructs_with_base_and_default_model() {
    assert_eq!(PerplexityLlm::new("k").name(), "perplexity");
    assert_eq!(
        PerplexityLlm::with_model("k", "custom").name(),
        "perplexity"
    );
}

#[test]
fn sets_integration_header() {
    assert_eq!(
        request_headers().get("x-pplx-integration"),
        Some(&HeaderValue::from_static("flowcat"))
    );
}

#[test]
fn client_carries_base_model_and_header() {
    let llm = PerplexityLlm::new("k");
    assert_eq!(llm.inner().base_url(), PERPLEXITY_API_BASE);
    assert_eq!(llm.inner().model(), PERPLEXITY_DEFAULT_MODEL);
    assert_eq!(llm.inner().api_key(), "k");
    assert_eq!(llm.inner().endpoint(), "https://api.perplexity.ai/chat/completions");
    assert_eq!(llm.inner().headers(), &request_headers());
    assert_eq!(llm.inner().headers().len(), 1);
    assert_eq!(PerplexityLlm::with_model("k", "custom").inner().model(), "custom");
}

#[test]
fn tools_reach_the_request() {
    let mut llm = PerplexityLlm::new("k");
    let ctx = LlmContext { messages: vec![], tools: vec![] };
    assert!(llm.inner().request_body(&ctx).get("tools").is_none());
    llm.set_tools(vec![Tool {
        name: "n".into(),
        description: "d".into(),
        params: Json::Null,
    }]);
    let body = llm.inner().request_body(&ctx);
    assert_eq!(body.get("tools").and_then(Json::as_array).map(|t| t.len()), Some(1));
    assert_eq!(body.get_str("model"), Some("sonar"));
}

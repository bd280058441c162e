//! Perplexity: an OpenAI-compatible endpoint at a base of its own.

use crate::http::{header_entries, one_header, single_header};
use crate::openai::{LlmState, OpenAiLlm, OpenAiLlmBuilder};
use crate::request::{tool_models, Tool, ToolModel};
use crate::text::{converts_to, without_trailing};
use reqwest::header::HeaderMap;
use vstd::prelude::*;

verus! {

/// Perplexity's API base.
pub const PERPLEXITY_API_BASE: &'static str = "https://api.perplexity.ai";

/// Perplexity's default model.
pub const PERPLEXITY_DEFAULT_MODEL: &'static str = "sonar";

/// The headers of every request: `x-pplx-integration: flowcat`.
pub fn request_headers() -> (r: HeaderMap)
    ensures
        header_entries(r) == one_header("x-pplx-integration"@, "flowcat"@),
{
    proof {
        reveal_strlit("x-pplx-integration");
        reveal_strlit("flowcat");
    }
    single_header("x-pplx-integration", "flowcat")
}

/// A streaming chat-completions client for Perplexity.
#[derive(Debug)]
pub struct PerplexityLlm {
    inner: OpenAiLlm,
}

impl View for PerplexityLlm {
    type V = LlmState;

    closed spec fn view(&self) -> LlmState {
        self.inner@
    }
}

impl PerplexityLlm {
    /// A client with `api_key` and the default model.
    pub fn new(api_key: impl Into<String>) -> (r: Self)
        ensures
            converts_to(api_key, r@.settings.api_key),
            r@.settings.model == PERPLEXITY_DEFAULT_MODEL@,
            r@.settings.model == "sonar"@,
            r@.settings.base_url == PERPLEXITY_API_BASE@,
            r@.settings.base_url == "https://api.perplexity.ai"@,
            r@.settings.headers == one_header("x-pplx-integration"@, "flowcat"@),
            r@.tools == Seq::<ToolModel>::empty(),
    {
        Self::with_model(api_key, PERPLEXITY_DEFAULT_MODEL)
    }

    /// A client with `api_key` and `model`.
    pub fn with_model(api_key: impl Into<String>, model: impl Into<String>) -> (r: Self)
        ensures
            converts_to(api_key, r@.settings.api_key),
            converts_to(model, r@.settings.model),
            r@.settings.base_url == PERPLEXITY_API_BASE@,
            r@.settings.base_url == "https://api.perplexity.ai"@,
            r@.settings.headers == one_header("x-pplx-integration"@, "flowcat"@),
            r@.tools == Seq::<ToolModel>::empty(),
    {
        proof {
            reveal_strlit("https://api.perplexity.ai");
            assert(without_trailing(PERPLEXITY_API_BASE@, '/') == PERPLEXITY_API_BASE@);
        }
        let key: String = api_key.into();
        let name: String = model.into();
        let inner = OpenAiLlmBuilder::new(key).base_url(PERPLEXITY_API_BASE).model(name).headers(
            request_headers(),
        ).build();
        PerplexityLlm { inner }
    }

    /// The name of the service.
    pub fn name(&self) -> (r: &'static str)
        ensures
            r@ == "perplexity"@,
    {
        "perplexity"
    }

    /// Gives the client the tools that it offers where a context declares none.
    pub fn set_tools(&mut self, tools: Vec<Tool>)
        ensures
            final(self)@ == (LlmState { tools: tool_models(tools@), ..old(self)@ }),
    {
        self.inner.set_tools(tools);
    }

    /// The OpenAI client that carries the requests.
    pub fn inner(&self) -> (r: &OpenAiLlm)
        ensures
            r@ == self@,
    {
        &self.inner
    }
}

} // verus!

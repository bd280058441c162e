//! OpenAI, OpenRouter and other OpenAI-compatible chat completions.

use crate::http::{
    clone_headers, header_entries, is_success, no_headers, print_status, status_text,
};
use crate::json::{json_models, Json};
use crate::request::{
    body_model, chat_body, request_tools, tool_models, LlmContext, Tool, ToolModel,
};
use crate::text::{converts_to, law_without_trailing, trim_end_char, without_trailing};
use reqwest::header::HeaderMap;
use vstd::prelude::*;

verus! {

/// OpenAI's API base. Another base points the same client at OpenRouter
/// (`https://openrouter.ai/api/v1`) or at a gateway of one's own.
pub const OPENAI_API_BASE: &'static str = "https://api.openai.com/v1";

/// What can go wrong with a request.
#[derive(Debug, PartialEq)]
pub enum FlowcatError {
    /// The request could not be sent, or the server refused it.
    Network(String),
}

/// Builder for [`OpenAiLlm`].
#[derive(Debug)]
pub struct OpenAiLlmBuilder {
    api_key: String,
    base_url: String,
    model: String,
    headers: HeaderMap,
}

/// The settings of a client.
pub struct Settings {
    pub api_key: Seq<char>,
    pub base_url: Seq<char>,
    pub model: Seq<char>,
    pub headers: Map<Seq<char>, Seq<Seq<u8>>>,
}

impl View for OpenAiLlmBuilder {
    type V = Settings;

    closed spec fn view(&self) -> Settings {
        Settings {
            api_key: self.api_key@,
            base_url: self.base_url@,
            model: self.model@,
            headers: header_entries(self.headers),
        }
    }
}

/// Whether a base can be followed by a path: it does not end in a slash.
pub open spec fn is_base(url: Seq<char>) -> bool {
    url.len() > 0 ==> url.last() != '/'
}

impl OpenAiLlmBuilder {
    #[verifier::type_invariant]
    spec fn base_is_base(self) -> bool {
        is_base(self.base_url@)
    }

    /// Starts a builder with `api_key`, OpenAI's base and the model `gpt-4o`.
    pub fn new(api_key: impl Into<String>) -> (r: Self)
        ensures
            converts_to(api_key, r@.api_key),
            r@.base_url == OPENAI_API_BASE@,
            r@.base_url == "https://api.openai.com/v1"@,
            r@.model == "gpt-4o"@,
            r@.headers == no_headers(),
    {
        proof {
            reveal_strlit("https://api.openai.com/v1");
        }
        OpenAiLlmBuilder {
            api_key: api_key.into(),
            base_url: OPENAI_API_BASE.to_owned(),
            model: "gpt-4o".to_owned(),
            headers: HeaderMap::new(),
        }
    }

    /// Sets the API base (OpenRouter, a compatible gateway). Trailing slashes are trimmed.
    pub fn base_url(self, base: impl Into<String>) -> (r: Self)
        ensures
            exists|url: Seq<char>| #[trigger]
                converts_to(base, url) && r@ == (Settings {
                    base_url: without_trailing(url, '/'),
                    ..self@
                }),
    {
        let url: String = base.into();
        let trimmed = trim_end_char(url.as_str(), '/').to_owned();
        proof {
            law_without_trailing(url@, '/');
            assert(converts_to(base, url@));
        }
        OpenAiLlmBuilder {
            api_key: self.api_key,
            base_url: trimmed,
            model: self.model,
            headers: self.headers,
        }
    }

    /// Sets the model.
    pub fn model(self, model: impl Into<String>) -> (r: Self)
        ensures
            converts_to(model, r@.model),
            r@ == (Settings { model: r@.model, ..self@ }),
    {
        proof {
            use_type_invariant(&self);
        }
        OpenAiLlmBuilder {
            api_key: self.api_key,
            base_url: self.base_url,
            model: model.into(),
            headers: self.headers,
        }
    }

    /// Sets the headers that go with every request.
    pub fn headers(self, headers: HeaderMap) -> (r: Self)
        ensures
            r@ == (Settings { headers: header_entries(headers), ..self@ }),
    {
        proof {
            use_type_invariant(&self);
        }
        OpenAiLlmBuilder {
            api_key: self.api_key,
            base_url: self.base_url,
            model: self.model,
            headers,
        }
    }

    /// Builds the client. It has no tools of its own yet.
    pub fn build(self) -> (r: OpenAiLlm)
        ensures
            r@ == (LlmState { settings: self@, tools: Seq::empty() }),
    {
        proof {
            use_type_invariant(&self);
        }
        let tools: Vec<Tool> = Vec::new();
        assert(tool_models(tools@) =~= Seq::<ToolModel>::empty());
        OpenAiLlm {
            api_key: self.api_key,
            base_url: self.base_url,
            model: self.model,
            headers: self.headers,
            tools,
        }
    }
}

impl Clone for OpenAiLlmBuilder {
    fn clone(&self) -> (r: Self)
        ensures
            r@ == self@,
    {
        proof {
            use_type_invariant(self);
        }
        OpenAiLlmBuilder {
            api_key: self.api_key.clone(),
            base_url: self.base_url.clone(),
            model: self.model.clone(),
            headers: clone_headers(&self.headers),
        }
    }
}

/// A streaming chat-completions client, without the connection that it sends its requests over.
#[derive(Debug)]
pub struct OpenAiLlm {
    api_key: String,
    base_url: String,
    model: String,
    headers: HeaderMap,
    tools: Vec<Tool>,
}

/// The settings of a client and the tools of its own.
pub struct LlmState {
    pub settings: Settings,
    pub tools: Seq<ToolModel>,
}

impl View for OpenAiLlm {
    type V = LlmState;

    closed spec fn view(&self) -> LlmState {
        LlmState {
            settings: Settings {
                api_key: self.api_key@,
                base_url: self.base_url@,
                model: self.model@,
                headers: header_entries(self.headers),
            },
            tools: tool_models(self.tools@),
        }
    }
}

impl OpenAiLlm {
    #[verifier::type_invariant]
    spec fn base_is_base(self) -> bool {
        is_base(self.base_url@)
    }

    /// A client with `api_key`, OpenAI's base and the model `gpt-4o`. [`OpenAiLlmBuilder`] makes
    /// others.
    pub fn new(api_key: impl Into<String>) -> (r: Self)
        ensures
            converts_to(api_key, r@.settings.api_key),
            r@.settings.base_url == OPENAI_API_BASE@,
            r@.settings.base_url == "https://api.openai.com/v1"@,
            r@.settings.model == "gpt-4o"@,
            r@.settings.headers == no_headers(),
            r@.tools == Seq::<ToolModel>::empty(),
    {
        OpenAiLlmBuilder::new(api_key).build()
    }

    /// The name of the service.
    pub fn name(&self) -> (r: &'static str)
        ensures
            r@ == "openai"@,
    {
        "openai"
    }

    /// Gives the client the tools that it offers where a context declares none.
    pub fn set_tools(&mut self, tools: Vec<Tool>)
        ensures
            final(self)@ == (LlmState { tools: tool_models(tools@), ..old(self)@ }),
    {
        proof {
            use_type_invariant(&*self);
        }
        self.tools = tools;
    }

    /// The body of the request for `ctx`.
    pub fn request_body(&self, ctx: &LlmContext) -> (r: Json)
        ensures
            r@ == body_model(
                self@.settings.model,
                json_models(ctx.messages@),
                request_tools(json_models(ctx.tools@), self@.tools),
            ),
    {
        chat_body(self.model.as_str(), ctx, &self.tools)
    }

    /// Where requests go: the base, then `/chat/completions`.
    pub fn endpoint(&self) -> (r: String)
        ensures
            r@ == self@.settings.base_url + "/chat/completions"@,
            is_base(self@.settings.base_url),
            self@.settings.base_url.len() > 0 ==> self@.settings.base_url.last() != '/',
    {
        proof {
            use_type_invariant(self);
        }
        self.base_url.clone().concat("/chat/completions")
    }

    /// The API key.
    pub fn api_key(&self) -> (r: &str)
        ensures
            r@ == self@.settings.api_key,
    {
        self.api_key.as_str()
    }

    /// The API base.
    pub fn base_url(&self) -> (r: &str)
        ensures
            r@ == self@.settings.base_url,
    {
        self.base_url.as_str()
    }

    /// The model.
    pub fn model(&self) -> (r: &str)
        ensures
            r@ == self@.settings.model,
    {
        self.model.as_str()
    }

    /// The headers that go with every request.
    pub fn headers(&self) -> (r: &HeaderMap)
        ensures
            header_entries(*r) == self@.settings.headers,
    {
        &self.headers
    }
}

/// The error of a request that could not be sent, for the reason `reason`.
pub fn send_error(reason: &str) -> (r: FlowcatError)
    ensures
        r matches FlowcatError::Network(message) && message@ == "openai send: "@ + reason@,
{
    FlowcatError::Network("openai send: ".to_owned().concat(reason))
}

/// The error of a request that was refused with the status that prints as `status`, and with the
/// text `text`.
pub fn refusal(status: &str, text: &str) -> (r: FlowcatError)
    ensures
        r matches FlowcatError::Network(message) && message@ == "openai "@ + status@ + ": "@
            + text@,
{
    FlowcatError::Network("openai ".to_owned().concat(status).concat(": ").concat(text))
}

/// The error of a request that was refused with the status code `code` and with the text `text`.
pub fn status_error(code: u16, text: &str) -> (r: FlowcatError)
    requires
        100 <= code <= 999,
    ensures
        r matches FlowcatError::Network(message) && message@ == "openai "@ + status_text(code)
            + ": "@ + text@,
{
    let status = print_status(code);
    refusal(status.as_str(), text)
}

/// Whether a request that was answered with the status code `code` succeeded; where it did not,
/// the error that reports the status and the answer's text `text`.
pub fn check_status(code: u16, text: &str) -> (r: Result<(), FlowcatError>)
    requires
        100 <= code <= 999,
    ensures
        match r {
            Ok(_) => 200 <= code < 300,
            Err(e) => !(200 <= code < 300) && (e matches FlowcatError::Network(message) && message@
                == "openai "@ + status_text(code) + ": "@ + text@),
        },
{
    if is_success(code) {
        Ok(())
    } else {
        Err(status_error(code, text))
    }
}

} // verus!

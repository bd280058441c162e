# flowcat_services

Streaming chat completions for OpenAI, OpenRouter, Perplexity and other OpenAI-compatible gateways,
verified with [Verus](https://github.com/verus-lang/verus).

- `src/` is the library: what a request carries, how the server-sent events of the answer are read,
  and which frames report it. Every function states in its contract what it returns.
- `app/` sends the requests with `reqwest` and runs the library's state over the bytes that arrive.
- `tests/` runs the library on concrete requests and answers.

An answer is a text of lines. `data: {json}` carries a chunk, `data: [DONE]` ends the answer. Its
frames are

    LlmResponseStart  LlmText*  FunctionCallsStarted?  Metrics?  LlmResponseEnd

whatever the server sends and wherever the text is cut on its way (`src/stream.rs`). Bytes are
decoded piece by piece, so a character that is cut in two becomes replacement characters.

What is believed without proof stands in `src/parse.rs` (what `serde_json` reads in a text),
`src/http.rs` (what a header map of `reqwest` holds, how a status code prints) and at the end of
`src/text.rs` (lossy UTF-8 decoding and string conversion of the standard library).

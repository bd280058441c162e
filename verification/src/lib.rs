//! Streaming chat completions for OpenAI and OpenAI-compatible gateways.
//!
//! [`openai`] and [`perplexity`] hold the clients: what a request carries and where it goes.
//! [`request`] builds its body. [`sse`] takes the answer in, piece by piece, and hands out the
//! [`frame`]s that report it; [`chunk`] and [`calls`] read the single chunks and put the function
//! calls together. [`stream`] says what the frames of a whole answer are.
//!
//! [`json`] holds JSON values, [`text`] works on strings. What `serde_json` reads and what
//! `reqwest` holds is reached through [`parse`] and [`http`].

pub mod calls;
pub mod chunk;
pub mod frame;
pub mod http;
pub mod json;
pub mod openai;
pub mod parse;
pub mod perplexity;
pub mod request;
pub mod sse;
pub mod stream;
pub mod text;

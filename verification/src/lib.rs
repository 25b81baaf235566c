//! A client for any server that implements the OpenAI `/v1/chat/completions` format: it turns
//! Anthropic-style requests into that format, and the chunks of a streamed answer into
//! Anthropic-style events.
pub mod client;
pub mod json;
pub mod laws;
pub mod messages;
pub mod outside;
pub mod session;
pub mod stream;
pub mod text;
pub mod types;
pub mod wire;

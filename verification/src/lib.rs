//! A protocol-translation gateway library: it reframes a Server-Sent-Events
//! (SSE) byte stream from an OpenAI-compatible chat-completion endpoint into
//! Ollama's newline-delimited-JSON (NDJSON) streaming format.
//!
//! The streaming core is the chain frame reassembly -> event decoding ->
//! response encoding, driven by the per-request stream orchestrator; around
//! it stand the model configuration, the service-level decisions, and the
//! static model-listing bodies.

pub mod config;
pub mod decode;
pub mod define;
pub mod encode;
pub mod frame;
pub mod model;
pub mod orchestrate;
pub mod service;
pub mod text;

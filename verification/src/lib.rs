//! Protocol-translation core for a streaming chat proxy: it rewrites
//! client-dialect requests into the Gemini `streamGenerateContent` dialect,
//! re-assembles the upstream's concatenated-JSON reply from arbitrarily
//! fragmented byte chunks, and lifts it into a client-style SSE event stream.

pub mod json;
pub mod text;
pub mod claude;
pub mod gemini;
pub mod chunk;
pub mod error;
pub mod jsontext;
pub mod parser;
pub mod state;
pub mod cache;
pub mod metrics;
pub mod config;
pub mod validation;
pub mod tools;
pub mod request;
pub mod sse;
pub mod content;

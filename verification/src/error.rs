//! Error kinds of the translation core.

use vstd::prelude::*;

verus! {

/// What went wrong, with a human-readable reason.
#[derive(Debug)]
pub enum ProxyError {
    InvalidClaudeRequest(String),
    InvalidGeminiResponse(String),
    TransformationError(String),
    ConfigError(String),
    InternalError(String),
    UpstreamError(String),
}

impl ProxyError {
    /// The reason carried by the error.
    pub fn message(&self) -> (r: &str)
        ensures
            r@ == self.spec_message(),
    {
        match self {
            ProxyError::InvalidClaudeRequest(m) => m.as_str(),
            ProxyError::InvalidGeminiResponse(m) => m.as_str(),
            ProxyError::TransformationError(m) => m.as_str(),
            ProxyError::ConfigError(m) => m.as_str(),
            ProxyError::InternalError(m) => m.as_str(),
            ProxyError::UpstreamError(m) => m.as_str(),
        }
    }

    /// The reason carried by the error.
    pub open spec fn spec_message(&self) -> Seq<char> {
        match self {
            ProxyError::InvalidClaudeRequest(m) => m@,
            ProxyError::InvalidGeminiResponse(m) => m@,
            ProxyError::TransformationError(m) => m@,
            ProxyError::ConfigError(m) => m@,
            ProxyError::InternalError(m) => m@,
            ProxyError::UpstreamError(m) => m@,
        }
    }
}

pub type Result<T> = core::result::Result<T, ProxyError>;

} // verus!

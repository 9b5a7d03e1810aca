//! Configuration records and their validation. Loading them from the
//! process environment is the embedding program's concern.

use crate::error::ProxyError;
use vstd::prelude::*;

verus! {

/// Where the proxy listens and with how many workers.
pub struct ServerConfig {
    pub listen_addr: String,
    pub workers: usize,
}

/// Settings for the transforming upstream.
pub struct GeminiConfig {
    pub api_key: String,
    pub endpoint: String,
    pub default_model: Option<String>,
    pub auto_todo_prompt: bool,
}

/// Settings for the pass-through upstream.
pub struct KimiConfig {
    pub api_key: String,
    pub endpoint: String,
    pub model: String,
}

/// Which upstream the proxy talks to.
pub enum ProviderConfig {
    Gemini(GeminiConfig),
    Kimi(KimiConfig),
}

/// The whole proxy configuration.
pub struct ProxyConfig {
    pub server: ServerConfig,
    pub provider: ProviderConfig,
}

/// What a valid configuration requires: non-empty key, endpoint and model
/// strings, and at least one worker.
pub open spec fn spec_config_valid(c: ProxyConfig) -> bool {
    &&& c.server.workers > 0
    &&& match c.provider {
        ProviderConfig::Gemini(g) => g.api_key@.len() > 0 && g.endpoint@.len() > 0,
        ProviderConfig::Kimi(k) => k.api_key@.len() > 0 && k.endpoint@.len() > 0
            && k.model@.len() > 0,
    }
}

impl ProxyConfig {
    /// Accepts exactly the configurations that [`spec_config_valid`]
    /// admits, and reports the first violation otherwise.
    pub fn validate(&self) -> (r: Result<(), ProxyError>)
        ensures
            r is Ok <==> spec_config_valid(*self),
            r matches Err(e) ==> e is ConfigError,
    {
        match &self.provider {
            ProviderConfig::Gemini(config) => {
                if config.api_key.as_str().unicode_len() == 0 {
                    return Err(ProxyError::ConfigError(String::from_str("API key is empty")));
                }
                if config.endpoint.as_str().unicode_len() == 0 {
                    return Err(ProxyError::ConfigError(String::from_str("Endpoint is empty")));
                }
            },
            ProviderConfig::Kimi(config) => {
                if config.api_key.as_str().unicode_len() == 0 {
                    return Err(ProxyError::ConfigError(String::from_str("API key is empty")));
                }
                if config.endpoint.as_str().unicode_len() == 0 {
                    return Err(ProxyError::ConfigError(String::from_str("Endpoint is empty")));
                }
                if config.model.as_str().unicode_len() == 0 {
                    return Err(ProxyError::ConfigError(String::from_str("Model is empty")));
                }
            },
        }
        if self.server.workers == 0 {
            return Err(ProxyError::ConfigError(String::from_str(
                "Workers must be greater than 0",
            )));
        }
        Ok(())
    }
}

} // verus!

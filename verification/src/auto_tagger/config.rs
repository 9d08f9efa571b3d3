//! Configuration for the auto-tagging feature.

use vstd::prelude::*;

use crate::text;

verus! {

/// Configuration for the auto-tagging feature.
#[derive(Debug, Clone)]
pub struct AutoTagConfig {
    /// Whether auto-tagging is enabled.
    pub enabled: bool,
    /// Provider name (e.g., "deepseek").
    pub provider: String,
    /// Model name (e.g., "deepseek-chat").
    pub model: String,
    /// API endpoint URL.
    pub endpoint: String,
    /// Environment variable name for the API key.
    pub api_key_env: String,
    /// Maximum number of retries for failed API calls.
    pub max_retries: u32,
    /// Request timeout in seconds.
    pub request_timeout_secs: u64,
    /// Maximum tags per document.
    pub max_tags_per_doc: usize,
    /// Maximum words of document text sent to the API (about one page).
    pub max_text_words: usize,
    /// Whether to enable the model's thinking (chain-of-thought) mode. Tag
    /// extraction does not need reasoning, so the default is false.
    pub thinking_enabled: bool,
    /// Output token budget. Generous headroom only matters when thinking is
    /// enabled; without it the output is just the tag JSON.
    pub max_tokens: usize,
}

/// The provider that is used where none is named.
pub fn default_provider() -> (r: String)
    ensures
        r@ == "deepseek"@,
{
    text::copy_str("deepseek")
}

/// The model that is used where none is named.
pub fn default_model() -> (r: String)
    ensures
        r@ == "deepseek-v4-flash"@,
{
    text::copy_str("deepseek-v4-flash")
}

/// The endpoint that is used where none is named.
pub fn default_endpoint() -> (r: String)
    ensures
        r@ == "https://api.deepseek.com/v1/chat/completions"@,
{
    text::copy_str("https://api.deepseek.com/v1/chat/completions")
}

/// The environment variable that is read where none is named.
pub fn default_api_key_env() -> (r: String)
    ensures
        r@ == "DEEPSEEK_API_KEY"@,
{
    text::copy_str("DEEPSEEK_API_KEY")
}

/// How often a call is tried where nothing else is said.
pub fn default_max_retries() -> (r: u32)
    ensures
        r == 3,
{
    3
}

/// The request timeout in seconds where nothing else is said. Generation on a
/// loaded origin regularly takes 30 to 60 seconds, and a reasoning model with a
/// large token budget can take minutes.
pub fn default_request_timeout() -> (r: u64)
    ensures
        r == 240,
{
    240
}

/// The number of tags per document where nothing else is said.
pub fn default_max_tags() -> (r: usize)
    ensures
        r == 5,
{
    5
}

/// The output token budget where nothing else is said.
pub fn default_max_tokens() -> (r: usize)
    ensures
        r == 24000,
{
    24000
}

/// The number of words sent where nothing else is said: about one page of a
/// typical letter, enough to understand the topic and small enough to keep
/// calls fast and cheap.
pub fn default_max_text_words() -> (r: usize)
    ensures
        r == 500,
{
    500
}

impl Default for AutoTagConfig {
    fn default() -> (r: Self)
        ensures
            !r.enabled,
            r.provider@ == "deepseek"@,
            r.model@ == "deepseek-v4-flash"@,
            r.endpoint@ == "https://api.deepseek.com/v1/chat/completions"@,
            r.api_key_env@ == "DEEPSEEK_API_KEY"@,
            r.max_retries == 3,
            r.request_timeout_secs == 240,
            r.max_tags_per_doc == 5,
            r.max_text_words == 500,
            !r.thinking_enabled,
            r.max_tokens == 24000,
    {
        AutoTagConfig {
            enabled: false,
            provider: default_provider(),
            model: default_model(),
            endpoint: default_endpoint(),
            api_key_env: default_api_key_env(),
            max_retries: default_max_retries(),
            request_timeout_secs: default_request_timeout(),
            max_tags_per_doc: default_max_tags(),
            max_text_words: default_max_text_words(),
            thinking_enabled: false,
            max_tokens: default_max_tokens(),
        }
    }
}

} // verus!

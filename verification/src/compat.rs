//! Per-provider quirks of OpenAI-compatible endpoints.
use vstd::prelude::*;

verus! {

/// What a provider's OpenAI-compatible endpoint does differently.
#[derive(Debug, Clone, Copy, PartialEq, Eq)]
pub struct ProviderCompat {
    /// The endpoint streams thinking text in `reasoning_content`.
    pub has_reasoning_content: bool,
    /// Tool calls may come back as plain text.
    pub tool_calls_as_text: bool,
    /// Streaming requests carry `stream_options.include_usage` so that the
    /// last chunk reports token usage.
    pub supports_stream_usage: bool,
}

impl Default for ProviderCompat {
    /// The default keeps stream usage on, like [`ProviderCompat::standard`].
    fn default() -> (c: Self)
        ensures
            !c.has_reasoning_content,
            !c.tool_calls_as_text,
            c.supports_stream_usage,
    {
        ProviderCompat {
            has_reasoning_content: false,
            tool_calls_as_text: false,
            supports_stream_usage: true,
        }
    }
}

impl ProviderCompat {
    /// DeepSeek: thinking text in `reasoning_content`; stream usage supported.
    pub fn deepseek() -> (c: Self)
        ensures
            c.has_reasoning_content,
            !c.tool_calls_as_text,
            c.supports_stream_usage,
    {
        ProviderCompat {
            has_reasoning_content: true,
            tool_calls_as_text: false,
            supports_stream_usage: true,
        }
    }

    /// MiniMax: tool calls may come back as text; stream usage kept off.
    pub fn minimax() -> (c: Self)
        ensures
            !c.has_reasoning_content,
            c.tool_calls_as_text,
            !c.supports_stream_usage,
    {
        ProviderCompat {
            has_reasoning_content: false,
            tool_calls_as_text: true,
            supports_stream_usage: false,
        }
    }

    /// A standard or unknown endpoint: stream usage on, no other quirk.
    pub fn standard() -> (c: Self)
        ensures
            !c.has_reasoning_content,
            !c.tool_calls_as_text,
            c.supports_stream_usage,
    {
        ProviderCompat {
            has_reasoning_content: false,
            tool_calls_as_text: false,
            supports_stream_usage: true,
        }
    }
}

} // verus!

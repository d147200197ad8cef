//! Conversation data shared by the model adapter, the agent and the UI:
//! messages, content blocks, token usage and the events a model streams out.
use vstd::prelude::*;

verus! {

/// Who wrote a message.
#[derive(Debug, Clone, Copy, PartialEq, Eq)]
pub enum Role {
    User,
    Assistant,
    System,
}

/// Identifier the model gives a tool call.
#[derive(Debug, Clone)]
pub struct ToolCallId(pub String);

/// One piece of a message. Tool-call arguments are held as JSON text
/// (`null` when there are none).
#[derive(Debug, Clone)]
pub enum ContentBlock {
    Text { text: String },
    ToolUse { id: ToolCallId, name: String, arguments: String },
    ToolResult { tool_call_id: ToolCallId, content: String, is_error: bool },
}

/// What a content block holds, as character sequences.
pub ghost enum BlockView {
    Text { text: Seq<char> },
    ToolUse { id: Seq<char>, name: Seq<char>, arguments: Seq<char> },
    ToolResult { tool_call_id: Seq<char>, content: Seq<char>, is_error: bool },
}

impl View for ContentBlock {
    type V = BlockView;

    open spec fn view(&self) -> BlockView {
        match self {
            ContentBlock::Text { text } => BlockView::Text { text: text@ },
            ContentBlock::ToolUse { id, name, arguments } => BlockView::ToolUse {
                id: id.0@,
                name: name@,
                arguments: arguments@,
            },
            ContentBlock::ToolResult { tool_call_id, content, is_error } => BlockView::ToolResult {
                tool_call_id: tool_call_id.0@,
                content: content@,
                is_error: *is_error,
            },
        }
    }
}

/// The blocks of a vector of content blocks, viewed.
pub open spec fn blocks_view(v: Seq<ContentBlock>) -> Seq<BlockView> {
    v.map_values(|b: ContentBlock| b@)
}

/// A conversation message.
#[derive(Debug, Clone)]
pub struct Message {
    pub role: Role,
    pub content: Vec<ContentBlock>,
}

/// Token counts of one model response.
#[derive(Debug, Clone, Copy, PartialEq, Eq)]
pub struct Usage {
    pub input_tokens: u32,
    pub output_tokens: u32,
}

impl Usage {
    /// Zero usage (what `Usage::default()` gives).
    pub fn zero() -> (u: Usage)
        ensures
            u.input_tokens == 0,
            u.output_tokens == 0,
    {
        Usage { input_tokens: 0, output_tokens: 0 }
    }
}

/// Incremental output a model streams while it answers.
#[derive(Debug, Clone)]
pub enum ModelEvent {
    TextDelta { text: String },
    ThinkingDelta { text: String },
}

/// The text that a sequence of model events streams as answer text:
/// the `TextDelta` texts, concatenated in order.
pub open spec fn delta_text(evs: Seq<ModelEvent>) -> Seq<char>
    decreases evs.len(),
{
    if evs.len() == 0 {
        Seq::empty()
    } else {
        delta_text(evs.drop_last()) + match evs.last() {
            ModelEvent::TextDelta { text } => text@,
            ModelEvent::ThinkingDelta { .. } => Seq::empty(),
        }
    }
}

/// The thinking text that a sequence of model events streams.
pub open spec fn thinking_text(evs: Seq<ModelEvent>) -> Seq<char>
    decreases evs.len(),
{
    if evs.len() == 0 {
        Seq::empty()
    } else {
        thinking_text(evs.drop_last()) + match evs.last() {
            ModelEvent::ThinkingDelta { text } => text@,
            ModelEvent::TextDelta { .. } => Seq::empty(),
        }
    }
}

/// A complete model response.
#[derive(Debug, Clone)]
pub struct ModelResponse {
    pub message: Message,
    pub usage: Usage,
    pub stop_reason: Option<String>,
}

/// Failure of a model call.
#[derive(Debug, Clone)]
pub enum ModelError {
    Provider(String),
}

/// What a tool call produced.
#[derive(Debug, Clone)]
pub struct ToolResult {
    pub content: String,
    pub is_error: bool,
}

/// Why a tool call failed.
#[derive(Debug, Clone)]
pub enum ToolError {
    /// The arguments were not what the tool takes.
    InvalidInput(String),
    /// The tool ran and failed.
    Execution(String),
    /// The tool ran out of time.
    Timeout(String),
}

/// A tool as offered to the model: name, description and JSON-schema text.
#[derive(Debug, Clone)]
pub struct ToolSpec {
    pub name: String,
    pub description: String,
    pub parameters: String,
}

} // verus!

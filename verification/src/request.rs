//! Translation of the agent's model request into an OpenAI chat-completion
//! request.
use vstd::prelude::*;

use crate::compat::ProviderCompat;
use crate::model::{BlockView, ContentBlock, Message, ModelError, Role, ToolSpec};
use crate::provider::{trim_slashes, trimmed_base};
use crate::text::{owned, push_str, string_of};
use vstd::string::StringExecFns;

verus! {

/// What the agent asks the model: history, tools, optional system prompt and
/// token limit.
#[derive(Debug, Clone)]
pub struct ModelRequest {
    pub messages: Vec<Message>,
    pub tools: Vec<ToolSpec>,
    pub system: Option<String>,
    pub max_tokens: Option<u32>,
}

/// The function part of a tool call in an assistant message.
#[derive(Debug, Clone)]
pub struct ChatFunctionCall {
    pub name: String,
    pub arguments: String,
}

/// A tool call in an assistant message.
#[derive(Debug, Clone)]
pub struct ChatToolCall {
    pub id: String,
    pub call_type: String,
    pub function: ChatFunctionCall,
}

/// One message of a chat-completion request.
#[derive(Debug, Clone)]
pub struct ChatMessage {
    pub role: String,
    pub content: Option<String>,
    pub tool_calls: Option<Vec<ChatToolCall>>,
    pub tool_call_id: Option<String>,
    pub name: Option<String>,
}

/// A tool offered in a chat-completion request.
#[derive(Debug, Clone)]
pub struct ChatFunction {
    pub name: String,
    pub description: String,
    pub parameters: String,
}

#[derive(Debug, Clone)]
pub struct ChatTool {
    pub tool_type: String,
    pub function: ChatFunction,
}

/// `stream_options` of a streaming request.
#[derive(Debug, Clone, Copy)]
pub struct StreamOptions {
    pub include_usage: bool,
}

/// A chat-completion request (sampling temperature aside).
#[derive(Debug, Clone)]
pub struct ChatCompletionRequest {
    pub model: String,
    pub messages: Vec<ChatMessage>,
    pub tools: Option<Vec<ChatTool>>,
    pub stream: Option<bool>,
    pub stream_options: Option<StreamOptions>,
    pub max_tokens: Option<u32>,
}

/// A tool call of a chat message, as character sequences.
pub ghost struct CallView {
    pub id: Seq<char>,
    pub call_type: Seq<char>,
    pub name: Seq<char>,
    pub arguments: Seq<char>,
}

/// A chat message, as character sequences.
pub ghost struct ChatMessageView {
    pub role: Seq<char>,
    pub content: Option<Seq<char>>,
    pub tool_calls: Option<Seq<CallView>>,
    pub tool_call_id: Option<Seq<char>>,
    pub name: Option<Seq<char>>,
}

impl View for ChatToolCall {
    type V = CallView;

    open spec fn view(&self) -> CallView {
        CallView {
            id: self.id@,
            call_type: self.call_type@,
            name: self.function.name@,
            arguments: self.function.arguments@,
        }
    }
}

impl View for ChatMessage {
    type V = ChatMessageView;

    open spec fn view(&self) -> ChatMessageView {
        ChatMessageView {
            role: self.role@,
            content: self.content.deep_view(),
            tool_calls: match self.tool_calls {
                Some(v) => Some(v@.map_values(|c: ChatToolCall| c@)),
                None => None,
            },
            tool_call_id: self.tool_call_id.deep_view(),
            name: self.name.deep_view(),
        }
    }
}

/// A tool entry, as character sequences: (type, name, description, parameters).
pub open spec fn tool_view(t: ChatTool) -> (Seq<char>, Seq<char>, Seq<char>, Seq<char>) {
    (t.tool_type@, t.function.name@, t.function.description@, t.function.parameters@)
}

/// The wire name of a role.
pub open spec fn role_name(r: Role) -> Seq<char> {
    match r {
        Role::User => "user"@,
        Role::Assistant => "assistant"@,
        Role::System => "system"@,
    }
}

/// The text blocks of a message, concatenated.
pub open spec fn text_of(b: Seq<BlockView>) -> Seq<char>
    decreases b.len(),
{
    if b.len() == 0 {
        Seq::empty()
    } else {
        text_of(b.drop_last()) + match b.last() {
            BlockView::Text { text } => text,
            _ => Seq::empty(),
        }
    }
}

/// The tool calls of a message, in order.
pub open spec fn calls_of(b: Seq<BlockView>) -> Seq<CallView>
    decreases b.len(),
{
    if b.len() == 0 {
        Seq::empty()
    } else {
        calls_of(b.drop_last()) + match b.last() {
            BlockView::ToolUse { id, name, arguments } => seq![
                CallView { id, call_type: "function"@, name, arguments },
            ],
            _ => Seq::empty(),
        }
    }
}

/// The `tool` messages the tool results of a message become, in order.
pub open spec fn tool_messages(b: Seq<BlockView>) -> Seq<ChatMessageView>
    decreases b.len(),
{
    if b.len() == 0 {
        Seq::empty()
    } else {
        tool_messages(b.drop_last()) + match b.last() {
            BlockView::ToolResult { tool_call_id, content, is_error } => seq![
                ChatMessageView {
                    role: "tool"@,
                    content: Some(
                        if is_error {
                            "[ERROR] "@ + content
                        } else {
                            content
                        },
                    ),
                    tool_calls: None,
                    tool_call_id: Some(tool_call_id),
                    name: None,
                },
            ],
            _ => Seq::empty(),
        }
    }
}

/// The chat messages one conversation message becomes: its tool results
/// first, then the message itself when it has text or tool calls.
pub open spec fn message_views(role: Role, b: Seq<BlockView>) -> Seq<ChatMessageView> {
    let text = text_of(b);
    let calls = calls_of(b);
    tool_messages(b) + if text.len() > 0 || calls.len() > 0 {
        seq![
            ChatMessageView {
                role: role_name(role),
                content: if text.len() > 0 {
                    Some(text)
                } else {
                    None
                },
                tool_calls: if calls.len() > 0 {
                    Some(calls)
                } else {
                    None
                },
                tool_call_id: None,
                name: None,
            },
        ]
    } else {
        Seq::empty()
    }
}

/// The chat messages of a whole history, in order.
pub open spec fn history_views(ms: Seq<Message>) -> Seq<ChatMessageView>
    decreases ms.len(),
{
    if ms.len() == 0 {
        Seq::empty()
    } else {
        history_views(ms.drop_last()) + message_views(
            ms.last().role,
            ms.last().content@.map_values(|c: ContentBlock| c@),
        )
    }
}

/// All chat messages of a request: the system prompt first, when there is one.
pub open spec fn request_views(r: ModelRequest) -> Seq<ChatMessageView> {
    (match r.system {
        Some(s) => seq![
            ChatMessageView {
                role: "system"@,
                content: Some(s@),
                tool_calls: None,
                tool_call_id: None,
                name: None,
            },
        ],
        None => Seq::empty(),
    }) + history_views(r.messages@)
}

fn role_string(r: Role) -> (s: String)
    ensures
        s@ == role_name(r),
{
    match r {
        Role::User => owned("user"),
        Role::Assistant => owned("assistant"),
        Role::System => owned("system"),
    }
}

/// The chat messages for one conversation message, appended to `out`.
fn translate_message(msg: &Message, out: &mut Vec<ChatMessage>)
    ensures
        final(out)@.map_values(|m: ChatMessage| m@) == old(out)@.map_values(|m: ChatMessage| m@)
            + message_views(msg.role, msg.content@.map_values(|c: ContentBlock| c@)),
{
    let ghost blocks = msg.content@.map_values(|c: ContentBlock| c@);
    let ghost start = out@.map_values(|m: ChatMessage| m@);
    let mut text = String::new();
    let mut calls: Vec<ChatToolCall> = Vec::new();
    let mut i: usize = 0;
    proof {
        reveal_strlit("tool");
        reveal_strlit("[ERROR] ");
        reveal_strlit("function");
    }
    while i < msg.content.len()
        invariant
            i <= msg.content.len(),
            blocks == msg.content@.map_values(|c: ContentBlock| c@),
            text@ == text_of(blocks.take(i as int)),
            calls@.map_values(|c: ChatToolCall| c@) == calls_of(blocks.take(i as int)),
            out@.map_values(|m: ChatMessage| m@) == start + tool_messages(blocks.take(i as int)),
        decreases msg.content.len() - i,
    {
        let ghost pre = blocks.take(i as int);
        assert(blocks.take(i as int + 1).drop_last() =~= pre);
        assert(blocks.take(i as int + 1).last() == msg.content@[i as int]@);
        let ghost old_calls = calls@;
        let ghost old_out = out@;
        match &msg.content[i] {
            ContentBlock::Text { text: t } => {
                text.append(t.as_str());
                assert(calls@.map_values(|c: ChatToolCall| c@) =~= calls_of(blocks.take(i as int + 1)));
                assert(out@.map_values(|m: ChatMessage| m@) =~= start + tool_messages(blocks.take(i as int + 1)));
            },
            ContentBlock::ToolUse { id, name, arguments } => {
                let call = ChatToolCall {
                    id: id.0.clone(),
                    call_type: owned("function"),
                    function: ChatFunctionCall { name: name.clone(), arguments: arguments.clone() },
                };
                calls.push(call);
                assert(calls@.map_values(|c: ChatToolCall| c@) =~= old_calls.map_values(
                    |c: ChatToolCall| c@,
                ).push(call@));
                assert(out@.map_values(|m: ChatMessage| m@) =~= start + tool_messages(blocks.take(i as int + 1)));
            },
            ContentBlock::ToolResult { tool_call_id, content, is_error } => {
                let body = if *is_error {
                    let mut b = owned("[ERROR] ");
                    b.append(content.as_str());
                    b
                } else {
                    content.clone()
                };
                let m = ChatMessage {
                    role: owned("tool"),
                    content: Some(body),
                    tool_calls: None,
                    tool_call_id: Some(tool_call_id.0.clone()),
                    name: None,
                };
                out.push(m);
                assert(out@.map_values(|m: ChatMessage| m@) =~= old_out.map_values(
                    |m: ChatMessage| m@,
                ).push(m@));
                assert(calls@.map_values(|c: ChatToolCall| c@) =~= calls_of(blocks.take(i as int + 1)));
            },
        }
        i += 1;
    }
    assert(blocks.take(msg.content.len() as int) =~= blocks);
    let has_text = !text.as_str().is_empty();
    let has_calls = calls.len() > 0;
    if has_text || has_calls {
        let ghost before = out@;
        let m = ChatMessage {
            role: role_string(msg.role),
            content: if has_text {
                Some(text)
            } else {
                None
            },
            tool_calls: if has_calls {
                Some(calls)
            } else {
                None
            },
            tool_call_id: None,
            name: None,
        };
        out.push(m);
        assert(out@.map_values(|m: ChatMessage| m@) =~= before.map_values(|m: ChatMessage| m@).push(
            m@,
        ));
    } else {
        assert(out@.map_values(|m: ChatMessage| m@) =~= start + message_views(msg.role, blocks));
    }
}

/// Translates the agent's request into a streaming chat-completion request
/// for `model`. The configured token limit wins over the request's;
/// `stream_options.include_usage` is sent only where the provider supports
/// it.
pub fn translate_request(
    request: &ModelRequest,
    model: &str,
    max_tokens: Option<u32>,
    compat: &ProviderCompat,
) -> (r: ChatCompletionRequest)
    ensures
        r.model@ == model@,
        r.messages@.map_values(|m: ChatMessage| m@) == request_views(*request),
        request.tools@.len() == 0 ==> r.tools is None,
        request.tools@.len() > 0 ==> (r.tools matches Some(ts) && ts@.len() == request.tools@.len()
            && forall|i: int|
            0 <= i < ts@.len() ==> #[trigger] tool_view(ts@[i]) == (
                "function"@,
                request.tools@[i].name@,
                request.tools@[i].description@,
                request.tools@[i].parameters@,
            )),
        r.stream == Some(true),
        compat.supports_stream_usage ==> (r.stream_options matches Some(o) && o.include_usage),
        !compat.supports_stream_usage ==> r.stream_options is None,
        r.max_tokens == (match max_tokens {
            Some(m) => Some(m),
            None => request.max_tokens,
        }),
{
    let mut messages: Vec<ChatMessage> = Vec::new();
    proof {
        reveal_strlit("system");
        reveal_strlit("function");
    }
    match &request.system {
        Some(s) => {
            messages.push(
                ChatMessage {
                    role: owned("system"),
                    content: Some(s.clone()),
                    tool_calls: None,
                    tool_call_id: None,
                    name: None,
                },
            );
        },
        None => {},
    }
    let ghost head = messages@.map_values(|m: ChatMessage| m@);
    let mut i: usize = 0;
    while i < request.messages.len()
        invariant
            i <= request.messages.len(),
            messages@.map_values(|m: ChatMessage| m@) == head + history_views(
                request.messages@.take(i as int),
            ),
        decreases request.messages.len() - i,
    {
        translate_message(&request.messages[i], &mut messages);
        assert(request.messages@.take(i as int + 1).drop_last() =~= request.messages@.take(
            i as int,
        ));
        assert(request.messages@.take(i as int + 1).last() == request.messages@[i as int]);
        i += 1;
    }
    assert(request.messages@.take(request.messages.len() as int) =~= request.messages@);
    let tools = if request.tools.len() == 0 {
        None
    } else {
        let mut ts: Vec<ChatTool> = Vec::new();
        let mut j: usize = 0;
        while j < request.tools.len()
            invariant
                j <= request.tools.len(),
                ts@.len() == j,
                forall|k: int|
                    0 <= k < j ==> #[trigger] tool_view(ts@[k]) == (
                        "function"@,
                        request.tools@[k].name@,
                        request.tools@[k].description@,
                        request.tools@[k].parameters@,
                    ),
            decreases request.tools.len() - j,
        {
            let spec_j = &request.tools[j];
            ts.push(
                ChatTool {
                    tool_type: owned("function"),
                    function: ChatFunction {
                        name: spec_j.name.clone(),
                        description: spec_j.description.clone(),
                        parameters: spec_j.parameters.clone(),
                    },
                },
            );
            j += 1;
        }
        Some(ts)
    };
    let stream_options = if compat.supports_stream_usage {
        Some(StreamOptions { include_usage: true })
    } else {
        None
    };
    let max = match max_tokens {
        Some(m) => Some(m),
        None => request.max_tokens,
    };
    ChatCompletionRequest {
        model: owned(model),
        messages,
        tools,
        stream: Some(true),
        stream_options,
        max_tokens: max,
    }
}

// ---------------------------------------------------------------------------
// How many messages a request has
// ---------------------------------------------------------------------------

/// Number of blocks of a kind: tool results (`results`) or tool uses.
pub open spec fn count_blocks(b: Seq<BlockView>, results: bool) -> nat
    decreases b.len(),
{
    if b.len() == 0 {
        0
    } else {
        count_blocks(b.drop_last(), results) + match b.last() {
            BlockView::ToolResult { .. } => if results {
                1nat
            } else {
                0nat
            },
            BlockView::ToolUse { .. } => if results {
                0nat
            } else {
                1nat
            },
            _ => 0nat,
        }
    }
}

/// Chat messages one conversation message becomes: one per tool result,
/// and one more when it has text or tool calls.
pub open spec fn message_count(b: Seq<BlockView>) -> nat {
    count_blocks(b, true) + if text_of(b).len() > 0 || count_blocks(b, false) > 0 {
        1nat
    } else {
        0nat
    }
}

/// Chat messages a history becomes.
pub open spec fn history_count(ms: Seq<Message>) -> nat
    decreases ms.len(),
{
    if ms.len() == 0 {
        0
    } else {
        history_count(ms.drop_last()) + message_count(ms.last().content@.map_values(|c: ContentBlock| c@))
    }
}

proof fn lemma_block_counts(b: Seq<BlockView>)
    ensures
        tool_messages(b).len() == count_blocks(b, true),
        calls_of(b).len() == count_blocks(b, false),
    decreases b.len(),
{
    if b.len() > 0 {
        lemma_block_counts(b.drop_last());
    }
}

proof fn lemma_history_count(ms: Seq<Message>)
    ensures
        history_views(ms).len() == history_count(ms),
    decreases ms.len(),
{
    if ms.len() > 0 {
        lemma_history_count(ms.drop_last());
        lemma_block_counts(ms.last().content@.map_values(|c: ContentBlock| c@));
    }
}

proof fn lemma_tool_messages_len(b: Seq<BlockView>)
    ensures
        tool_messages(b).len() == count_blocks(b, true),
    decreases b.len(),
{
    if b.len() > 0 {
        lemma_tool_messages_len(b.drop_last());
    }
}

/// The chat message a conversation message's tool result becomes: among
/// the messages it turns into, the one after those of the earlier tool
/// results is a `tool` message answering the result's call, whose content
/// is the result's content, marked `"[ERROR] "` in front exactly when the
/// result is an error.
pub proof fn law_tool_result_message(role: Role, b: Seq<BlockView>, i: int)
    requires
        0 <= i < b.len(),
        b[i] is ToolResult,
    ensures
        ({
            let k = count_blocks(b.take(i), true) as int;
            let ms = message_views(role, b);
            &&& 0 <= k < ms.len()
            &&& ms[k].role == "tool"@
            &&& ms[k].tool_call_id == Some(b[i]->tool_call_id)
            &&& ms[k].tool_calls is None
            &&& b[i]->is_error ==> ms[k].content == Some("[ERROR] "@ + b[i]->content)
            &&& !b[i]->is_error ==> ms[k].content == Some(b[i]->content)
        }),
    decreases b.len(),
{
    let k = count_blocks(b.take(i), true) as int;
    let d = b.drop_last();
    lemma_tool_messages_len(d);
    lemma_tool_messages_len(b);
    if i == b.len() - 1 {
        assert(b.take(i) =~= d);
        assert(tool_messages(b)[k] == tool_messages(b).last());
    } else {
        assert(d.take(i) =~= b.take(i));
        assert(d[i] == b[i]);
        law_tool_result_message(role, d, i);
        lemma_tool_messages_len(d.take(i));
        assert(tool_messages(b)[k] == tool_messages(d)[k]);
    }
    assert(message_views(role, b)[k] == tool_messages(b)[k]);
}

/// A request is sent as a system message when there is a system prompt,
/// then for each conversation message one message per tool result and one
/// more when it has text or tool calls.
pub proof fn law_request_message_count(r: ModelRequest)
    ensures
        request_views(r).len() == (if r.system is Some {
            1nat
        } else {
            0nat
        }) + history_count(r.messages@),
{
    lemma_history_count(r.messages@);
}

// ---------------------------------------------------------------------------
// Sending
// ---------------------------------------------------------------------------

/// The chat-completions endpoint of an API base: the base without its
/// trailing slashes, then `/chat/completions`.
pub open spec fn chat_url(api_base: Seq<char>) -> Seq<char> {
    trim_slashes(api_base) + "/chat/completions"@
}

/// The chat-completions endpoint of an API base (see [`chat_url`]).
pub fn chat_completions_url(api_base: &str) -> (r: String)
    ensures
        r@ == chat_url(api_base@),
{
    let mut v = trimmed_base(api_base);
    push_str(&mut v, "/chat/completions");
    string_of(v.as_slice())
}

/// What to do after the status of a chat-completion response.
#[derive(Debug, Clone, Copy, PartialEq, Eq)]
pub enum ResponseAction {
    /// Read the streamed body.
    Stream,
    /// Send the request again (it no longer asks for stream usage).
    Retry,
    /// The call failed.
    Fail,
}

/// Decides on a response's status. An endpoint that refuses
/// `stream_options` answers 400: a request that carried them is retried
/// once without them (the request is changed for that). Otherwise a status
/// outside 2xx fails the call, and a success is streamed.
pub fn after_status(request: &mut ChatCompletionRequest, status: u16) -> (a: ResponseAction)
    ensures
        if status == 400 && old(request).stream_options is Some {
            a == ResponseAction::Retry && *final(request) == (ChatCompletionRequest {
                stream_options: None,
                ..*old(request)
            })
        } else {
            *final(request) == *old(request) && a == if 200 <= status <= 299 {
                ResponseAction::Stream
            } else {
                ResponseAction::Fail
            }
        },
{
    if status == 400 && request.stream_options.is_some() {
        request.stream_options = None;
        ResponseAction::Retry
    } else if 200 <= status && status <= 299 {
        ResponseAction::Stream
    } else {
        ResponseAction::Fail
    }
}

/// The failure of a response outside 2xx: its status as shown and its body.
pub fn api_error(status_text: &str, body: &str) -> (e: ModelError)
    ensures
        e matches ModelError::Provider(m) && m@ == "API error "@ + status_text@ + ": "@ + body@,
{
    let mut v: Vec<char> = Vec::new();
    push_str(&mut v, "API error ");
    push_str(&mut v, status_text);
    push_str(&mut v, ": ");
    push_str(&mut v, body);
    ModelError::Provider(string_of(v.as_slice()))
}

/// The failure of a request that got no response.
pub fn transport_error(error: &str) -> (e: ModelError)
    ensures
        e matches ModelError::Provider(m) && m@ == "HTTP request failed: "@ + error@,
{
    let mut v: Vec<char> = Vec::new();
    push_str(&mut v, "HTTP request failed: ");
    push_str(&mut v, error);
    ModelError::Provider(string_of(v.as_slice()))
}

/// The warning printed before the retry without `stream_options`.
pub fn usage_fallback_warning(status_text: &str, body: &str) -> (r: String)
    ensures
        r@ == "warning: endpoint rejected `stream_options.include_usage` ("@ + status_text@ + ": "@
            + body@
            + "); retrying once without it \u{2014} token usage for this run will be reported as 0"@,
{
    let mut v: Vec<char> = Vec::new();
    push_str(&mut v, "warning: endpoint rejected `stream_options.include_usage` (");
    push_str(&mut v, status_text);
    push_str(&mut v, ": ");
    push_str(&mut v, body);
    push_str(&mut v, "); retrying once without it \u{2014} token usage for this run will be reported as 0");
    string_of(v.as_slice())
}

} // verus!

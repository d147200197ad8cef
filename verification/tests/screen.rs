use ys_coding_agent::commands::{CommandError, CommandResult};
use ys_coding_agent::compat::ProviderCompat;
use ys_coding_agent::model::{
    ContentBlock, Message, ModelError, ModelEvent, Role, ToolCallId, ToolSpec,
};
use ys_coding_agent::request::{
    after_status, api_error, chat_completions_url, transport_error, translate_request,
    usage_fallback_warning, ModelRequest, ResponseAction,
};
use ys_coding_agent::sse::{chunk_event, classify_line, SseBuffer, SseLine};
use ys_coding_agent::stream::{
    ChatCompletionChunk, ChatUsage, ChunkChoice, ChunkFunction, ChunkToolCall, Delta,
    StreamAccumulator, StreamEvent,
};
use ys_coding_agent::ui::{
    apply_agent_event, begin_input, command_finished, compute_max_scroll, compute_visible,
    finalize_assistant_text, handle_key, key_would_fail, stop_symbol, transcript_to_lines,
    truncate, wrap_plain, AgentUpdate, App, InputAction, KeyCode, KeyInput, StopReason,
    TranscriptLine,
};

fn key(code: KeyCode) -> KeyInput {
    KeyInput { code, ctrl: false }
}

fn make_app() -> App {
    let mut app = App::new();
    app.transcript.push(TranscriptLine::User("hello".into()));
    app.transcript.push(TranscriptLine::Assistant("hi there".into()));
    app.transcript.push(TranscriptLine::Summary {
        rounds: 1,
        stop: StopReason::Completed,
        elapsed: "2.3".into(),
    });
    app
}

fn assistant_texts(app: &App) -> Vec<String> {
    app.transcript
        .iter()
        .filter_map(|l| match l {
            TranscriptLine::Assistant(s) => Some(s.clone()),
            _ => None,
        })
        .collect()
}

fn press(app: &mut App, k: KeyInput) -> bool {
    assert!(!key_would_fail(app, k));
    handle_key(k, app)
}

#[test]
fn test_esc_cancels_running_turn() {
    let mut app = App::new();
    app.is_turning = true;
    assert!(press(&mut app, key(KeyCode::Esc)), "Esc during a turn cancels it");
    assert!(app.cancel_requested);
}

#[test]
fn test_esc_idle_clears_input() {
    let mut app = App::new();
    app.input = "/mo".to_string();
    app.input_cursor = 3;
    assert!(!press(&mut app, key(KeyCode::Esc)), "Esc when idle does not cancel");
    assert_eq!(app.input, "");
    assert_eq!(app.input_cursor, 0);
}

#[test]
fn test_ctrl_c_always_cancels() {
    let mut app = App::new();
    assert!(press(&mut app, KeyInput { code: KeyCode::Char('c'), ctrl: true }));
    assert_eq!(app.input, "");
}

#[test]
fn typing_and_enter_submit_the_line() {
    let mut app = App::new();
    for c in "hé".chars() {
        press(&mut app, key(KeyCode::Char(c)));
    }
    assert_eq!(app.input, "hé");
    assert_eq!(app.input_cursor, 3);
    // The byte before the cursor is inside `é`: Backspace there would fail.
    assert!(key_would_fail(&app, key(KeyCode::Backspace)));
    app.input_cursor = 1;
    press(&mut app, key(KeyCode::Backspace));
    assert_eq!(app.input, "é");
    assert_eq!(app.input_cursor, 0);
    press(&mut app, key(KeyCode::Enter));
    assert_eq!(app.input, "");
    assert_eq!(app.take_submitted(), Some("é".to_string()));
}

#[test]
fn tab_opens_completions_and_enter_takes_one() {
    let mut app = App::new();
    app.input = "/mo".to_string();
    app.input_cursor = 3;
    press(&mut app, key(KeyCode::Tab));
    let c = app.completion.as_ref().expect("completions open");
    assert_eq!(c.items.len(), 1);
    press(&mut app, key(KeyCode::Enter));
    assert!(app.completion.is_none());
    assert_eq!(app.input, "/model ");
    assert_eq!(app.input_cursor, 7);
}

#[test]
fn scrolling_stays_in_range() {
    let mut app = make_app();
    for _ in 0..5 {
        press(&mut app, key(KeyCode::Up));
    }
    assert_eq!(app.scroll_offset, 2);
    assert!(!app.follow);
    press(&mut app, key(KeyCode::PageDown));
    assert_eq!(app.scroll_offset, 0);
    assert!(app.follow);
    assert_eq!(compute_max_scroll(&app), 2);
}

#[test]
fn test_transcript_to_lines_plain_and_wrapped() {
    let mut app = make_app();
    app.transcript.push(TranscriptLine::Assistant("xxxxxxxxxxxxxxxxxxxx".to_string()));
    let lines = transcript_to_lines(&app, 10);
    assert!(lines.contains(&"> hello".to_string()), "user row prefix");
    assert!(lines.contains(&"hi there".to_string()), "assistant row");
    assert!(lines.iter().any(|l| l.contains("1 rounds")), "summary row present");
    assert!(lines.iter().any(|l| l.len() == 10), "long lines wrap to width");
}

#[test]
fn test_error_line_renders() {
    let mut app = make_app();
    app.transcript.push(TranscriptLine::Error("API key rejected (401)".into()));
    let lines = transcript_to_lines(&app, 80);
    assert!(lines.iter().any(|l| l.contains("API key rejected")), "{lines:?}");
}

#[test]
fn test_summary_line_renders_completed_symbol() {
    let lines = transcript_to_lines(&make_app(), 80);
    assert!(lines.iter().any(|l| l.contains('\u{2713}') && l.contains("1 rounds")), "{lines:?}");
}

#[test]
fn test_summary_line_renders_max_rounds_symbol() {
    assert_eq!(stop_symbol(StopReason::MaxRounds), "\u{26a0} MaxRounds");
}

#[test]
fn test_summary_line_renders_cancelled_symbol() {
    assert_eq!(stop_symbol(StopReason::Cancelled), "\u{2717} Cancelled");
}

#[test]
fn wrapping_splits_by_characters() {
    assert_eq!(wrap_plain("abcdef", 4), vec!["abcd".to_string(), "ef".to_string()]);
    assert_eq!(wrap_plain("", 4), vec!["".to_string()]);
    assert_eq!(truncate("abcdef", 3), "ab\u{2026}");
    assert_eq!(truncate("ab", 3), "ab");
}

#[test]
fn visible_window_follows_the_bottom() {
    assert_eq!(compute_visible(0, true, 0), None);
    assert_eq!(compute_visible(5, true, 0), Some((0, 5)));
    assert_eq!(compute_visible(5, false, 9), Some((0, 1)));
    assert_eq!(compute_visible(5, false, 2), Some((0, 3)));
}

#[test]
fn incremental_deltas_append_into_one_assistant_line() {
    let mut app = make_app();
    let mut started = false;
    apply_agent_event(&mut app, &AgentUpdate::TextDelta("Hel".into()), &mut started);
    apply_agent_event(&mut app, &AgentUpdate::TextDelta("lo ".into()), &mut started);
    apply_agent_event(&mut app, &AgentUpdate::Other, &mut started);
    apply_agent_event(&mut app, &AgentUpdate::TextDelta("world".into()), &mut started);
    assert!(started);
    assert_eq!(assistant_texts(&app), vec!["hi there".to_string(), "Hello world".to_string()]);
}

fn text_message(text: &str) -> Message {
    Message { role: Role::Assistant, content: vec![ContentBlock::Text { text: text.to_string() }] }
}

#[test]
fn finalize_does_not_duplicate_streamed_text() {
    let mut app = App::new();
    let mut started = false;
    apply_agent_event(&mut app, &AgentUpdate::TextDelta("Hello world".into()), &mut started);
    finalize_assistant_text(&mut app, Some(&text_message("Hello world")), started);
    assert_eq!(assistant_texts(&app), vec!["Hello world".to_string()]);
}

#[test]
fn finalize_falls_back_when_no_delta_arrived() {
    let mut app = App::new();
    finalize_assistant_text(&mut app, Some(&text_message("fallback text")), false);
    assert_eq!(assistant_texts(&app), vec!["fallback text".to_string()]);
}

#[test]
fn submitted_lines_are_sorted_out() {
    let mut app = App::new();
    assert!(matches!(begin_input(&mut app, "   "), InputAction::Nothing));
    assert!(matches!(begin_input(&mut app, " /help "), InputAction::Command(ref c) if c == "/help"));
    assert!(matches!(begin_input(&mut app, "fix it"), InputAction::Turn(ref c) if c == "fix it"));
    assert!(app.is_turning);
    assert_eq!(app.transcript.len(), 2);
    assert!(matches!(begin_input(&mut app, "quit"), InputAction::Quit));
    assert!(app.should_quit);
}

#[test]
fn command_errors_are_shown() {
    let mut app = App::new();
    assert!(command_finished(&mut app, &Ok(CommandResult::Continue)));
    assert!(!command_finished(&mut app, &Err(CommandError::Internal("io".into()))));
    assert!(matches!(&app.transcript[0], TranscriptLine::Error(m) if m == "internal error: io"));
    assert!(!command_finished(&mut app, &Ok(CommandResult::Exit)));
    assert!(app.should_quit);
}

// ---------------------------------------------------------------------------
// streaming and requests
// ---------------------------------------------------------------------------

fn delta(content: Option<&str>, reasoning: Option<&str>, finish: Option<&str>) -> StreamEvent {
    StreamEvent::Delta {
        content: content.map(String::from),
        reasoning_content: reasoning.map(String::from),
        tool_calls: None,
        finish_reason: finish.map(String::from),
        usage: None,
    }
}

fn texts(events: &[ModelEvent]) -> String {
    events
        .iter()
        .filter_map(|e| match e {
            ModelEvent::TextDelta { text } => Some(text.as_str()),
            _ => None,
        })
        .collect()
}

#[test]
fn streamed_text_deltas_concatenate_to_final_text_byte_for_byte() {
    let mut acc = StreamAccumulator::new(false);
    let mut emitted = Vec::new();
    emitted.extend(acc.handle(delta(Some("Hello, "), None, None)));
    emitted.extend(acc.handle(delta(Some("world"), None, None)));
    emitted.extend(acc.handle(delta(None, None, Some("stop"))));
    emitted.extend(acc.handle(StreamEvent::Done));
    let response = acc.finish().unwrap();
    let final_text = match &response.message.content[0] {
        ContentBlock::Text { text } => text.clone(),
        other => panic!("expected Text block, got {other:?}"),
    };
    assert_eq!(texts(&emitted), "Hello, world");
    assert_eq!(texts(&emitted), final_text);
    assert_eq!(response.stop_reason.as_deref(), Some("stop"));
}

fn call(index: u32, id: Option<&str>, name: Option<&str>, args: Option<&str>) -> ChunkToolCall {
    ChunkToolCall {
        index,
        id: id.map(String::from),
        function: Some(ChunkFunction { name: name.map(String::from), arguments: args.map(String::from) }),
    }
}

#[test]
fn tool_call_deltas_assemble_into_one_tool_use() {
    let mut acc = StreamAccumulator::new(false);
    let mut emitted = Vec::new();
    for c in [
        call(0, Some("call_1"), Some("read_"), Some("{\"pa")),
        call(0, None, Some("file"), Some("th\":\"a.txt\"}")),
    ] {
        emitted.extend(acc.handle(StreamEvent::Delta {
            content: None,
            reasoning_content: None,
            tool_calls: Some(vec![c]),
            finish_reason: None,
            usage: None,
        }));
    }
    emitted.extend(acc.handle(delta(None, None, Some("tool_calls"))));
    let response = acc.finish().unwrap();
    assert_eq!(response.message.content.len(), 1);
    match &response.message.content[0] {
        ContentBlock::ToolUse { id, name, arguments } => {
            assert_eq!(id.0, "call_1");
            assert_eq!(name, "read_file");
            assert_eq!(arguments, "{\"path\":\"a.txt\"}");
        }
        other => panic!("expected ToolUse block, got {other:?}"),
    }
    assert!(emitted.is_empty());
}

#[test]
fn tool_call_with_broken_arguments_gets_null() {
    let mut acc = StreamAccumulator::new(false);
    acc.handle(StreamEvent::Delta {
        content: None,
        reasoning_content: None,
        tool_calls: Some(vec![call(0, Some("c"), Some("bash"), Some("{not json"))]),
        finish_reason: None,
        usage: None,
    });
    let response = acc.finish().unwrap();
    match &response.message.content[0] {
        ContentBlock::ToolUse { arguments, .. } => assert_eq!(arguments, "null"),
        other => panic!("{other:?}"),
    }
}

#[test]
fn thinking_delta_only_emitted_when_compat_enabled() {
    let mut acc = StreamAccumulator::new(true);
    let out = acc.handle(delta(None, Some("hmm"), None));
    assert!(matches!(&out[0], ModelEvent::ThinkingDelta { text } if text == "hmm"), "{out:?}");
    let mut acc = StreamAccumulator::new(false);
    let out = acc.handle(delta(None, Some("hmm"), None));
    assert!(out.is_empty());
}

#[test]
fn streamed_usage_is_captured_from_final_chunk() {
    let mut acc = StreamAccumulator::new(false);
    acc.handle(delta(Some("hi"), None, None));
    acc.handle(delta(None, None, Some("stop")));
    acc.handle(StreamEvent::Delta {
        content: None,
        reasoning_content: None,
        tool_calls: None,
        finish_reason: None,
        usage: Some(ChatUsage { prompt_tokens: 11, completion_tokens: 7, total_tokens: 18 }),
    });
    acc.handle(StreamEvent::Done);
    let response = acc.finish().unwrap();
    assert_eq!(response.usage.input_tokens, 11);
    assert_eq!(response.usage.output_tokens, 7);
}

#[test]
fn streamed_without_usage_defaults_to_zero() {
    let mut acc = StreamAccumulator::new(false);
    acc.handle(delta(Some("hi"), None, None));
    acc.handle(StreamEvent::Done);
    let response = acc.finish().unwrap();
    assert_eq!(response.usage.input_tokens, 0);
    assert_eq!(response.usage.output_tokens, 0);
}

#[test]
fn stream_error_fails_the_call() {
    let mut acc = StreamAccumulator::new(false);
    acc.handle(StreamEvent::Error("bad".into()));
    match acc.finish() {
        Err(ModelError::Provider(m)) => assert_eq!(m, "SSE stream error: bad"),
        other => panic!("{other:?}"),
    }
}

fn request(messages: Vec<Message>, system: Option<&str>) -> ModelRequest {
    ModelRequest { messages, tools: vec![], system: system.map(String::from), max_tokens: None }
}

#[test]
fn test_translate_request_basic() {
    let req = request(
        vec![Message { role: Role::User, content: vec![ContentBlock::Text { text: "hello".into() }] }],
        Some("You are helpful."),
    );
    let chat = translate_request(&req, "deepseek-chat", None, &ProviderCompat::standard());
    assert_eq!(chat.model, "deepseek-chat");
    assert_eq!(chat.messages.len(), 2);
    assert_eq!(chat.messages[0].role, "system");
    assert_eq!(chat.messages[1].role, "user");
    assert!(chat.tools.is_none());
}

#[test]
fn test_translate_tool_result() {
    let req = request(
        vec![Message {
            role: Role::User,
            content: vec![ContentBlock::ToolResult {
                tool_call_id: ToolCallId("call_1".into()),
                content: "file contents".into(),
                is_error: false,
            }],
        }],
        None,
    );
    let chat = translate_request(&req, "test", None, &ProviderCompat::standard());
    assert_eq!(chat.messages[0].role, "tool");
    assert_eq!(chat.messages[0].tool_call_id, Some("call_1".into()));
}

#[test]
fn translate_request_sets_stream_true() {
    let chat = translate_request(&request(vec![], None), "test", None, &ProviderCompat::standard());
    assert_eq!(chat.stream, Some(true));
}

#[test]
fn stream_options_serialized_when_supported() {
    let on = ProviderCompat { supports_stream_usage: true, ..ProviderCompat::standard() };
    let chat = translate_request(&request(vec![], None), "test", None, &on);
    assert!(chat.stream_options.map(|o| o.include_usage).unwrap_or(false));
}

#[test]
fn stream_options_omitted_when_unsupported() {
    let off = ProviderCompat { supports_stream_usage: false, ..ProviderCompat::standard() };
    let chat = translate_request(&request(vec![], None), "test", None, &off);
    assert!(chat.stream_options.is_none());
}

#[test]
fn translated_request_offers_tools_and_token_limit() {
    let mut req = request(vec![], None);
    req.tools.push(ToolSpec {
        name: "read".into(),
        description: "Read a file".into(),
        parameters: "{}".into(),
    });
    req.max_tokens = Some(100);
    let chat = translate_request(&req, "m", Some(50), &ProviderCompat::standard());
    let tools = chat.tools.expect("tools offered");
    assert_eq!(tools.len(), 1);
    assert_eq!(tools[0].function.name, "read");
    assert_eq!(chat.max_tokens, Some(50));
}

#[test]
fn chat_url_drops_trailing_slashes() {
    assert_eq!(chat_completions_url("https://api.deepseek.com/"), "https://api.deepseek.com/chat/completions");
    assert_eq!(chat_completions_url("http://h/v1"), "http://h/v1/chat/completions");
}

#[test]
fn endpoint_rejecting_stream_options_falls_back_once() {
    let on = ProviderCompat { supports_stream_usage: true, ..ProviderCompat::standard() };
    let mut chat = translate_request(&request(vec![], None), "m", None, &on);
    assert_eq!(after_status(&mut chat, 400), ResponseAction::Retry);
    assert!(chat.stream_options.is_none());
    // The retried request no longer carries them: a second 400 fails.
    assert_eq!(after_status(&mut chat, 400), ResponseAction::Fail);
    assert_eq!(after_status(&mut chat, 200), ResponseAction::Stream);
    let w = usage_fallback_warning("400 Bad Request", "nope");
    assert!(w.starts_with("warning: endpoint rejected `stream_options.include_usage` (400 Bad Request: nope)"));
}

#[test]
fn no_fallback_when_request_lacks_stream_options() {
    let off = ProviderCompat { supports_stream_usage: false, ..ProviderCompat::standard() };
    let mut chat = translate_request(&request(vec![], None), "m", None, &off);
    assert_eq!(after_status(&mut chat, 400), ResponseAction::Fail);
    assert_eq!(after_status(&mut chat, 503), ResponseAction::Fail);
}

#[test]
fn model_call_errors() {
    match api_error("500 Internal Server Error", "oops") {
        ModelError::Provider(m) => assert_eq!(m, "API error 500 Internal Server Error: oops"),
    }
    match transport_error("dns") {
        ModelError::Provider(m) => assert_eq!(m, "HTTP request failed: dns"),
    }
}

#[test]
fn sse_lines_span_pieces() {
    let mut b = SseBuffer::new();
    assert!(b.feed(b"data: {\"a\"").is_empty());
    let lines = b.feed(b":1}\r\ndata: [DONE]\npart");
    assert_eq!(lines, vec![b"data: {\"a\":1}\r".to_vec(), b"data: [DONE]".to_vec()]);
    assert_eq!(b.pending, b"part".to_vec());
    assert_eq!(classify_line(&lines[0]), SseLine::Data(b"{\"a\":1}".to_vec()));
    assert_eq!(classify_line(&lines[1]), SseLine::Done);
    assert_eq!(classify_line(b": keep-alive"), SseLine::Other);
    assert_eq!(classify_line(b""), SseLine::Other);
    assert_eq!(classify_line(b"data:x"), SseLine::Data(b"x".to_vec()));
}

#[test]
fn chunk_event_takes_first_choice_and_usage() {
    let chunk = ChatCompletionChunk {
        choices: vec![ChunkChoice {
            index: 0,
            delta: Delta { role: None, content: Some("hi".into()), reasoning_content: None, tool_calls: None },
            finish_reason: Some("stop".into()),
        }],
        usage: None,
    };
    match chunk_event(chunk) {
        StreamEvent::Delta { content, finish_reason, usage, .. } => {
            assert_eq!(content.as_deref(), Some("hi"));
            assert_eq!(finish_reason.as_deref(), Some("stop"));
            assert!(usage.is_none());
        }
        other => panic!("{other:?}"),
    }
    let tail = ChatCompletionChunk {
        choices: vec![],
        usage: Some(ChatUsage { prompt_tokens: 11, completion_tokens: 7, total_tokens: 18 }),
    };
    let mut acc = StreamAccumulator::new(false);
    acc.handle(chunk_event(tail));
    let response = acc.finish().unwrap();
    assert_eq!(response.usage.input_tokens, 11);
    assert_eq!(response.usage.output_tokens, 7);
}

#[test]
fn tool_call_arguments_are_written_back_compactly() {
    let mut acc = StreamAccumulator::new(false);
    acc.handle(StreamEvent::Delta {
        content: None,
        reasoning_content: None,
        tool_calls: Some(vec![call(0, Some("c"), Some("read"), Some("{ \"path\" : \"a.txt\" }"))]),
        finish_reason: None,
        usage: None,
    });
    let response = acc.finish().unwrap();
    match &response.message.content[0] {
        ContentBlock::ToolUse { arguments, .. } => assert_eq!(arguments, "{\"path\":\"a.txt\"}"),
        other => panic!("{other:?}"),
    }
}

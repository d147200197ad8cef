use ys_coding_agent::ansi::{bold, dim, green, red, yellow};
use ys_coding_agent::app_loop::{output_text, turn_failed, AppLoop, LoopAction, LoopEvent, Phase};
use ys_coding_agent::capabilities::{
    compact_lines, export_step, login, login_lines, logout, logout_lines, new_session_lines,
    recover_credentials, set_model, set_model_lines, state_after_logout, ExportAction, ExportEvent,
    LoginOutcome,
};
use ys_coding_agent::channel::{format_stats, format_stats_forced, ChannelStats};
use ys_coding_agent::cli::{
    channel_capacity_from, clamp_capacity, parse_args, parse_usize, Args, Mode,
    DEFAULT_CHANNEL_CAPACITY, MIN_CHANNEL_CAPACITY,
};
use ys_coding_agent::commands::{
    build_cmd_entries, build_registry, builtin_help_entries, CommandError, CommandInfo,
    CommandRegistry, HelpCommand, LoginCommand, ModelCommand,
};
use ys_coding_agent::completer::{CmdCompleter, CmdEntry};
use ys_coding_agent::config::Config;
use ys_coding_agent::format::format_tokens;
use ys_coding_agent::logging::{log, timestamp};
use ys_coding_agent::prompt::{build_system_prompt, ContextFile};
use ys_coding_agent::provider::{
    build_models_url, models_body_unreadable, models_status_outcome, ApiModel, AuthEntry,
    FetchModelsResult, ProviderRegistry,
};
use ys_coding_agent::session::{latest_session_path, new_session_id};
use ys_coding_agent::state::{AppState, StateStore};
use ys_coding_agent::status::TurnStats;
use ys_coding_agent::model::Usage;
use ys_coding_agent::view::{available_models, build_view, is_first_run};

fn s(v: &[&str]) -> Vec<String> {
    v.iter().map(|x| x.to_string()).collect()
}

fn config() -> Config {
    Config::from_env_values(None, None, None, None, None, "/tmp".to_string())
}

// ---------------------------------------------------------------------------
// channel
// ---------------------------------------------------------------------------

#[test]
fn format_stats_all_zero_is_none() {
    let s = ChannelStats { backpressure_waits: 0, buffered: 0, consumer_gone: false };
    assert_eq!(format_stats(&s), None);
}

#[test]
fn format_stats_reports_backpressure_with_numbers() {
    let s = ChannelStats { backpressure_waits: 3, buffered: 0, consumer_gone: false };
    let line = format_stats(&s).expect("reported when there was back-pressure");
    assert_eq!(line, "[channel] backpressure waits: 3, buffered at end: 0");
    assert!(line.contains("backpressure"), "line = {line}");
    assert!(line.contains('3'), "line = {line}");
}

#[test]
fn format_stats_reports_buffered_only() {
    let s = ChannelStats { backpressure_waits: 0, buffered: 2, consumer_gone: false };
    let line = format_stats(&s).expect("reported when events were left");
    assert!(line.contains("buffered at end: 2"), "line = {line}");
}

#[test]
fn format_stats_reports_consumer_gone() {
    let s = ChannelStats { backpressure_waits: 0, buffered: 0, consumer_gone: true };
    let line = format_stats(&s).expect("reported when the consumer left");
    assert!(line.contains("consumer gone"), "line = {line}");
}

#[test]
fn format_stats_forced_always_renders() {
    let s = ChannelStats { backpressure_waits: 0, buffered: 0, consumer_gone: false };
    assert_eq!(format_stats_forced(&s), "[channel] backpressure waits: 0, buffered at end: 0");
}

// ---------------------------------------------------------------------------
// commands
// ---------------------------------------------------------------------------

#[test]
fn test_model_no_args_returns_continue() {
    assert_eq!(ModelCommand.name(), "model");
    assert!(ModelCommand.arg_hint().is_some());
}

#[test]
fn test_help_enhanced_descriptions() {
    let entries = builtin_help_entries();
    let login = entries.iter().find(|e| e.name == "login").unwrap();
    assert!(login.description.contains("interactive picker"), "{}", login.description);
    let model = entries.iter().find(|e| e.name == "model").unwrap();
    assert!(model.description.contains("interactive picker"), "{}", model.description);
    let logout = entries.iter().find(|e| e.name == "logout").unwrap();
    assert!(logout.description.contains("reset"), "{}", logout.description);
    let help = entries.iter().find(|e| e.name == "help").unwrap();
    assert!(help.description.contains("/help <name>"), "{}", help.description);
}

fn info(name: &str, desc: &str) -> CommandInfo {
    CommandInfo { name: name.to_string(), description: desc.to_string(), arg_hint: None }
}

#[test]
fn test_registry_register_and_get() {
    let mut reg = CommandRegistry::new();
    reg.register(info("foo", "Foo command"));
    assert!(reg.get("foo").is_some());
    assert!(reg.get("bar").is_none());
}

#[test]
fn test_registry_all_order() {
    let mut reg = CommandRegistry::new();
    reg.register(info("a", "A"));
    reg.register(info("b", "B"));
    reg.register(info("c", "C"));
    let all = reg.all();
    assert_eq!(all.len(), 3);
    assert_eq!(all[0].name, "a");
    assert_eq!(all[1].name, "b");
    assert_eq!(all[2].name, "c");
}

#[test]
fn test_build_registry_all_commands() {
    let reg = build_registry();
    let names: Vec<&str> = reg.all().iter().map(|c| c.name.as_str()).collect();
    assert_eq!(
        names,
        vec!["help", "login", "logout", "model", "new", "compact", "status", "copy", "export", "quit"]
    );
    assert_eq!(build_cmd_entries().len(), 10);
}

#[test]
fn registry_resolves_command_and_arguments() {
    let reg = build_registry();
    let (cmd, args) = reg.resolve("/model  deepseek-reasoner ").unwrap();
    assert_eq!(cmd.name, "model");
    assert_eq!(args, "deepseek-reasoner");
    match reg.resolve("/nope") {
        Err(CommandError::UserError(m)) => assert!(m.contains("nope"), "{m}"),
        other => panic!("{other:?}"),
    }
    match reg.resolve("hello") {
        Err(CommandError::UserError(m)) => assert_eq!(m, "not a command"),
        other => panic!("{other:?}"),
    }
}

#[test]
fn test_help_unknown_command() {
    match HelpCommand.help_lines("nope") {
        Err(CommandError::UserError(m)) => assert!(m.contains("nope"), "{m}"),
        other => panic!("{other:?}"),
    }
}

#[test]
fn test_help_specific_command() {
    let lines = HelpCommand.help_lines("model").unwrap();
    assert_eq!(lines.len(), 1);
    assert!(lines[0].contains("/model"), "{lines:?}");
}

#[test]
fn test_help_lists_commands() {
    let lines = HelpCommand.help_lines("").unwrap();
    assert!(lines.len() > 10, "{lines:?}");
    assert!(lines.iter().any(|l| l.contains("/quit")), "{lines:?}");
}

#[test]
fn command_error_messages() {
    assert_eq!(CommandError::UserError("x".to_string()).message(), "x");
    assert_eq!(CommandError::Internal("io".to_string()).message(), "internal error: io");
}

// ---------------------------------------------------------------------------
// command line
// ---------------------------------------------------------------------------

#[test]
fn parse_p_single_arg() {
    assert_eq!(
        parse_args(&s(&["-p", "hello"])).unwrap(),
        Args { mode: Mode::Print("hello".into()), stats: false }
    );
}

#[test]
fn parse_json_joins_remaining_args() {
    assert_eq!(
        parse_args(&s(&["--json", "do", "x"])).unwrap(),
        Args { mode: Mode::Json("do x".into()), stats: false }
    );
}

#[test]
fn parse_no_flag_is_interactive() {
    assert_eq!(parse_args(&[]).unwrap(), Args { mode: Mode::Interactive, stats: false });
}

#[test]
fn parse_p_without_task_errors() {
    let err = parse_args(&s(&["-p"])).unwrap_err();
    assert!(err.contains("-p"), "err = {err}");
}

#[test]
fn parse_json_without_task_errors() {
    let err = parse_args(&s(&["--json"])).unwrap_err();
    assert!(err.contains("--json"), "err = {err}");
}

#[test]
fn parse_unknown_flag_errors_but_task_text_is_verbatim() {
    assert!(parse_args(&s(&["--nope"])).is_err());
    assert_eq!(parse_args(&s(&["-p", "--help", "me"])).unwrap().mode, Mode::Print("--help me".into()));
}

#[test]
fn parse_stats_flag_after_mode() {
    assert_eq!(
        parse_args(&s(&["-p", "--stats", "hi"])).unwrap(),
        Args { mode: Mode::Print("hi".into()), stats: true }
    );
    assert_eq!(
        parse_args(&s(&["--json", "--stats", "do", "x"])).unwrap(),
        Args { mode: Mode::Json("do x".into()), stats: true }
    );
}

#[test]
fn parse_stats_after_task_text_is_verbatim() {
    assert_eq!(
        parse_args(&s(&["-p", "hi", "--stats"])).unwrap(),
        Args { mode: Mode::Print("hi --stats".into()), stats: false }
    );
    assert_eq!(
        parse_args(&s(&["-p", "--help", "me"])).unwrap(),
        Args { mode: Mode::Print("--help me".into()), stats: false }
    );
}

#[test]
fn parse_stats_without_task_errors() {
    let err = parse_args(&s(&["-p", "--stats"])).unwrap_err();
    assert!(err.contains("-p"), "err = {err}");
    let err = parse_args(&s(&["--json", "--stats"])).unwrap_err();
    assert!(err.contains("--json"), "err = {err}");
}

#[test]
fn channel_capacity_is_clamped_to_floor() {
    assert_eq!(clamp_capacity(1), MIN_CHANNEL_CAPACITY);
    assert_eq!(clamp_capacity(2), MIN_CHANNEL_CAPACITY);
    assert_eq!(clamp_capacity(MIN_CHANNEL_CAPACITY - 1), MIN_CHANNEL_CAPACITY);
    assert_eq!(clamp_capacity(MIN_CHANNEL_CAPACITY), MIN_CHANNEL_CAPACITY);
    assert_eq!(clamp_capacity(DEFAULT_CHANNEL_CAPACITY), DEFAULT_CHANNEL_CAPACITY);
}

#[test]
fn channel_capacity_from_environment_value() {
    assert_eq!(channel_capacity_from(None), (DEFAULT_CHANNEL_CAPACITY, None));
    assert_eq!(channel_capacity_from(Some("64")), (64, None));
    assert_eq!(channel_capacity_from(Some("abc")).0, DEFAULT_CHANNEL_CAPACITY);
    assert_eq!(channel_capacity_from(Some("0")).0, DEFAULT_CHANNEL_CAPACITY);
    let (cap, warning) = channel_capacity_from(Some("2"));
    assert_eq!(cap, MIN_CHANNEL_CAPACITY);
    assert!(warning.is_some());
}

#[test]
fn parse_usize_reads_decimal_numbers() {
    assert_eq!(parse_usize("1024"), Some(1024));
    assert_eq!(parse_usize(""), None);
    assert_eq!(parse_usize("12a"), None);
    assert_eq!(parse_usize("-1"), None);
}

// ---------------------------------------------------------------------------
// formatting, prompt, status
// ---------------------------------------------------------------------------

#[test]
fn test_format_tokens_boundaries() {
    assert_eq!(format_tokens(0), "0");
    assert_eq!(format_tokens(999), "999");
    assert_eq!(format_tokens(1_000), "1.0k");
    assert_eq!(format_tokens(1_001), "1.0k");
    assert_eq!(format_tokens(9_999), "10.0k");
    assert_eq!(format_tokens(10_000), "10k");
    assert_eq!(format_tokens(99_999), "100k");
    assert_eq!(format_tokens(100_000), "100k");
    assert_eq!(format_tokens(999_999), "1000k");
    assert_eq!(format_tokens(1_000_000), "1.0M");
    assert_eq!(format_tokens(9_999_999), "10.0M");
    assert_eq!(format_tokens(10_000_000), "10M");
}

#[test]
fn format_tokens_rounds_halves_to_even() {
    assert_eq!(format_tokens(1_050), "1.1k");
    assert_eq!(format_tokens(1_250), "1.2k");
    assert_eq!(format_tokens(2_500_000), "2.5M");
    assert_eq!(format_tokens(12_345), "12.3k");
    assert_eq!(format_tokens(99_950), "100k");
}

#[test]
fn test_default_prompt_contains_tools() {
    let prompt = build_system_prompt(None, &[], "/tmp");
    assert!(prompt.contains("read"));
    assert!(prompt.contains("write"));
    assert!(prompt.contains("edit"));
    assert!(prompt.contains("bash"));
    assert!(prompt.contains("coding agent"));
    assert!(prompt.contains("/tmp"));
}

#[test]
fn test_custom_prompt_takes_precedence() {
    let prompt = build_system_prompt(Some("Custom system prompt".to_string()), &[], "/tmp");
    assert!(prompt.starts_with("Custom system prompt"));
}

#[test]
fn prompt_includes_context_files() {
    let files = vec![ContextFile { path: "/p/AGENTS.md".to_string(), content: "Be terse.".to_string() }];
    let prompt = build_system_prompt(None, &files, "/p");
    assert!(prompt.contains("/p/AGENTS.md"));
    assert!(prompt.contains("Be terse."));
}

#[test]
fn test_default_all_zero() {
    let stats = TurnStats::default();
    assert_eq!(stats.total_input_tokens, 0);
    assert_eq!(stats.total_output_tokens, 0);
    assert_eq!(stats.turn_count, 0);
}

#[test]
fn test_record_normal() {
    let mut stats = TurnStats::default();
    stats.record(&Usage { input_tokens: 100, output_tokens: 200 });
    stats.record(&Usage { input_tokens: 50, output_tokens: 75 });
    assert_eq!(stats.total_input_tokens, 150);
    assert_eq!(stats.total_output_tokens, 275);
    assert_eq!(stats.turn_count, 2);
}

#[test]
fn test_record_saturating() {
    let mut stats = TurnStats { total_input_tokens: u32::MAX, ..TurnStats::default() };
    stats.record(&Usage { input_tokens: 100, output_tokens: 200 });
    assert_eq!(stats.total_input_tokens, u32::MAX);
    assert_eq!(stats.total_output_tokens, 200);
}

#[test]
fn test_record_count() {
    let mut stats = TurnStats::default();
    for _ in 0..3 {
        stats.record(&Usage { input_tokens: 1, output_tokens: 1 });
    }
    assert_eq!(stats.turn_count, 3);
    assert_eq!(stats.total_input_tokens, 3);
    assert_eq!(stats.total_output_tokens, 3);
}

// ---------------------------------------------------------------------------
// providers and configuration
// ---------------------------------------------------------------------------

#[test]
fn test_compat_mapping() {
    let reg = ProviderRegistry::new();
    let ds = reg.compat_for("deepseek");
    assert!(ds.has_reasoning_content);
    assert!(!ds.tool_calls_as_text);
    let mm = reg.compat_for("minimax");
    assert!(!mm.has_reasoning_content);
    assert!(mm.tool_calls_as_text);
    let custom = reg.compat_for("custom");
    assert!(!custom.has_reasoning_content);
    assert!(!custom.tool_calls_as_text);
    let unknown = reg.compat_for("nonexistent");
    assert!(!unknown.has_reasoning_content);
    assert!(!unknown.tool_calls_as_text);
}

#[test]
fn test_fetch_models_url() {
    assert_eq!(build_models_url("https://api.deepseek.com"), "https://api.deepseek.com/v1/models");
    assert_eq!(build_models_url("https://api.deepseek.com/v1"), "https://api.deepseek.com/v1/models");
    assert_eq!(build_models_url("https://api.deepseek.com/v1/"), "https://api.deepseek.com/v1/models");
    assert_eq!(build_models_url("https://api.deepseek.com/"), "https://api.deepseek.com/v1/models");
    assert_eq!(
        build_models_url("https://custom.example.com/api"),
        "https://custom.example.com/api/v1/models"
    );
}

#[test]
fn test_known_models_fallback() {
    let models = ProviderRegistry::known_models_static();
    assert_eq!(models.len(), 3);
    assert_eq!(models[0].id, "deepseek-chat");
    assert_eq!(models[0].owned_by.as_deref(), Some("deepseek"));
    assert_eq!(models[1].id, "deepseek-reasoner");
    assert_eq!(models[1].owned_by.as_deref(), Some("deepseek"));
    assert_eq!(models[2].id, "MiniMax-Text-01");
    assert_eq!(models[2].owned_by.as_deref(), Some("minimax"));
}

fn entry(base: &str, key: &str, model: &str) -> AuthEntry {
    AuthEntry { api_base: base.to_string(), api_key: key.to_string(), model: model.to_string() }
}

#[test]
fn test_auth_roundtrip() {
    let mut reg = ProviderRegistry::new();
    let e1 = entry("https://api.deepseek.com", "sk-1", "deepseek-chat");
    let e2 = entry("https://api.minimax.chat", "sk-2", "abab");
    reg.save_auth("deepseek", &e1);
    reg.save_auth("minimax", &e2);
    assert_eq!(reg.auth_for("deepseek"), Some(&e1));
    assert_eq!(reg.auth_for("minimax"), Some(&e2));
    assert_eq!(reg.logged_in_providers(), vec!["deepseek".to_string(), "minimax".to_string()]);
}

#[test]
fn test_auth_remove() {
    let mut reg = ProviderRegistry::new();
    let e1 = entry("b", "k", "m");
    reg.save_auth("deepseek", &e1);
    reg.save_auth("minimax", &e1);
    reg.remove_auth("deepseek");
    assert_eq!(reg.auth_for("deepseek"), None);
    assert_eq!(reg.auth_for("minimax"), Some(&e1));
}

#[test]
fn models_cache_keeps_successful_fetches_only() {
    let mut reg = ProviderRegistry::new();
    let fetched = vec![ApiModel { id: "m1".to_string(), owned_by: None }];
    let got = reg.models_after_fetch("https://x", FetchModelsResult::Success(fetched.clone()));
    assert_eq!(got, fetched);
    assert_eq!(reg.cached_models("https://x"), Some(fetched));
    let fallback = reg.models_after_fetch("https://y", FetchModelsResult::NetworkError("down".to_string()));
    assert_eq!(fallback, ProviderRegistry::known_models_static());
    assert_eq!(reg.cached_models("https://y"), None);
}

#[test]
fn test_config_from_env_no_vars() {
    let config = config();
    assert!(!config.is_configured());
    assert!(config.registry.find_provider("deepseek").is_some());
    assert_eq!(config.model, "deepseek-chat");
}

#[test]
fn config_prefers_yushan_variables() {
    let c = Config::from_env_values(
        Some("https://a".to_string()),
        Some("https://b".to_string()),
        None,
        Some("sk-o".to_string()),
        Some("m".to_string()),
        "/w".to_string(),
    );
    assert_eq!(c.api_base.as_deref(), Some("https://a"));
    assert_eq!(c.api_key.as_deref(), Some("sk-o"));
    assert_eq!(c.model, "m");
    assert!(c.is_configured());
}

#[test]
fn test_config_current_compat() {
    let mut config = config();
    config.provider = Some("deepseek".into());
    assert!(config.current_compat().has_reasoning_content);
}

#[test]
fn test_config_current_compat_unknown() {
    let config = config();
    let compat = config.current_compat();
    assert!(!compat.has_reasoning_content);
    assert!(!compat.tool_calls_as_text);
}

#[test]
fn test_startup_recovery_from_auth() {
    let mut config = config();
    config.registry.save_auth("deepseek", &entry("https://api.deepseek.com", "sk-saved", "deepseek-chat"));
    let saved = AppState { last_active_provider: Some("deepseek".into()), last_active_model: Some("deepseek-reasoner".into()) };
    recover_credentials(&mut config, &saved);
    assert_eq!(config.api_base.as_deref(), Some("https://api.deepseek.com"));
    assert_eq!(config.api_key.as_deref(), Some("sk-saved"));
    assert_eq!(config.provider.as_deref(), Some("deepseek"));
    assert_eq!(config.model, "deepseek-reasoner");
}

#[test]
fn state_store_override_path() {
    let mut store = StateStore::at(None);
    assert!(store.path().is_none());
    store.set_override("/tmp/state.json".to_string());
    assert_eq!(store.path().map(|p| p.as_str()), Some("/tmp/state.json"));
    let d = AppState::default();
    assert!(d.last_active_provider.is_none() && d.last_active_model.is_none());
}

// ---------------------------------------------------------------------------
// capabilities
// ---------------------------------------------------------------------------

#[test]
fn test_login_success_sets_config_wiring_and_auth_file() {
    let mut config = config();
    match login(&mut config, "deepseek", "sk-test", None) {
        LoginOutcome::LoggedIn { model, state } => {
            assert_eq!(model, "deepseek-chat");
            assert_eq!(state.last_active_provider.as_deref(), Some("deepseek"));
        }
        other => panic!("{other:?}"),
    }
    assert_eq!(config.provider.as_deref(), Some("deepseek"));
    assert_eq!(config.api_base.as_deref(), Some("https://api.deepseek.com"));
    assert_eq!(config.api_key.as_deref(), Some("sk-test"));
    assert_eq!(config.model, "deepseek-chat");
    assert_eq!(config.registry.auth_for("deepseek").unwrap().api_key, "sk-test");
    let out = login_lines(None, true, None, "deepseek", "deepseek-chat");
    assert!(out.iter().any(|l| l.contains("Logged in to deepseek")), "{out:?}");
}

#[test]
fn test_login_unknown_provider_reports_and_changes_nothing() {
    let mut config = config();
    match login(&mut config, "nope", "sk-test", None) {
        LoginOutcome::Refused(out) => {
            assert_eq!(out.len(), 1);
            assert!(out[0].contains("Unknown provider: nope"), "{out:?}");
            assert!(out[0].contains("deepseek"), "{out:?}");
        }
        other => panic!("{other:?}"),
    }
    assert!(config.api_key.is_none());
    assert!(config.provider.is_none());
}

#[test]
fn test_login_custom_without_api_base_hints_env_var() {
    let mut config = config();
    match login(&mut config, "custom", "sk-test", None) {
        LoginOutcome::Refused(out) => {
            assert!(out.iter().any(|l| l.contains("YUSHAN_API_BASE")), "{out:?}")
        }
        other => panic!("{other:?}"),
    }
    assert!(config.api_key.is_none());
    assert!(config.registry.auth_for("custom").is_none());
}

#[test]
fn test_login_custom_falls_back_to_config_api_base() {
    let mut config = config();
    config.api_base = Some("https://custom.example.com".into());
    assert!(matches!(login(&mut config, "custom", "sk-test", None), LoginOutcome::LoggedIn { .. }));
    assert_eq!(config.api_base.as_deref(), Some("https://custom.example.com"));
}

#[test]
fn test_login_custom_uses_requested_api_base_over_config() {
    let mut config = config();
    config.api_base = Some("https://stale-from-env.example.com".into());
    let r = login(&mut config, "custom", "sk-test", Some("https://typed-in-tui.example.com/v1"));
    assert!(matches!(r, LoginOutcome::LoggedIn { .. }));
    assert_eq!(config.api_base.as_deref(), Some("https://typed-in-tui.example.com/v1"));
    assert_eq!(
        config.registry.auth_for("custom").map(|e| e.api_base.as_str()),
        Some("https://typed-in-tui.example.com/v1")
    );
}

#[test]
fn test_login_blank_requested_api_base_falls_back_to_builtin() {
    let mut config = config();
    let r = login(&mut config, "deepseek", "sk-test", Some("   "));
    assert!(matches!(r, LoginOutcome::LoggedIn { .. }));
    assert_eq!(config.api_base.as_deref(), Some("https://api.deepseek.com"));
}

#[test]
fn test_set_model_switches_config_wiring_and_state() {
    let mut config = config();
    config.provider = Some("deepseek".into());
    let state = set_model(&mut config, "deepseek-reasoner");
    assert_eq!(config.model, "deepseek-reasoner");
    assert_eq!(state.last_active_model.as_deref(), Some("deepseek-reasoner"));
    assert_eq!(state.last_active_provider.as_deref(), Some("deepseek"));
    let out = set_model_lines(None, true, "deepseek-reasoner");
    assert!(out.iter().any(|l| l.contains("Model switched to")), "{out:?}");
}

#[test]
fn test_set_model_without_credentials_clears_wiring_model() {
    let out = set_model_lines(None, false, "gpt-4o");
    assert!(out.iter().any(|l| l.contains("Cannot build model")), "{out:?}");
}

#[test]
fn test_logout_clears_everything() {
    let mut config = config();
    config.api_base = Some("https://api.deepseek.com".into());
    config.api_key = Some("sk-x".into());
    config.provider = Some("deepseek".into());
    config.registry.save_auth("deepseek", &entry("https://api.deepseek.com", "sk-x", "deepseek-chat"));
    assert!(logout(&mut config));
    assert!(config.api_base.is_none());
    assert!(config.api_key.is_none());
    assert!(config.provider.is_none());
    assert!(config.registry.auth_for("deepseek").is_none());
    assert_eq!(state_after_logout(), AppState::default());
    let out = logout_lines(None, None);
    assert_eq!(out, vec!["Logged out. API credentials cleared.".to_string()]);
}

#[test]
fn session_command_lines() {
    assert_eq!(new_session_lines(Ok(None)), vec!["New conversation started. Session cleared.".to_string()]);
    assert_eq!(new_session_lines(Err("io")), vec!["Failed to start new session: io".to_string()]);
    assert_eq!(compact_lines(Err("io")), vec!["Failed to compact session: io".to_string()]);
}

#[test]
fn test_export_ephemeral_session_says_nothing_to_export() {
    match export_step(ExportEvent::Start { session_path: None, path: None }) {
        ExportAction::Reply(out) => assert!(out[0].contains("nothing to export"), "{out:?}"),
        other => panic!("{other:?}"),
    }
}

#[test]
fn test_export_to_session_path_itself_is_guarded() {
    let a = export_step(ExportEvent::Start { session_path: Some("/s.jsonl".into()), path: None });
    let (source, target) = match a {
        ExportAction::Compare { source, target } => (source, target),
        other => panic!("{other:?}"),
    };
    assert_eq!(source, "/s.jsonl");
    assert_eq!(target, "/s.jsonl");
    match export_step(ExportEvent::Compared { source, target, same_file: true }) {
        ExportAction::Reply(out) => assert!(out[0].contains("already persisted"), "{out:?}"),
        other => panic!("{other:?}"),
    }
}

#[test]
fn test_export_copies_session_file_to_target() {
    let a = export_step(ExportEvent::Compared { source: "/s".into(), target: "/t".into(), same_file: false });
    assert!(matches!(a, ExportAction::Copy { ref source, ref target } if source == "/s" && target == "/t"));
    match export_step(ExportEvent::Copied { target: "/t".into(), result: Ok(5) }) {
        ExportAction::Reply(out) => assert!(out[0].contains("/t"), "{out:?}"),
        other => panic!("{other:?}"),
    }
}

// ---------------------------------------------------------------------------
// completion
// ---------------------------------------------------------------------------

fn test_entries() -> Vec<CmdEntry> {
    vec![
        CmdEntry { name: "help", description: "Show available commands", arg_hint: Some("[command]") },
        CmdEntry { name: "model", description: "Switch model", arg_hint: Some("[model_name]") },
        CmdEntry { name: "login", description: "Configure credentials", arg_hint: Some("[provider]") },
    ]
}

#[test]
fn test_complete_pure_empty_returns_empty_when_no_slash() {
    let completer = CmdCompleter::new(test_entries());
    let (start, pairs) = completer.complete_pure("hello", 5);
    assert_eq!(start, 0);
    assert!(pairs.is_empty());
}

#[test]
fn test_complete_pure_slash_returns_all_commands() {
    let completer = CmdCompleter::new(test_entries());
    let (start, pairs) = completer.complete_pure("/", 1);
    assert_eq!(start, 1);
    assert_eq!(pairs.len(), 3);
}

#[test]
fn test_complete_pure_prefix_match() {
    let completer = CmdCompleter::new(test_entries());
    let (start, pairs) = completer.complete_pure("/mo", 3);
    assert_eq!(start, 1);
    assert_eq!(pairs.len(), 1);
    assert!(pairs[0].display.contains("model"));
    assert_eq!(pairs[0].replacement, "/model ");
}

#[test]
fn test_complete_pure_no_match() {
    let completer = CmdCompleter::new(test_entries());
    let (start, pairs) = completer.complete_pure("/xyz", 4);
    assert_eq!(start, 1);
    assert!(pairs.is_empty());
}

#[test]
fn test_hint_pure_returns_description() {
    let completer = CmdCompleter::new(test_entries());
    let hint = completer.hint_pure("/mo", 3);
    assert_eq!(hint, Some(" — Switch model".to_string()));
}

#[test]
fn test_hint_pure_no_match_returns_none() {
    let completer = CmdCompleter::new(test_entries());
    assert!(completer.hint_pure("/xyz", 4).is_none());
}

#[test]
fn test_hint_pure_non_slash_returns_none() {
    let completer = CmdCompleter::new(test_entries());
    assert!(completer.hint_pure("hello", 5).is_none());
}

#[test]
fn test_complete_pure_arg_hint_included_in_display() {
    let completer = CmdCompleter::new(test_entries());
    let (_start, pairs) = completer.complete_pure("/help", 5);
    assert_eq!(pairs.len(), 1);
    assert!(pairs[0].display.contains("[command]"), "display = {}", pairs[0].display);
    assert_eq!(pairs[0].display, "/help [command]  — Show available commands");
}

#[test]
fn completion_stops_at_the_cursor() {
    let completer = CmdCompleter::new(test_entries());
    let (_, pairs) = completer.complete_pure("/lxyz", 2);
    assert_eq!(pairs.len(), 1);
    assert_eq!(pairs[0].replacement, "/login ");
}

// ---------------------------------------------------------------------------
// interactive pickers, views, sessions, logging, colours, the loop
// ---------------------------------------------------------------------------

#[test]
fn model_picker_labels_and_target() {
    let models = vec![
        ApiModel { id: "a".to_string(), owned_by: Some("x".to_string()) },
        ApiModel { id: "b".to_string(), owned_by: None },
    ];
    let labels = ModelCommand.labels(&models, "b");
    assert_eq!(labels, vec!["a".to_string(), "\u{2713} b".to_string()]);
    assert_eq!(ModelCommand.target("  m1 "), Some("m1".to_string()));
    assert_eq!(ModelCommand.target("   "), None);
}

#[test]
fn login_start_with_unknown_provider_is_refused() {
    let reg = ProviderRegistry::new();
    let step = LoginCommand.start("nope", &reg);
    let text = format!("{step:?}");
    assert!(text.contains("nope"), "{text}");
}

#[test]
fn available_models_without_credentials_lists_known_models() {
    let cfg = config();
    let models = available_models(&cfg);
    assert!(!models.is_empty());
    assert!(is_first_run(&[], false));
    assert!(!is_first_run(&["deepseek".to_string()], false));
    assert!(!is_first_run(&[], true));
}

#[test]
fn session_ids_pad_nanoseconds() {
    assert_eq!(new_session_id(1700000000, 42), "1700000000_000000042");
    assert_eq!(new_session_id(5, 123456789), "5_123456789");
}

#[test]
fn latest_session_is_greatest_jsonl_name() {
    let names = s(&["b.jsonl", "notes.txt", "c.jsonl", "a.jsonl", ".jsonl"]);
    assert_eq!(latest_session_path(&names), Some("c.jsonl".to_string()));
    assert_eq!(latest_session_path(&s(&["x.txt"])), None);
}

#[test]
fn test_log_lines_carry_unix_second_prefix() {
    assert_eq!(log(Some(12), "hello"), "[12] hello");
    assert_eq!(timestamp(None), "[?]");
}

#[test]
fn test_green_wraps_with_codes() {
    assert_eq!(green("ok", true), "\x1b[32mok\x1b[0m");
}

#[test]
fn test_yellow_wraps_with_codes() {
    assert_eq!(yellow("w", true), "\x1b[33mw\x1b[0m");
}

#[test]
fn test_red_wraps_with_codes() {
    assert_eq!(red("e", true), "\x1b[31me\x1b[0m");
}

#[test]
fn test_bold_wraps_with_codes() {
    assert_eq!(bold("b", true), "\x1b[1mb\x1b[0m");
}

#[test]
fn test_dim_wraps_with_codes() {
    assert_eq!(dim("d", true), "\x1b[2md\x1b[0m");
}

#[test]
fn test_no_color_env_disables_codes() {
    assert_eq!(green("ok", false), "ok");
    assert_eq!(dim("d", false), "d");
}

#[test]
fn each_prompt_advances_turn_count() {
    let mut l = AppLoop::new();
    assert_eq!(l.next_turn(), 1);
    assert_eq!(l.next_turn(), 2);
    assert_eq!(output_text(&[]), None);
    assert_eq!(output_text(&s(&["a", "b"])), Some("a\nb".to_string()));
    assert!(turn_failed(3, "boom").contains("boom"));
}

#[test]
fn model_list_status_decides() {
    assert!(matches!(models_status_outcome(401, "401 Unauthorized"), Some(FetchModelsResult::AuthError(ref m)) if m == "API key rejected (401)"));
    assert!(matches!(models_status_outcome(404, "404 Not Found"), Some(FetchModelsResult::NetworkError(ref m)) if m == "HTTP 404 Not Found"));
    assert!(models_status_outcome(200, "200 OK").is_none());
    assert!(matches!(models_body_unreadable("eof"), FetchModelsResult::NetworkError(ref m) if m == "parse error: eof"));
}

#[test]
fn session_ids_sort_by_time_within_a_decade() {
    let a = new_session_id(1_700_000_000, 5);
    let b = new_session_id(1_700_000_000, 40);
    let c = new_session_id(1_700_000_001, 0);
    assert!(a < b);
    assert!(b < c);
    // Seconds of different lengths do not sort by time.
    assert!(new_session_id(10, 0) < new_session_id(9, 0));
}

#[test]
fn registered_commands_are_stored_and_found() {
    let mut reg = CommandRegistry::new();
    reg.register(CommandInfo { name: "x".into(), description: "X".into(), arg_hint: Some("[a]".into()) });
    let c = reg.get("x").unwrap();
    assert_eq!(c.description, "X");
    assert_eq!(c.arg_hint.as_deref(), Some("[a]"));
}

#[test]
fn the_loop_starts_forwards_and_closes_turns() {
    let mut l = AppLoop::new();
    let a = l.step::<&str, &str>(LoopEvent::Boundary("abort"));
    assert!(matches!(a.as_slice(), [LoopAction::Discard("abort")]));
    let a = l.step::<&str, &str>(LoopEvent::Prompt);
    assert!(matches!(a.as_slice(), [LoopAction::StartTurn(1)]));
    assert_eq!(l.phase, Phase::Turning);
    let a = l.step::<&str, &str>(LoopEvent::Boundary("steer"));
    assert!(matches!(a.as_slice(), [LoopAction::PushBoundary("steer")]));
    let a = l.step::<&str, &str>(LoopEvent::TurnEvent("delta"));
    assert!(matches!(a.as_slice(), [LoopAction::Forward("delta")]));
    let a = l.step::<&str, &str>(LoopEvent::TurnEnded(Err("boom".to_string())));
    assert!(matches!(a.as_slice(), [LoopAction::Log(t), LoopAction::View] if t == "turn 1 failed: boom"));
    assert_eq!(l.phase, Phase::Idle);
    let a = l.step::<&str, &str>(LoopEvent::CommandDone(s(&["a", "b"])));
    assert!(matches!(a.as_slice(), [LoopAction::Output(t), LoopAction::View] if t == "a\nb"));
    let a = l.step::<&str, &str>(LoopEvent::CommandDone(Vec::new()));
    assert!(matches!(a.as_slice(), [LoopAction::View]));
    let a = l.step::<&str, &str>(LoopEvent::Prompt);
    assert!(matches!(a.as_slice(), [LoopAction::StartTurn(2)]));
    let used = Usage { input_tokens: 3, output_tokens: 4 };
    let a = l.step::<&str, &str>(LoopEvent::TurnEnded(Ok(used)));
    assert!(matches!(a.as_slice(), [LoopAction::Record(u), LoopAction::View] if *u == used));
    let a = l.step::<&str, &str>(LoopEvent::RequestsClosed);
    assert!(matches!(a.as_slice(), [LoopAction::Stop]));
    assert_eq!(l.turns, 2);
}

#[test]
fn test_build_view_defaults_without_credentials() {
    let cfg = Config::from_env_values(None, None, None, None, Some("deepseek-chat".to_string()), "/tmp/proj".to_string());
    let view = build_view(&cfg, &TurnStats::default(), None, 0, Vec::new(), Some(64_000), None, false);
    assert_eq!(view.cwd, "/tmp/proj");
    assert!(view.provider.is_none());
    assert!(view.model.is_none());
    assert!(view.logged_in_providers.is_empty());
    assert_eq!(view.providers.len(), 3);
    assert!(view.provider_names().contains(&"deepseek".to_string()));
    assert!(view.provider_needs_api_base_url("custom"));
    assert!(!view.provider_needs_api_base_url("deepseek"));
    assert!(view.available_models.contains(&"deepseek-chat".to_string()));
    assert_eq!(view.turn_count, 0);
    assert_eq!(view.message_count, 0);
    assert!(view.session_path.is_none());
    assert!(view.is_first_run);
    assert_eq!(view.context_window, Some(64_000));
}

#[test]
fn test_build_view_passes_stats_tools_and_session_path() {
    let mut stats = TurnStats::default();
    stats.record(&Usage { input_tokens: 120, output_tokens: 45 });
    stats.record(&Usage { input_tokens: 1, output_tokens: 2 });
    let cfg = Config::from_env_values(None, None, None, None, None, "/tmp".to_string());
    let view = build_view(&cfg, &stats, None, 0, vec!["read".to_string()], None, Some("s.jsonl".to_string()), true);
    assert_eq!(view.total_input_tokens, 121);
    assert_eq!(view.total_output_tokens, 47);
    assert_eq!(view.turn_count, 2);
    assert_eq!(view.tools, vec!["read".to_string()]);
    assert_eq!(view.session_path.as_deref(), Some("s.jsonl"));
    assert!(!view.is_first_run);
}

#[test]
fn test_build_view_includes_bound_provider_model() {
    let mut cfg = Config::from_env_values(None, None, None, None, Some("some-other-model".to_string()), "/tmp".to_string());
    cfg.provider = Some("deepseek".to_string());
    cfg.registry.save_auth("deepseek", &entry("https://api.deepseek.com", "sk-x", "deepseek-reasoner"));
    let view = build_view(
        &cfg,
        &TurnStats::default(),
        Some("deepseek-reasoner".to_string()),
        0,
        Vec::new(),
        None,
        Some("session.jsonl".to_string()),
        false,
    );
    assert!(view.available_models.contains(&"deepseek-reasoner".to_string()));
    assert_eq!(view.model.as_deref(), Some("deepseek-reasoner"));
    assert_eq!(view.logged_in_providers, vec!["deepseek".to_string()]);
    assert!(view.session_path.is_some());
    assert!(!view.is_first_run);
}

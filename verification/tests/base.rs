use std::sync::atomic::{AtomicBool, Ordering};
use std::sync::Arc;

use tars::cancel::CancelToken;
use tars::config::{
    api_id_from_api, default_context_window, default_max_tokens, global_aliases_path, key_source,
    merge_alias_maps, model_from_config, operator_aliases_path, providers_parse_message,
    resolve_provider_api_key, KeySource, ModelConfig, ProviderConfig,
};
use tars::display::{format_stats, format_token_stats, format_tokens};
use tars::error::{map_http_status, map_transport_error, Error};
use tars::path::{extension, file_name, join, parent};
use tars::paths::{Environment, Paths};
use tars::project::{
    alias_target_for_cwd, candidates, discover, is_project_root, operator_alias_tier,
};
use tars::protocol::{json_line, ChatAttachment, ErrorKind, SessionStats, TokenStats};
use tars::strmap::StrMap;
use tars::text::{
    str_ascii_lower, str_contains, str_join, str_lines, str_parse_u64, str_replace, str_split,
    str_strip_prefix, str_trim, str_trim_end_char, truncate_str, truncate_str_end,
};
use tars::time::timestamp_ms;
use tars::types::{
    AgentPhase, CacheRetention, ModelCost, ThinkingStyle, ToolResultMessage, Usage, UserContent,
};

// -- time and text --

#[test]
fn timestamp_ms_is_reasonable() {
    let ts = timestamp_ms();
    // After 2020-01-01 and before 2100-01-01 (in ms)
    assert!(ts > 1_577_836_800_000);
    assert!(ts < 4_102_444_800_000);
}

#[test]
fn truncate_str_short_unchanged() {
    let s = "hello";
    assert_eq!(truncate_str(s, 10), "hello");
}

#[test]
fn truncate_str_exact() {
    let s = "abcde";
    assert_eq!(truncate_str(s, 5), "abcde");
}

#[test]
fn truncate_str_long() {
    let s = "abcdefghij";
    assert_eq!(truncate_str(s, 6), "abcdef");
}

#[test]
fn truncate_str_char_boundary_ascii() {
    // ASCII: every byte is a char boundary
    let s = "abcdef";
    assert_eq!(truncate_str(s, 4), "abcd");
}

#[test]
fn truncate_str_char_boundary_multibyte() {
    // "café" = [63, 61, 66, c3, a9] = 5 bytes; é is 2 bytes at indices 3-4
    // max_bytes=4 would land in the middle of é, so rounds down to 3
    let s = "café";
    assert_eq!(truncate_str(s, 4), "caf");
    assert_eq!(truncate_str(s, 3), "caf");
    assert_eq!(truncate_str(s, 5), "café");
    // max_bytes=2 stays at "ca"
    assert_eq!(truncate_str(s, 2), "ca");
}

#[test]
fn truncate_str_emoji() {
    // "hello👋" = "hello" (5 bytes) + 👋 (4 bytes) = 9 bytes
    let s = "hello👋";
    assert_eq!(truncate_str(s, 8), "hello");
    assert_eq!(truncate_str(s, 9), "hello👋");
}

#[test]
fn truncate_str_end_short_unchanged() {
    let s = "hello";
    assert_eq!(truncate_str_end(s, 10), "hello");
}

#[test]
fn truncate_str_end_long() {
    let s = "abcdefghij";
    assert_eq!(truncate_str_end(s, 6), "efghij");
}

#[test]
fn truncate_str_end_char_boundary() {
    // "café" keeps the end when truncating from the start
    let s = "café";
    assert_eq!(truncate_str_end(s, 4), "afé");
    assert_eq!(truncate_str_end(s, 5), "café");
    assert_eq!(truncate_str_end(s, 2), "é");
    // max_bytes=1 lands mid-é and rounds up past it to the end
    assert_eq!(truncate_str_end(s, 1), "");
}

#[test]
fn truncate_str_end_emoji() {
    let s = "hello👋";
    // last 4 bytes = 👋
    assert_eq!(truncate_str_end(s, 4), "👋");
    assert_eq!(truncate_str_end(s, 5), "o👋");
}

#[test]
fn truncation_agrees_with_char_boundaries() {
    let s = "a\u{e9}\u{4e2d}\u{1f44b}z";
    for max in 0..=s.len() + 1 {
        let mut end = max.min(s.len());
        while !s.is_char_boundary(end) {
            end -= 1;
        }
        assert_eq!(truncate_str(s, max), &s[..end]);
        let mut start = s.len() - max.min(s.len());
        while !s.is_char_boundary(start) {
            start += 1;
        }
        assert_eq!(truncate_str_end(s, max), &s[start..]);
    }
}

#[test]
fn text_functions_agree_with_std() {
    let samples = [
        "", " ", "a", "\r\n", "a\r\nb\n", "\nx", "a:b::c", "\u{a0}pad\u{3000}", "a\tb ",
        "\u{85}next\u{2028}", "\u{200b}zero", "one\rtwo\n\n",
    ];
    for s in samples {
        assert_eq!(str_trim(s), s.trim());
        assert_eq!(str_lines(s), s.lines().map(String::from).collect::<Vec<_>>());
        assert_eq!(str_split(s, ':'), s.split(':').map(String::from).collect::<Vec<_>>());
        assert_eq!(str_replace(s, "a", "bb"), s.replace("a", "bb"));
        assert_eq!(str_contains(s, "b"), s.contains("b"));
        assert_eq!(str_ascii_lower(s), s.to_ascii_lowercase());
        assert_eq!(str_trim_end_char(s, ' '), s.trim_end_matches(' '));
        assert_eq!(str_strip_prefix(s, "a"), s.strip_prefix("a").map(String::from));
    }
    for s in ["0", "+7", "007", "18446744073709551615", "18446744073709551616", "", "+", "-1", " 1", "1a"] {
        assert_eq!(str_parse_u64(s), s.parse::<u64>().ok(), "{s}");
    }
    let parts = vec!["a".to_string(), "b".to_string(), "c".to_string()];
    assert_eq!(str_join(&parts, ", "), "a, b, c");
    assert_eq!(str_join(&Vec::new(), ", "), "");
}

#[test]
fn json_line_ends_in_one_newline() {
    assert_eq!(json_line("{\"x\":1}".to_string()), "{\"x\":1}\n");
}

// -- display --

#[test]
fn format_tokens_units() {
    assert_eq!(format_tokens(0), "0");
    assert_eq!(format_tokens(999), "999");
    assert_eq!(format_tokens(1_000), "1.0K");
    assert_eq!(format_tokens(12_345), "12.3K");
    assert_eq!(format_tokens(999_999), "1000.0K");
    assert_eq!(format_tokens(1_000_000), "1.0M");
    assert_eq!(format_tokens(18_500_000), "18.5M");
}

#[test]
fn format_tokens_agrees_with_floating_point() {
    let mut n: u64 = 1_000;
    for step in 0..4_000u64 {
        let expected = if n >= 1_000_000 {
            format!("{:.1}M", n as f64 / 1_000_000.0)
        } else {
            format!("{:.1}K", n as f64 / 1_000.0)
        };
        assert_eq!(format_tokens(n), expected, "{n}");
        n = n + 1 + n / 97 + step % 53;
        if n > u64::MAX / 2 {
            break;
        }
    }
    for n in [1_050, 1_150, 1_250, 1_350, 99_950, 2_250_000, 2_350_000, u64::MAX, u64::MAX - 1] {
        let expected = if n >= 1_000_000 {
            format!("{:.1}M", n as f64 / 1_000_000.0)
        } else {
            format!("{:.1}K", n as f64 / 1_000.0)
        };
        assert_eq!(format_tokens(n), expected, "{n}");
    }
}

#[test]
fn format_stats_empty() {
    assert_eq!(format_stats(&SessionStats::default(), None), "");
}

#[test]
fn format_stats_basic() {
    let stats = SessionStats {
        tokens: TokenStats {
            input: 12_000,
            output: 81_000,
            cache_read: 18_000_000,
            cache_write: 353_000,
        },
        context_window: 200_000,
        context_tokens: Some(36_800),
        ..Default::default()
    };
    let s = format_stats(&stats, Some("13.434"));
    assert!(s.contains("↑12.0K"), "got: {s}");
    assert!(s.contains("↓81.0K"), "got: {s}");
    assert!(s.contains("R18.0M"), "got: {s}");
    assert!(s.contains("W353.0K"), "got: {s}");
    assert!(s.contains("$13.434"), "got: {s}");
    assert!(s.contains("18.4%/200.0K"), "got: {s}");
}

#[test]
fn format_stats_unknown_context() {
    let stats = SessionStats {
        context_window: 200_000,
        context_tokens: None,
        ..Default::default()
    };
    let s = format_stats(&stats, None);
    assert!(s.contains("?/200.0K"), "got: {s}");
}

#[test]
fn context_share_agrees_with_floating_point() {
    for window in [1u64, 3, 7, 1_000, 128_000, 200_000, 1_048_576] {
        for used in [0u64, 1, 2, 5, 333, 36_800, 127_999, 199_999, 3_000_000] {
            let stats = SessionStats {
                context_window: window,
                context_tokens: Some(used),
                ..Default::default()
            };
            let pct = format!("{:.1}%", used as f64 / window as f64 * 100.0);
            let s = format_stats(&stats, None);
            assert!(s.starts_with(&format!("{pct}/")), "{used} of {window}: {s}, not {pct}");
        }
    }
}

#[test]
fn format_token_stats_mixed() {
    let t = TokenStats {
        input: 1_200,
        output: 900,
        cache_read: 0,
        cache_write: 3_500,
    };
    let s = format_token_stats(&t);
    assert!(s.contains("↑1.2K"), "got: {s}");
    assert!(s.contains("↓900"), "got: {s}");
    assert!(s.contains("W3.5K"), "got: {s}");
    assert!(!s.contains('R'), "got: {s}");
}

// -- errors --

#[test]
fn error_display_no_provider() {
    let e = Error::NoProvider("anthropic-messages".into());
    assert_eq!(
        e.to_string(),
        "no provider registered for 'anthropic-messages'"
    );
}

#[test]
fn error_display_http() {
    let e = Error::Http {
        status: 429,
        message: "too many requests".into(),
    };
    assert_eq!(e.to_string(), "HTTP error: 429 too many requests");
}

#[test]
fn error_display_rate_limited_with_retry_after() {
    let e = Error::RateLimited {
        provider: "openai".into(),
        retry_after: Some(30),
    };
    assert_eq!(e.to_string(), "rate limited by openai");
}

#[test]
fn error_display_rate_limited_without_retry_after() {
    let e = Error::RateLimited {
        provider: "openai".into(),
        retry_after: None,
    };
    assert_eq!(e.to_string(), "rate limited by openai");
}

#[test]
fn error_display_simple_variants() {
    assert_eq!(
        Error::Timeout("anthropic".into()).to_string(),
        "request to 'anthropic' timed out"
    );
    assert_eq!(
        Error::Auth("openai".into()).to_string(),
        "authentication error for provider 'openai'"
    );
    assert_eq!(
        Error::ContextOverflow.to_string(),
        "context window overflow"
    );
    assert_eq!(Error::Cancelled.to_string(), "cancelled");
    assert_eq!(Error::ChannelClosed.to_string(), "channel closed");
    assert_eq!(
        Error::Internal("something broke".into()).to_string(),
        "internal error: something broke"
    );
    assert_eq!(
        Error::Parse("bad json".into()).to_string(),
        "parse error: bad json"
    );
}

#[test]
fn error_display_io_names_its_variant() {
    assert_eq!(Error::Io("pipe broke".into()).to_string(), "io: pipe broke");
}

#[test]
fn transport_errors() {
    assert!(matches!(map_transport_error(true, "slow".into(), "p"), Error::Timeout(p) if p == "p"));
    assert!(matches!(
        map_transport_error(false, "refused".into(), "p"),
        Error::Http { status: 0, message } if message == "refused"
    ));
    assert!(matches!(
        map_http_status(500, "oops".into(), None, "p"),
        Error::Http { status: 500, message } if message == "oops"
    ));
}

// -- paths --

#[test]
fn from_home_joins_standard_dirs() {
    let home = "/home/alice";
    let paths = Paths::from_home(home);
    assert_eq!(paths.config_dir(), "/home/alice/.config/tars");
    assert_eq!(paths.data_dir(), "/home/alice/.local/share/tars");
    assert_eq!(paths.runtime_dir(), "/home/alice/.tars");
    assert_eq!(paths.state_dir(), "/home/alice/.local/state/tars");
}

#[test]
fn derived_paths_follow_dirs() {
    let home = "/home/alice";
    let paths = Paths::from_home(home);
    assert_eq!(paths.logs_dir(), "/home/alice/.local/state/tars/logs");
    assert_eq!(paths.socket_path(), "/home/alice/.tars/tars.sock");
    assert_eq!(tars::server::socket_path_from(&paths), paths.socket_path());
    assert_eq!(paths.pid_path(), "/home/alice/.tars/tars.pid");
    assert_eq!(
        paths.providers_path(),
        "/home/alice/.config/tars/providers.toml"
    );
    assert_eq!(
        paths.models_path(),
        "/home/alice/.config/tars/models.toml"
    );
    assert_eq!(
        paths.project_config_dir("myproj"),
        "/home/alice/.config/tars/projects/myproj"
    );
}

#[test]
fn detect_config_data_state_end_with_tars() {
    let env = Environment {
        xdg_config_home: Some("/etc/xdg".into()),
        xdg_data_home: None,
        xdg_runtime_dir: None,
        xdg_state_home: None,
        home: Some("/home/alice".into()),
        pid: 7,
    };
    let paths = Paths::detect(&env);
    assert_eq!(file_name(paths.config_dir()).as_deref(), Some("tars"));
    assert_eq!(file_name(paths.data_dir()).as_deref(), Some("tars"));
    assert_eq!(file_name(paths.state_dir()).as_deref(), Some("tars"));
    // socket lives in the runtime dir
    assert!(paths.socket_path().contains("tars"));
    assert_eq!(paths.config_dir(), "/etc/xdg/tars");
}

#[test]
fn detect_without_home_falls_back_to_tmp() {
    let env = Environment {
        xdg_config_home: None,
        xdg_data_home: None,
        xdg_runtime_dir: None,
        xdg_state_home: None,
        home: None,
        pid: 42,
    };
    let paths = Paths::detect(&env);
    assert_eq!(paths.config_dir(), "/tmp/tars-config");
    assert_eq!(paths.runtime_dir(), "/tmp/tars-42");
}

#[test]
fn path_functions_agree_with_std() {
    let samples = [
        "", "/", "a", "a/b", "/a/b", "/a/b/", "a//b", "/a/.", "./a", "..", "/a/..", "x.rs", ".git",
        "a.tar.gz", "/a/b.c/d", "a/.hidden.txt", "a/b./", "//a",
    ];
    for s in samples {
        let p = std::path::Path::new(s);
        assert_eq!(parent(s).as_deref(), p.parent().and_then(|x| x.to_str()), "parent of {s}");
        assert_eq!(file_name(s).as_deref(), p.file_name().and_then(|x| x.to_str()), "name of {s}");
        assert_eq!(extension(s).as_deref(), p.extension().and_then(|x| x.to_str()), "extension of {s}");
        for t in samples {
            assert_eq!(join(s, t), p.join(t).to_str().unwrap(), "{s} joined with {t}");
        }
    }
}

// -- projects --

/// The project of a directory, where the marked directories hold a marker.
fn discover_in(cwd: &str, is_dir: bool, markers: &[&str]) -> Option<tars::project::Project> {
    let marked: Vec<bool> = candidates(cwd, is_dir)
        .iter()
        .map(|d| markers.contains(&d.as_str()))
        .collect();
    discover(cwd, is_dir, &marked)
}

#[test]
fn git_dir_discovered() {
    let root = "/t/myproj";
    assert!(is_project_root(true, false));
    let project = discover_in("/t/myproj/src/nested", true, &[root]).expect("discovered");
    assert_eq!(project.root, root);
    assert_eq!(project.name.as_deref(), Some("myproj"));
}

#[test]
fn git_file_counts_as_root() {
    // Worktrees and submodules use a `.git` file, not a directory: that it exists is enough.
    assert!(is_project_root(true, false));
    let project = discover_in("/t/worktree", true, &["/t/worktree"]).unwrap();
    assert_eq!(project.root, "/t/worktree");
}

#[test]
fn tars_dir_discovered() {
    assert!(is_project_root(false, true));
    let project = discover_in("/t/tarred", true, &["/t/tarred"]).unwrap();
    assert_eq!(project.root, "/t/tarred");
    assert_eq!(project.name.as_deref(), Some("tarred"));
}

#[test]
fn nearest_marker_wins() {
    let project = discover_in("/t/outer/inner", true, &["/t/outer", "/t/outer/inner"]).unwrap();
    assert_eq!(project.root, "/t/outer/inner", "closest marker wins over parent's");
}

#[test]
fn no_marker_returns_none() {
    assert!(!is_project_root(false, false));
    assert!(discover_in("/t/plain", true, &[]).is_none());
}

#[test]
fn missing_path_uses_parent() {
    // A file path that does not exist yet inside the project.
    let project = discover_in("/t/proj/ghost.txt", false, &["/t/proj"]).unwrap();
    assert_eq!(project.root, "/t/proj");
}

#[test]
fn root_directory_has_no_name() {
    let project = discover_in("/", true, &["/"]).unwrap();
    assert_eq!(project.name, None);
}

fn aliases(entries: &[(&str, &str)]) -> StrMap<String> {
    let mut m = StrMap::new();
    for (k, v) in entries {
        m.insert(k.to_string(), v.to_string());
    }
    m
}

#[test]
fn operator_alias_tier_loads_by_name() {
    let paths = Paths::from_home("/home/alice");
    let project = discover_in("/t/aliased", true, &["/t/aliased"]).unwrap();
    let tier = operator_alias_tier(Some(&project), &paths).unwrap();
    assert_eq!(tier, "/home/alice/.config/tars/projects/aliased/models.toml");

    // No project ⇒ no operator tier.
    assert!(operator_alias_tier(None, &paths).is_none());
}

#[test]
fn alias_target_for_cwd_uses_operator_over_global() {
    let global = || aliases(&[("smart", "global-model")]);
    let operator = || aliases(&[("smart", "operator-model")]);
    assert_eq!(
        alias_target_for_cwd("smart", Some(operator()), global()),
        Some("operator-model".into())
    );
    // Outside the project, the global tier applies.
    assert_eq!(
        alias_target_for_cwd("smart", None, global()),
        Some("global-model".into())
    );
    // Non-alias input maps to None.
    assert_eq!(alias_target_for_cwd("opus-4", Some(operator()), global()), None);
}

#[test]
fn str_map_keeps_one_value_per_key() {
    let mut m = aliases(&[("a", "1"), ("b", "2"), ("a", "3")]);
    assert_eq!(m.len(), 2);
    assert_eq!(m.get("a").map(String::as_str), Some("3"));
    assert_eq!(m.remove("a").as_deref(), Some("3"));
    assert!(!m.contains_key("a"));
    assert_eq!(m.remove("a"), None);
    assert_eq!(m.len(), 1);
}

// -- config --

fn provider(api_key: Option<&str>) -> ProviderConfig {
    ProviderConfig {
        api: "openai".into(),
        base_url: "http://localhost".into(),
        api_key: api_key.map(String::from),
        models: vec![],
    }
}

#[test]
fn api_key_expansion() {
    let expanded = provider(Some("$HOME"));
    assert_eq!(key_source(&expanded), KeySource::Variable("HOME".into()));
    assert_eq!(
        resolve_provider_api_key(&expanded, Some("/home/alice".into())).as_deref(),
        Some("/home/alice")
    );
}

#[test]
fn api_key_literal_and_none() {
    assert_eq!(
        resolve_provider_api_key(&provider(Some("sk-literal")), None).as_deref(),
        Some("sk-literal")
    );
    assert_eq!(resolve_provider_api_key(&provider(Some("none")), None), None);
    assert_eq!(resolve_provider_api_key(&provider(Some("")), None), None);
    assert_eq!(resolve_provider_api_key(&provider(None), None), None);
}

#[test]
fn api_key_unset_var_returns_none() {
    let pc = provider(Some("$__TARS_TEST_NO_SUCH_VAR__"));
    assert_eq!(resolve_provider_api_key(&pc, None), None);
    assert_eq!(resolve_provider_api_key(&pc, Some(String::new())), None);
}

#[test]
fn model_from_config_maps_fields() {
    let provider = ProviderConfig {
        api: "openai".into(),
        base_url: "http://localhost:8080/v1".into(),
        api_key: None,
        models: vec![],
    };
    let mc = ModelConfig {
        id: "qwen3.5-72b".into(),
        name: None,
        context_window: 131_072,
        max_tokens: 32_768,
        thinking: ThinkingStyle::Qwen,
        cost: ModelCost::default(),
    };
    let model = model_from_config("my-qwen", &provider, &mc);
    assert_eq!(model.id, "qwen3.5-72b");
    assert_eq!(model.name, "qwen3.5-72b"); // name falls back to id
    assert_eq!(model.api, "openai-completions");
    assert_eq!(model.provider, "my-qwen");
    assert_eq!(model.base_url, "http://localhost:8080/v1");
    assert_eq!(model.thinking, ThinkingStyle::Qwen);
}

#[test]
fn api_id_mapping() {
    assert_eq!(api_id_from_api("anthropic"), "anthropic-messages");
    assert_eq!(api_id_from_api("openai"), "openai-completions");
    assert_eq!(api_id_from_api("custom"), "custom");
}

#[test]
fn model_defaults() {
    assert_eq!(default_context_window(), 128_000);
    assert_eq!(default_max_tokens(), 16_384);
}

#[test]
fn alias_files() {
    let paths = Paths::from_home("/home/alice");
    assert_eq!(global_aliases_path(&paths), "/home/alice/.config/tars/models.toml");
    assert_eq!(
        operator_aliases_path(&paths, "myproj"),
        "/home/alice/.config/tars/projects/myproj/models.toml"
    );
    assert_eq!(
        providers_parse_message("/p.toml", "bad"),
        "providers.toml (/p.toml): bad"
    );
}

#[test]
fn merge_operator_overrides_global() {
    let global = aliases(&[("smart", "global-model"), ("global-only", "g")]);
    let operator = aliases(&[("smart", "operator-model"), ("op-only", "o")]);
    let merged = merge_alias_maps(operator, global);
    assert_eq!(merged.len(), 3);
    assert_eq!(
        merged.get("smart").map(String::as_str),
        Some("operator-model")
    );
    assert_eq!(merged.get("global-only").map(String::as_str), Some("g"));
    assert_eq!(merged.get("op-only").map(String::as_str), Some("o"));
}

// -- protocol and types --

#[test]
fn chat_attachment_to_user_content() {
    let att = ChatAttachment::Image {
        data: "AAAA".into(),
        mime_type: "image/png".into(),
    };
    let uc = att.to_user_content();
    assert!(matches!(uc, UserContent::Image(i) if i.mime_type == "image/png"));
}

#[test]
fn error_kind_mapping() {
    assert_eq!(
        ErrorKind::from_error(&Error::Auth("x".into())),
        ErrorKind::Auth
    );
    assert_eq!(
        ErrorKind::from_error(&Error::RateLimited {
            provider: "x".into(),
            retry_after: Some(3),
        }),
        ErrorKind::RateLimited {
            retry_after: Some(3)
        }
    );
    assert_eq!(
        ErrorKind::from_error(&Error::Internal("boom".into())),
        ErrorKind::Internal
    );
    assert_eq!(
        ErrorKind::from_error(&Error::NoApiKey("x".into())),
        ErrorKind::NoApiKey
    );
}

#[test]
fn token_stats_total() {
    let t = TokenStats {
        input: 1,
        output: 2,
        cache_read: 3,
        cache_write: 4,
    };
    assert_eq!(t.total(), 10);
    assert_eq!(TokenStats::default().total(), 0);
}

#[test]
fn usage_recompute_total_sums_fields() {
    let mut u = Usage {
        input: 10,
        output: 20,
        cache_read: 3,
        cache_write: 4,
        total_tokens: 0,
    };
    u.recompute_total();
    assert_eq!(u.total_tokens, 37);
    // idempotent when fields unchanged
    u.recompute_total();
    assert_eq!(u.total_tokens, 37);
    // overwrites stale values
    u.total_tokens = 999;
    u.recompute_total();
    assert_eq!(u.total_tokens, 37);
}

#[test]
fn cancel_token_defaults_uncancelled_and_cancels() {
    let t = CancelToken::new();
    assert!(!t.is_cancelled());
    t.cancel();
    assert!(t.is_cancelled());
    // idempotent
    t.cancel();
    assert!(t.is_cancelled());
}

#[test]
fn cancel_token_clones_share_flag() {
    let a = CancelToken::new();
    let b = a.clone();
    b.cancel();
    assert!(a.is_cancelled());
}

#[test]
fn cancel_token_from_flag() {
    let flag = Arc::new(AtomicBool::new(false));
    let t = CancelToken::from_flag(flag.clone());
    flag.store(true, Ordering::Relaxed);
    assert!(t.is_cancelled());
    // flag() returns the same Arc
    assert!(Arc::ptr_eq(&flag, &t.flag()));
}

#[test]
fn tokens_are_cancelled_from_the_first_cancel_on() {
    let a = CancelToken::new();
    let b = a.clone();
    let c = CancelToken::new();
    assert!(!a.is_cancelled() && !b.is_cancelled());
    b.cancel();
    assert!(a.is_cancelled() && b.is_cancelled() && !c.is_cancelled());
    a.cancel();
    assert!(a.is_cancelled() && b.is_cancelled() && !c.is_cancelled());
    let flag = Arc::new(AtomicBool::new(false));
    CancelToken::from_flag(flag.clone()).cancel();
    assert!(flag.load(Ordering::Relaxed));
}

#[test]
fn cache_retention_resolve_defaults_to_short() {
    assert_eq!(CacheRetention::resolve(None), CacheRetention::Short);
    assert_eq!(
        CacheRetention::resolve(Some(CacheRetention::Long)),
        CacheRetention::Long
    );
    assert_eq!(
        CacheRetention::resolve(Some(CacheRetention::Off)),
        CacheRetention::Off
    );
}

#[test]
fn agent_phase_labels() {
    assert_eq!(AgentPhase::Idle.label(), "idle");
    assert_eq!(AgentPhase::ToolExec.label(), "running tools...");
    assert_eq!(AgentPhase::default(), AgentPhase::Idle);
}

#[test]
fn tool_result_text_concatenates() {
    let msg = ToolResultMessage::success("tc", "t", "hello world");
    assert_eq!(msg.text(), "hello world");
    let err = ToolResultMessage::error("tc", "t", "nope");
    assert!(err.is_error);
    assert_eq!(err.text(), "nope");
}

//! Tests for command lookup, environment injection, diagnostics
//! classification and the connection state machine.

use mcpmux_transport::{
    classify_stderr_line, command_hint, duration_to_string, inject_shell_path, locate_outcome,
    process_stderr_line, resolve_command, u64_to_string, with_exe_suffix, ConnectAction,
    ConnectEvent, ConnectState, EnvMap, LocateError, LogLevel, LogSource, StdioTransport,
    TransportConnectResult, TransportType,
};

fn transport(command: &str) -> StdioTransport {
    StdioTransport::new(
        command.to_string(),
        vec!["server.js".to_string()],
        EnvMap::new(),
        "test-space".to_string(),
        "test-server".to_string(),
        true,
        30_000,
    )
}

// ── resolve_command ────────────────────────────────────────────────

#[test]
fn test_resolve_command_finds_sh_with_shell_path() {
    let path = "/bin:/usr/bin".to_string();
    let result = resolve_command("sh", Some(&path));
    assert!(result.is_ok(), "Should find 'sh' in /bin:/usr/bin");
}

#[test]
fn test_resolve_command_finds_command_without_shell_path() {
    let result = resolve_command("sh", None);
    assert!(result.is_ok(), "Should find 'sh' via process PATH");
}

#[test]
fn test_resolve_command_returns_error_for_nonexistent() {
    let fake_path = "/nonexistent/path".to_string();
    let result = resolve_command("this_command_surely_does_not_exist_xyz", Some(&fake_path));
    assert!(result.is_err(), "Should fail for nonexistent command");
}

#[test]
fn test_resolve_command_not_found_in_restricted_path() {
    let path = "/tmp/empty_dir_that_does_not_exist".to_string();
    let result = resolve_command("sh", Some(&path));
    assert!(
        result.is_err(),
        "Should not find 'sh' in a path that doesn't contain it"
    );
}

#[test]
fn test_with_exe_suffix_appends() {
    assert_eq!(with_exe_suffix("docker"), "docker.exe");
}

// ── inject_shell_path ──────────────────────────────────────────────

#[test]
fn test_inject_shell_path_adds_when_missing() {
    let mut env = EnvMap::new();
    env.insert("FOO".to_string(), "bar".to_string());

    let path = "/usr/bin:/usr/local/bin".to_string();
    inject_shell_path(&mut env, Some(&path));

    assert_eq!(
        env.get("PATH"),
        Some(&"/usr/bin:/usr/local/bin".to_string()),
        "PATH should be injected"
    );
    assert_eq!(
        env.get("FOO"),
        Some(&"bar".to_string()),
        "Existing vars should be preserved"
    );
}

#[test]
fn test_inject_shell_path_respects_existing_path() {
    let mut env = EnvMap::new();
    env.insert("PATH".to_string(), "/custom/path".to_string());

    let path = "/usr/bin:/usr/local/bin".to_string();
    inject_shell_path(&mut env, Some(&path));

    assert_eq!(
        env.get("PATH"),
        Some(&"/custom/path".to_string()),
        "User-set PATH should not be overridden"
    );
}

#[test]
fn test_inject_shell_path_noop_when_none() {
    let mut env = EnvMap::new();
    env.insert("FOO".to_string(), "bar".to_string());

    inject_shell_path(&mut env, None);

    assert!(
        !env.contains_key("PATH"),
        "Should not inject PATH when shell_path is None"
    );
}

#[test]
fn test_inject_shell_path_empty_env() {
    let mut env = EnvMap::new();

    let path = "/a:/b:/c".to_string();
    inject_shell_path(&mut env, Some(&path));

    assert_eq!(env.get("PATH"), Some(&"/a:/b:/c".to_string()));
    assert_eq!(env.len(), 1, "Should only have PATH");
}

#[test]
fn test_env_map_insert_replaces_value() {
    let mut env = EnvMap::new();
    env.insert("KEY".to_string(), "one".to_string());
    env.insert("KEY".to_string(), "two".to_string());
    assert_eq!(env.len(), 1);
    assert_eq!(env.get("KEY"), Some(&"two".to_string()));
    assert_eq!(env.get("MISSING"), None);
}

// ── command_hint ───────────────────────────────────────────────────

#[test]
fn test_command_hint_docker() {
    assert!(command_hint("docker").contains("Docker Desktop"));
    assert!(command_hint("/usr/local/bin/docker").contains("Docker Desktop"));
}

#[test]
fn test_command_hint_non_docker() {
    assert_eq!(command_hint("npx"), "");
    assert_eq!(command_hint("node"), "");
    assert_eq!(command_hint("python"), "");
}

#[test]
fn test_command_hint_variants() {
    assert!(command_hint("docker.exe").contains("Docker Desktop"));
    assert!(command_hint("docker-compose").contains("Docker Desktop"));
    assert!(command_hint("DOCKER").contains("Docker Desktop"));
    assert_eq!(command_hint("dockerd"), "");
}

// ── classify_stderr_line ───────────────────────────────────────────

#[test]
fn test_classify_stderr_error() {
    assert_eq!(
        classify_stderr_line("ERROR: something failed"),
        LogLevel::Error
    );
    assert_eq!(
        classify_stderr_line("fatal: not a git repository"),
        LogLevel::Error
    );
    assert_eq!(
        classify_stderr_line("thread 'main' panicked"),
        LogLevel::Error
    );
}

#[test]
fn test_classify_stderr_warn() {
    assert_eq!(
        classify_stderr_line("WARN: deprecated feature"),
        LogLevel::Warn
    );
    assert_eq!(
        classify_stderr_line("Warning: something is off"),
        LogLevel::Warn
    );
}

#[test]
fn test_classify_stderr_debug() {
    assert_eq!(
        classify_stderr_line("DEBUG: internal state"),
        LogLevel::Debug
    );
    assert_eq!(
        classify_stderr_line("trace: verbose output"),
        LogLevel::Debug
    );
}

#[test]
fn test_classify_stderr_info_default() {
    assert_eq!(
        classify_stderr_line("Server listening on port 3000"),
        LogLevel::Info
    );
}

#[test]
fn test_classify_examples() {
    assert_eq!(classify_stderr_line("thread panicked"), LogLevel::Error);
    assert_eq!(classify_stderr_line("WARN: deprecated"), LogLevel::Warn);
    assert_eq!(classify_stderr_line("trace: x"), LogLevel::Debug);
    assert_eq!(classify_stderr_line("listening on :3000"), LogLevel::Info);
}

#[test]
fn test_process_stderr_line_skips_empty() {
    assert!(process_stderr_line("").is_none());
    let entry = process_stderr_line("fatal: broken").expect("non-empty line becomes a log entry");
    assert_eq!(entry.level, LogLevel::Error);
    assert_eq!(entry.source, LogSource::Stderr);
    assert_eq!(entry.message, "fatal: broken");
}

// ── rendering helpers ──────────────────────────────────────────────

#[test]
fn test_u64_to_string_exact() {
    assert_eq!(u64_to_string(0), "0");
    assert_eq!(u64_to_string(30), "30");
    assert_eq!(u64_to_string(10500), "10500");
}

#[test]
fn test_duration_to_string_exact() {
    assert_eq!(duration_to_string(30_000), "30s");
    assert_eq!(duration_to_string(2_500), "2.5s");
    assert_eq!(duration_to_string(1_050), "1.05s");
    assert_eq!(duration_to_string(250), "250ms");
    assert_eq!(duration_to_string(0), "0ms");
}

// ── the connection state machine ───────────────────────────────────

#[test]
fn test_stdio_transport_description() {
    let t = transport("node");
    assert!(matches!(t.transport_type(), TransportType::Stdio));
    assert_eq!(t.description(), "stdio:node");
}

#[test]
fn test_connect_start_logs_and_resolves() {
    let t = transport("node");
    let (state, actions) = t.connect_step(ConnectState::Idle, ConnectEvent::Start);
    assert!(matches!(state, ConnectState::ResolvingEnvironment));
    assert_eq!(actions.len(), 2);
    match &actions[0] {
        ConnectAction::EmitLog(log) => {
            assert_eq!(log.level, LogLevel::Info);
            assert_eq!(log.source, LogSource::Connection);
            assert_eq!(log.message, "Connecting to server: node [\"server.js\"]");
        }
        other => panic!("expected a log action, got {:?}", action_name(other)),
    }
    assert!(matches!(actions[1], ConnectAction::ResolveEnvironment));
}

#[test]
fn test_connect_command_not_found() {
    let t = transport("nonexistent_command_that_does_not_exist_abc123");
    let state = ConnectState::LocatingCommand { shell_path: None };
    let located = resolve_command("nonexistent_command_that_does_not_exist_abc123", None);
    assert!(located.is_err());
    let (state, actions) = t.connect_step(state, ConnectEvent::CommandLocated(located));
    let msg = match state {
        ConnectState::Done(TransportConnectResult::Failed(msg)) => msg,
        _ => panic!("Expected a failed outcome for nonexistent command"),
    };
    assert!(
        msg.contains("Command not found"),
        "Expected 'Command not found', got: {msg}"
    );
    assert_eq!(actions.len(), 2);
    match &actions[0] {
        ConnectAction::EmitLog(log) => {
            assert_eq!(log.level, LogLevel::Error);
            assert_eq!(log.message, msg);
        }
        other => panic!("expected a log action, got {:?}", action_name(other)),
    }
}

#[test]
fn test_docker_command_not_found_includes_hint() {
    let t = transport("docker");
    let state = ConnectState::LocatingCommand { shell_path: None };
    let (state, _actions) = t.connect_step(
        state,
        ConnectEvent::CommandLocated(Err(mcpmux_transport::LocateError::NotFound)),
    );
    match state {
        ConnectState::Done(TransportConnectResult::Failed(msg)) => {
            assert!(
                msg.contains("Docker Desktop"),
                "Expected Docker hint in error message, got: {msg}"
            );
        }
        _ => panic!("Expected a failed outcome"),
    }
}

#[test]
fn test_connect_spawn_injects_path_without_clobbering() {
    let t = transport("node");
    let state = ConnectState::LocatingCommand {
        shell_path: Some("/resolved/bin:/usr/bin".to_string()),
    };
    let (state, actions) = t.connect_step(
        state,
        ConnectEvent::CommandLocated(Ok("/usr/bin/node".to_string())),
    );
    assert!(matches!(state, ConnectState::Spawning { .. }));
    assert_eq!(actions.len(), 1);
    match &actions[0] {
        ConnectAction::SpawnProcess { program, args, env } => {
            assert_eq!(program, "/usr/bin/node");
            assert_eq!(args.len(), 1);
            assert_eq!(env.get("PATH"), Some(&"/resolved/bin:/usr/bin".to_string()));
        }
        other => panic!("expected a spawn action, got {:?}", action_name(other)),
    }
}

#[test]
fn test_connect_user_path_not_overwritten() {
    let mut env = EnvMap::new();
    env.insert("PATH".to_string(), "/custom/user/path:/another/path".to_string());
    let t = StdioTransport::new(
        "node".to_string(),
        vec![],
        env,
        "test-space".to_string(),
        "test-server".to_string(),
        false,
        30_000,
    );
    let state = ConnectState::LocatingCommand {
        shell_path: Some("/resolved/bin".to_string()),
    };
    let (_state, actions) = t.connect_step(
        state,
        ConnectEvent::CommandLocated(Ok("/usr/bin/node".to_string())),
    );
    match &actions[0] {
        ConnectAction::SpawnProcess { env, .. } => {
            assert_eq!(
                env.get("PATH"),
                Some(&"/custom/user/path:/another/path".to_string()),
                "User's custom PATH should be preserved, not overwritten"
            );
        }
        other => panic!("expected a spawn action, got {:?}", action_name(other)),
    }
}

#[test]
fn test_connect_spawn_success_starts_diagnostics_and_handshake() {
    let t = transport("node");
    let state = ConnectState::Spawning {
        shell_path: None,
        command_path: "/usr/bin/node".to_string(),
    };
    let (state, actions) = t.connect_step(
        state,
        ConnectEvent::SpawnSucceeded { stderr_captured: true },
    );
    assert!(matches!(state, ConnectState::Handshaking));
    assert_eq!(actions.len(), 2);
    assert!(matches!(actions[0], ConnectAction::StartDiagnostics));
    assert!(matches!(
        actions[1],
        ConnectAction::BeginHandshake { timeout_ms: 30_000 }
    ));
}

#[test]
fn test_connect_spawn_success_without_stderr_capture() {
    let t = transport("node");
    let state = ConnectState::Spawning {
        shell_path: None,
        command_path: "/usr/bin/node".to_string(),
    };
    let (_state, actions) = t.connect_step(
        state,
        ConnectEvent::SpawnSucceeded { stderr_captured: false },
    );
    assert_eq!(actions.len(), 1);
    assert!(matches!(
        actions[0],
        ConnectAction::BeginHandshake { timeout_ms: 30_000 }
    ));
}

#[test]
fn test_connect_spawn_failure_message() {
    let t = transport("node");
    let state = ConnectState::Spawning {
        shell_path: None,
        command_path: "/usr/bin/node".to_string(),
    };
    let (state, _actions) = t.connect_step(
        state,
        ConnectEvent::SpawnFailed("permission denied".to_string()),
    );
    match state {
        ConnectState::Done(TransportConnectResult::Failed(msg)) => {
            assert_eq!(msg, "Failed to spawn process: permission denied.");
        }
        _ => panic!("Expected a failed outcome"),
    }
}

#[test]
fn test_connect_handshake_success() {
    let t = transport("node");
    let (state, actions) = t.connect_step(ConnectState::Handshaking, ConnectEvent::HandshakeSucceeded);
    assert!(matches!(
        state,
        ConnectState::Done(TransportConnectResult::Connected)
    ));
    assert_eq!(actions.len(), 2);
    match &actions[0] {
        ConnectAction::EmitLog(log) => {
            assert_eq!(log.message, "Server connected successfully");
            assert_eq!(log.level, LogLevel::Info);
        }
        other => panic!("expected a log action, got {:?}", action_name(other)),
    }
    assert!(matches!(
        actions[1],
        ConnectAction::Finish(TransportConnectResult::Connected)
    ));
}

#[test]
fn test_connect_handshake_failure_message() {
    let t = transport("node");
    let (state, _actions) = t.connect_step(
        ConnectState::Handshaking,
        ConnectEvent::HandshakeFailed("connection reset".to_string()),
    );
    match state {
        ConnectState::Done(TransportConnectResult::Failed(msg)) => {
            assert_eq!(msg, "MCP handshake failed: connection reset.");
        }
        _ => panic!("Expected a failed outcome"),
    }
}

#[test]
fn test_connect_timeout_message() {
    let t = transport("node");
    let (state, _actions) = t.connect_step(ConnectState::Handshaking, ConnectEvent::HandshakeTimedOut);
    match state {
        ConnectState::Done(TransportConnectResult::Failed(msg)) => {
            assert_eq!(msg, "Connection timeout (30s).");
            assert!(msg.contains("timeout") || msg.contains("Connection timeout"));
        }
        _ => panic!("Expected a failed outcome"),
    }
}

#[test]
fn test_connect_ignores_mismatched_event() {
    let t = transport("node");
    let (state, actions) = t.connect_step(ConnectState::Idle, ConnectEvent::HandshakeSucceeded);
    assert!(matches!(state, ConnectState::Idle));
    assert!(actions.is_empty());
}

fn action_name(a: &ConnectAction) -> &'static str {
    match a {
        ConnectAction::ResolveEnvironment => "ResolveEnvironment",
        ConnectAction::LocateCommand { .. } => "LocateCommand",
        ConnectAction::SpawnProcess { .. } => "SpawnProcess",
        ConnectAction::StartDiagnostics => "StartDiagnostics",
        ConnectAction::BeginHandshake { .. } => "BeginHandshake",
        ConnectAction::EmitLog(_) => "EmitLog",
        ConnectAction::Finish(_) => "Finish",
    }
}

#[test]
fn test_locate_outcome_prefers_first() {
    assert_eq!(
        locate_outcome(Some("/bin/sh".to_string()), None),
        Ok("/bin/sh".to_string())
    );
    assert_eq!(
        locate_outcome(None, Some("/bin/sh.exe".to_string())),
        Ok("/bin/sh.exe".to_string())
    );
    assert_eq!(locate_outcome(None, None), Err(LocateError::NotFound));
}

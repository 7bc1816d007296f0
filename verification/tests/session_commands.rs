use remote_sessions::cc_parser::{parse_control_output, ControlEvent};
use remote_sessions::commands::{
    kill_session_cmd, list_sessions_cmd, new_session_cmd, parse_sessions, shell_escape,
    CONTROL_SESSION_NAME, SESSIONS_FORMAT,
};
use remote_sessions::probe::{
    capabilities_from_payload, classify_ssh_error, extract_capabilities_payload, BEGIN_MARKER,
    END_MARKER,
};
use remote_sessions::types::{HostCapabilities, HostError, RootAccess};

fn line(parts: &[&str]) -> String {
    parts.join("|")
}

fn collect(input: &str) -> Vec<ControlEvent> {
    parse_control_output(input)
}

fn wrap_payload(json: &str) -> String {
    format!("preamble noise\n{BEGIN_MARKER}\n{json}\n{END_MARKER}\nsuffix noise\n")
}

fn string_field(v: &serde_json::Value, name: &str) -> Result<String, String> {
    match v.get(name) {
        Some(serde_json::Value::String(s)) => Ok(s.clone()),
        Some(_) => Err(format!("invalid type for `{name}`")),
        None => Err(format!("missing field `{name}`")),
    }
}

fn bool_field(v: &serde_json::Value, name: &str) -> Result<bool, String> {
    match v.get(name) {
        Some(serde_json::Value::Bool(b)) => Ok(*b),
        Some(_) => Err(format!("invalid type for `{name}`")),
        None => Err(format!("missing field `{name}`")),
    }
}

fn decode(json: &str) -> Result<HostCapabilities, String> {
    let v: serde_json::Value = serde_json::from_str(json).map_err(|e| e.to_string())?;
    let root_access = match string_field(&v, "root_access")?.as_str() {
        "is_root" => RootAccess::IsRoot,
        "can_run_sudo" => RootAccess::CanRunSudo,
        "no_root_access" => RootAccess::NoRootAccess,
        other => return Err(format!("unknown variant `{other}`")),
    };
    Ok(HostCapabilities {
        tmux_bin: string_field(&v, "tmux_bin")?,
        tmux_version: string_field(&v, "tmux_version")?,
        tmux_supported: bool_field(&v, "tmux_supported")?,
        passthrough: bool_field(&v, "passthrough")?,
        shell_integration: bool_field(&v, "shell_integration")?,
        os: string_field(&v, "os")?,
        pkg: string_field(&v, "pkg")?,
        root_access,
    })
}

fn extract_capabilities(out: &str) -> Result<HostCapabilities, HostError> {
    let json = extract_capabilities_payload(out)?;
    let decoded = decode(&json);
    capabilities_from_payload(&json, decoded)
}

#[test]
fn list_sessions_cmd_uses_canonical_format() {
    assert_eq!(
        list_sessions_cmd(),
        format!("list-sessions -F '{SESSIONS_FORMAT}'")
    );
}

#[test]
fn new_session_cmd_uses_unquoted_simple_name() {
    assert_eq!(new_session_cmd("work", None), "new-session -d -s work");
}

#[test]
fn new_session_cmd_quotes_name_with_spaces() {
    assert_eq!(
        new_session_cmd("my work", None),
        "new-session -d -s 'my work'"
    );
}

#[test]
fn new_session_cmd_includes_quoted_command_when_provided() {
    assert_eq!(
        new_session_cmd("work", Some("htop --tree")),
        "new-session -d -s work 'htop --tree'"
    );
}

#[test]
fn new_session_cmd_skips_empty_command() {
    assert_eq!(new_session_cmd("work", Some("")), "new-session -d -s work");
}

#[test]
fn kill_session_cmd_quotes_name_with_special_chars() {
    assert_eq!(kill_session_cmd("a b"), "kill-session -t 'a b'");
}

#[test]
fn shell_escape_passes_alphanumeric_through_unchanged() {
    assert_eq!(shell_escape("simple_name-1.2"), "simple_name-1.2");
}

#[test]
fn shell_escape_quotes_value_with_spaces() {
    assert_eq!(shell_escape("foo bar"), "'foo bar'");
}

#[test]
fn shell_escape_breaks_out_single_quote_with_posix_idiom() {
    // POSIX sh: 'X' '\'' 'Y' concatenates to literal "X'Y".
    assert_eq!(shell_escape("O'Brien"), "'O'\\''Brien'");
}

#[test]
fn shell_escape_empty_string_is_quoted_empty() {
    assert_eq!(shell_escape(""), "''");
}

#[test]
fn parse_sessions_skips_control_session_by_name() {
    let lines = vec![
        line(&["$0", CONTROL_SESSION_NAME, "1700000000", "1", "bash"]),
        line(&["$1", "work", "1700000100", "0", "zsh"]),
    ];
    let parsed = parse_sessions(&lines, None);
    assert_eq!(parsed.len(), 1);
    assert_eq!(parsed[0].session_id, "$1");
    assert_eq!(parsed[0].name, "work");
    assert_eq!(parsed[0].current_command, "zsh");
}

#[test]
fn parse_sessions_filters_excluded_session_id() {
    let lines = vec![
        line(&["$0", "main", "1700000000", "1", "bash"]),
        line(&["$1", "other", "1700000100", "0", "zsh"]),
    ];
    let parsed = parse_sessions(&lines, Some("$0"));
    assert_eq!(parsed.len(), 1);
    assert_eq!(parsed[0].session_id, "$1");
}

#[test]
fn parse_sessions_drops_malformed_rows_without_panicking() {
    let lines = vec![
        "only-one-field".into(),
        line(&["$1", "name", "not-a-number", "1", "bash"]),
        line(&["$2", "good", "1700000000", "1", "bash"]),
    ];
    let parsed = parse_sessions(&lines, None);
    assert_eq!(parsed.len(), 1);
    assert_eq!(parsed[0].session_id, "$2");
}

#[test]
fn parse_sessions_treats_missing_current_command_as_empty() {
    let lines = vec![line(&["$0", "main", "1700000000", "1"])];
    let parsed = parse_sessions(&lines, None);
    assert_eq!(parsed.len(), 1);
    assert_eq!(parsed[0].current_command, "");
}

#[test]
fn extract_capabilities_parses_well_formed_payload() {
    let payload = wrap_payload(
        r#"{
            "tmux_bin": "/usr/bin/tmux",
            "tmux_version": "3.3a",
            "tmux_supported": true,
            "passthrough": true,
            "shell_integration": true,
            "os": "linux",
            "pkg": "apt",
            "root_access": "can_run_sudo"
        }"#,
    );
    let caps = extract_capabilities(&payload).expect("well-formed payload");
    assert_eq!(caps.tmux_version, "3.3a");
    assert!(caps.tmux_supported);
    assert_eq!(caps.os, "linux");
}

#[test]
fn extract_capabilities_missing_begin_marker_returns_probe_malformed() {
    let err = extract_capabilities("no markers here").unwrap_err();
    assert!(matches!(err, HostError::ProbeMalformed(_)));
}

#[test]
fn extract_capabilities_missing_end_marker_returns_probe_malformed() {
    let err = extract_capabilities(&format!("{BEGIN_MARKER}\n{{}}\n")).unwrap_err();
    assert!(matches!(err, HostError::ProbeMalformed(_)));
}

#[test]
fn extract_capabilities_invalid_json_returns_probe_malformed() {
    let payload = wrap_payload("not json at all");
    let err = extract_capabilities(&payload).unwrap_err();
    match err {
        HostError::ProbeMalformed(detail) => assert!(detail.contains("not json at all")),
        other => panic!("expected ProbeMalformed, got {other:?}"),
    }
}

#[test]
fn classify_ssh_error_recognizes_permission_denied() {
    let err = classify_ssh_error("foo@bar: Permission denied (publickey).");
    assert!(matches!(err, HostError::SshAuthFailed(_)));
}

#[test]
fn classify_ssh_error_recognizes_generic_authentication_failures() {
    let err = classify_ssh_error("Authentication failed.");
    assert!(matches!(err, HostError::SshAuthFailed(_)));
}

#[test]
fn classify_ssh_error_recognizes_unreachable_phrases() {
    for stderr in [
        "ssh: Could not resolve hostname foo: Name or service not known",
        "ssh: connect to host foo port 22: No route to host",
        "ssh: connect to host foo port 22: Connection refused",
        "ssh: connect to host foo port 22: Connection timed out",
        "ssh: connect to host foo port 22: Operation timed out",
        "ssh: connect to host foo port 22: Network is unreachable",
    ] {
        let err = classify_ssh_error(stderr);
        assert!(
            matches!(err, HostError::HostUnreachable(_)),
            "stderr={stderr:?} classified as {err:?}",
        );
    }
}

#[test]
fn classify_ssh_error_empty_input_falls_back_to_generic() {
    let err = classify_ssh_error("");
    match err {
        HostError::Other(msg) => assert_eq!(msg, "ssh failed"),
        other => panic!("expected Other(\"ssh failed\"), got {other:?}"),
    }
}

#[test]
fn classify_ssh_error_unknown_text_preserves_first_nonempty_line() {
    let err = classify_ssh_error("\n\nweird tls handshake error\nfollowup noise\n");
    match err {
        HostError::Other(msg) => assert_eq!(msg, "weird tls handshake error"),
        other => panic!("expected Other(_), got {other:?}"),
    }
}

#[test]
fn begin_end_block_accumulates_payload_lines() {
    let input = "%begin 1700000000 1 0\n\
                 sess-1|main|1700000000|1|bash\n\
                 sess-2|work|1700000000|0|zsh\n\
                 %end 1700000000 1 0\n";
    let events = collect(input);
    assert_eq!(
        events,
        vec![
            ControlEvent::Begin { id: 1 },
            ControlEvent::End {
                id: 1,
                output: vec![
                    "sess-1|main|1700000000|1|bash".into(),
                    "sess-2|work|1700000000|0|zsh".into(),
                ],
            },
        ]
    );
}

#[test]
fn error_block_returns_payload_lines() {
    let input = "%begin 1700000000 7 0\n\
                 can't find session: foo\n\
                 %error 1700000000 7 0\n";
    let events = collect(input);
    assert_eq!(
        events,
        vec![
            ControlEvent::Begin { id: 7 },
            ControlEvent::Error {
                id: 7,
                output: vec!["can't find session: foo".into()],
            },
        ]
    );
}

#[test]
fn session_changed_splits_id_and_name() {
    let events = collect("%session-changed $0 main\n");
    assert_eq!(
        events,
        vec![ControlEvent::SessionChanged {
            session_id: "$0".into(),
            name: "main".into(),
        }]
    );
}

#[test]
fn session_changed_with_name_containing_spaces_keeps_trailing_segments() {
    let events = collect("%session-changed $0 my session with spaces\n");
    assert_eq!(
        events,
        vec![ControlEvent::SessionChanged {
            session_id: "$0".into(),
            name: "my session with spaces".into(),
        }]
    );
}

#[test]
fn client_session_changed_splits_three_segments() {
    let events = collect("%client-session-changed /dev/pts/0 $0 work\n");
    assert_eq!(
        events,
        vec![ControlEvent::ClientSessionChanged {
            tty: "/dev/pts/0".into(),
            session_id: "$0".into(),
            name: "work".into(),
        }]
    );
}

#[test]
fn exit_without_reason_is_none() {
    let events = collect("%exit\n");
    assert_eq!(events, vec![ControlEvent::Exit { reason: None }]);
}

#[test]
fn exit_with_reason_preserves_trailing_text() {
    let events = collect("%exit server exited\n");
    assert_eq!(
        events,
        vec![ControlEvent::Exit {
            reason: Some("server exited".into()),
        }]
    );
}

#[test]
fn unknown_percent_line_is_preserved_for_observation() {
    let events = collect("%pane-mode-changed 0 0\n");
    assert_eq!(
        events,
        vec![ControlEvent::Unknown("%pane-mode-changed 0 0".into())]
    );
}

#[test]
fn sessions_changed_event_is_dispatched() {
    let events = collect("%sessions-changed\n");
    assert_eq!(events, vec![ControlEvent::SessionsChanged]);
}

#[test]
fn config_error_carries_full_line_text() {
    let events = collect("%config-error unknown option foo\n");
    assert_eq!(
        events,
        vec![ControlEvent::ConfigError {
            line: "unknown option foo".into(),
        }]
    );
}

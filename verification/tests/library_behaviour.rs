use remote_sessions::attach_registry::{RemoteAttachInfo, RemoteAttachRegistry};
use remote_sessions::cc_parser::{parse_control_output, ControlEvent, ControlParser, LineOutcome};
use remote_sessions::commands::{heartbeat_cmd, parse_sessions, shell_escape};
use remote_sessions::connection::{
    command_result, control_client_args, master_args, master_control_args,
    master_handshake_error, ConnectionEvent, Pending, ReaderAction, ReaderState,
};
use remote_sessions::host_form::{
    build_submission, focus_for_error, form_fields_for, heartbeat_from_text, heartbeat_update,
    test_connection_outcome, FormField, HostFormFields, TestConnectionState,
};
use remote_sessions::model::{socket_file_name, RemoteSessionsEvent, RemoteSessionsModel};
use remote_sessions::panel::{
    build_list_items, command_basename, detect_cli_agent, error_detail_shown, format_subtitle,
    host_row_click, host_row_controls, host_target, next_default_session_name, subtitle_summary,
    HostRowControl, ListItem, PanelEffect, PanelState, RemoteSessionsPanelAction,
};
use remote_sessions::probe::{check_tmux_supported, probe_ssh_args};
use remote_sessions::remote_hosts::{current_unix_time, RemoteHost, RemoteSessionsSettings};
use remote_sessions::ssh_args::{target_args, target_args_shell_quoted};
use remote_sessions::types::{
    HostCapabilities, HostError, HostState, HostStatus, RemoteTmuxSession, RootAccess,
};
use remote_sessions::working_dir_editor::WorkingDirEditor;

fn host(key: &str, name: &str) -> RemoteHost {
    RemoteHost {
        local_host_key: key.to_string(),
        alias: format!("alias-{key}"),
        host: name.to_string(),
        port: 22,
        identity_file: None,
        ssh_options: Vec::new(),
        created_at: 1_700_000_000,
    }
}

fn caps(version: &str, supported: bool) -> HostCapabilities {
    HostCapabilities {
        tmux_bin: "/usr/bin/tmux".to_string(),
        tmux_version: version.to_string(),
        tmux_supported: supported,
        passthrough: true,
        shell_integration: true,
        os: "linux".to_string(),
        pkg: "apt".to_string(),
        root_access: RootAccess::CanRunSudo,
    }
}

fn session(id: &str, name: &str, attached: u32, cmd: &str) -> RemoteTmuxSession {
    RemoteTmuxSession {
        session_id: id.to_string(),
        name: name.to_string(),
        created_unix: 1_700_000_000,
        attached_count: attached,
        current_command: cmd.to_string(),
    }
}

fn state(key: &str, status: HostStatus) -> HostState {
    HostState {
        local_host_key: key.to_string(),
        status,
        capabilities: None,
        sessions: Vec::new(),
        last_error_detail: None,
    }
}

fn fields(alias: &str, host: &str, port: &str, identity: &str, options: &str) -> HostFormFields {
    HostFormFields {
        alias: alias.to_string(),
        host: host.to_string(),
        port: port.to_string(),
        identity_file: identity.to_string(),
        ssh_options: options.to_string(),
    }
}

// ---------------------------------------------------------------------------
// Commands and quoting
// ---------------------------------------------------------------------------

#[test]
fn shell_escape_reads_back_as_the_original_word() {
    for original in ["plain", "two words", "O'Brien", "", "a'b'c", "$HOME", "tab\there"] {
        let escaped = shell_escape(original);
        let words = shell_words::split(&escaped).expect("escaped text is one shell word");
        assert_eq!(words, vec![original.to_string()], "escaped as {escaped}");
    }
}

#[test]
fn shell_escape_quotes_non_ascii_letters() {
    assert_eq!(shell_escape("café"), "'café'");
}

#[test]
fn heartbeat_cmd_asks_for_the_client_pid() {
    assert_eq!(heartbeat_cmd(), "display-message -p '#{client_pid}'");
}

#[test]
fn parse_sessions_reads_all_fields_of_a_full_row() {
    let lines = vec!["$3|dev|1700000200|2|4242|vim notes.txt".to_string()];
    let parsed = parse_sessions(&lines, None);
    assert_eq!(parsed, vec![session("$3", "dev", 2, "vim notes.txt")]
        .into_iter()
        .map(|mut s| {
            s.created_unix = 1_700_000_200;
            s
        })
        .collect::<Vec<_>>());
}

#[test]
fn parse_sessions_drops_rows_with_bad_attached_count() {
    let lines = vec!["$1|x|1700000000|many|bash".to_string()];
    assert!(parse_sessions(&lines, None).is_empty());
}

// ---------------------------------------------------------------------------
// Control-mode parsing
// ---------------------------------------------------------------------------

#[test]
fn block_lines_keep_their_text_without_crlf() {
    let events = parse_control_output("%begin 1 5 0\r\nfoo bar\r\n\r\n%end 1 5 0\r\n");
    assert_eq!(
        events,
        vec![
            ControlEvent::Begin { id: 5 },
            ControlEvent::End { id: 5, output: vec!["foo bar".to_string(), String::new()] },
        ]
    );
}

#[test]
fn end_without_begin_carries_no_lines() {
    let events = parse_control_output("%end 1 9 0\n");
    assert_eq!(events, vec![ControlEvent::End { id: 9, output: Vec::new() }]);
}

#[test]
fn block_header_without_id_ends_the_stream() {
    let events = parse_control_output("%sessions-changed\n%begin 1700000000\n%sessions-changed\n");
    assert_eq!(events, vec![ControlEvent::SessionsChanged]);
}

#[test]
fn notifications_inside_a_block_are_collected_as_lines() {
    let events = parse_control_output("%begin 1 2 0\n%sessions-changed\n%end 1 2 0\n");
    assert_eq!(
        events,
        vec![
            ControlEvent::Begin { id: 2 },
            ControlEvent::End { id: 2, output: vec!["%sessions-changed".to_string()] },
        ]
    );
}

#[test]
fn plain_lines_outside_blocks_are_skipped_and_last_line_needs_no_newline() {
    let events = parse_control_output("hello\n%client-detached /dev/pts/3");
    assert_eq!(events, vec![ControlEvent::ClientDetached { tty: "/dev/pts/3".to_string() }]);
}

#[test]
fn client_session_changed_without_session_id_ends_the_stream() {
    let events = parse_control_output("%client-session-changed /dev/pts/0\n%exit\n");
    assert!(events.is_empty());
}

#[test]
fn renamed_and_window_changed_notifications_are_reported() {
    let events = parse_control_output("%session-renamed $2 new name\n%session-window-changed $2 @4\n");
    assert_eq!(
        events,
        vec![
            ControlEvent::SessionRenamed { session_id: "$2".to_string(), new_name: "new name".to_string() },
            ControlEvent::SessionWindowChanged { session_id: "$2 @4".to_string() },
        ]
    );
}

#[test]
fn feeding_lines_one_at_a_time_tracks_the_open_block() {
    let mut parser = ControlParser::new();
    assert!(matches!(parser.feed_line("%begin 1 3 0\n"), LineOutcome::Event(ControlEvent::Begin { id: 3 })));
    assert!(matches!(parser.feed_line("row\n"), LineOutcome::Continue));
    match parser.feed_line("%error 1 3 0\n") {
        LineOutcome::Event(ControlEvent::Error { id, output }) => {
            assert_eq!(id, 3);
            assert_eq!(output, vec!["row".to_string()]);
        },
        _ => panic!("expected an error block"),
    }
    assert!(matches!(parser.feed_line("%begin nope\n"), LineOutcome::Stop));
}

// ---------------------------------------------------------------------------
// Host configuration
// ---------------------------------------------------------------------------

#[test]
fn new_local_host_keys_are_distinct_hyphenated_uuids() {
    let a = RemoteHost::new_local_host_key().expect("a working random source");
    let b = RemoteHost::new_local_host_key().expect("a working random source");
    assert_ne!(a, b);
    for key in [&a, &b] {
        assert_eq!(key.len(), 36);
        for (i, c) in key.chars().enumerate() {
            if [8, 13, 18, 23].contains(&i) {
                assert_eq!(c, '-');
            } else if i == 14 {
                assert_eq!(c, '4');
            } else {
                assert!(c.is_ascii_hexdigit() && !c.is_ascii_uppercase());
            }
        }
    }
}

#[test]
fn current_unix_time_is_after_2017() {
    assert!(current_unix_time().expect("a readable clock") > 1_500_000_000);
}

#[test]
fn identity_file_arg_ignores_empty_path() {
    let mut h = host("k", "box");
    assert_eq!(h.identity_file_arg(), None);
    h.identity_file = Some(String::new());
    assert_eq!(h.identity_file_arg(), None);
    h.identity_file = Some("~/.ssh/id".to_string());
    assert_eq!(h.identity_file_arg(), Some("~/.ssh/id"));
}

#[test]
fn settings_default_to_no_hosts_and_thirty_second_heartbeat() {
    let s = RemoteSessionsSettings::default();
    assert!(s.hosts.is_empty());
    assert_eq!(s.heartbeat_interval_seconds, 30);
}

#[test]
fn upsert_replaces_the_host_with_the_same_key_and_appends_others() {
    let mut s = RemoteSessionsSettings::default();
    s.upsert_host(host("a", "one"));
    s.upsert_host(host("b", "two"));
    s.upsert_host(host("a", "three"));
    assert_eq!(s.hosts.len(), 2);
    assert_eq!(s.hosts[0].host, "three");
    assert_eq!(s.hosts[1].host, "two");
    assert_eq!(s.host_by_key("a").map(|h| h.host.clone()), Some("three".to_string()));
    assert_eq!(s.position_of("b"), Some(1));
    assert_eq!(s.position_of("zzz"), None);
}

#[test]
fn upserting_the_same_host_twice_equals_once() {
    let mut once = RemoteSessionsSettings::default();
    once.upsert_host(host("a", "one"));
    let mut twice = RemoteSessionsSettings::default();
    twice.upsert_host(host("a", "one"));
    twice.upsert_host(host("a", "one"));
    assert_eq!(once.hosts, twice.hosts);
}

#[test]
fn remove_host_drops_only_that_key() {
    let mut s = RemoteSessionsSettings::default();
    s.upsert_host(host("a", "one"));
    s.upsert_host(host("b", "two"));
    s.remove_host("a");
    assert!(s.host_by_key("a").is_none());
    assert_eq!(s.host_by_key("b").map(|h| h.host.clone()), Some("two".to_string()));
    s.remove_host("missing");
    assert_eq!(s.hosts.len(), 1);
}

#[test]
fn target_args_list_port_identity_options_then_host() {
    let mut h = host("k", "user@box");
    h.port = 2222;
    h.identity_file = Some("~/.ssh/id".to_string());
    h.ssh_options = vec!["-o".to_string(), "ProxyJump=bastion".to_string()];
    assert_eq!(
        target_args(&h),
        vec!["-p", "2222", "-i", "~/.ssh/id", "-o", "ProxyJump=bastion", "user@box"]
    );
}

#[test]
fn target_args_shell_quoted_quotes_user_values() {
    let mut h = host("k", "user@box");
    h.identity_file = Some("~/.ssh/my key".to_string());
    h.ssh_options = vec!["ProxyJump=bastion".to_string(), "plain".to_string()];
    assert_eq!(
        target_args_shell_quoted(&h),
        vec!["-p", "22", "-i", "'~/.ssh/my key'", "'ProxyJump=bastion'", "plain", "user@box"]
    );
}

#[test]
fn probe_runs_bash_from_stdin_in_batch_mode() {
    let h = host("k", "box");
    assert_eq!(
        probe_ssh_args(&h),
        vec![
            "-o",
            "BatchMode=yes",
            "-o",
            "ConnectTimeout=8",
            "-o",
            "StrictHostKeyChecking=accept-new",
            "-p",
            "22",
            "box",
            "bash -s"
        ]
    );
}

#[test]
fn old_tmux_is_refused_with_its_version() {
    assert!(check_tmux_supported(caps("3.3a", true)).is_ok());
    assert_eq!(
        check_tmux_supported(caps("2.9", false)),
        Err(HostError::Other("tmux 2.9 not supported (need 3.2+)".to_string()))
    );
}

#[test]
fn host_error_messages_match_each_variant() {
    assert_eq!(HostError::SshAuthFailed("bad key".into()).to_string(), "SSH authentication failed: bad key");
    assert_eq!(HostError::SshAuthFailed(String::new()).to_string(), "SSH authentication failed");
    assert_eq!(HostError::HostUnreachable("no route".into()).to_string(), "Host unreachable: no route");
    assert_eq!(HostError::HostUnreachable(String::new()).to_string(), "Host unreachable");
    assert_eq!(HostError::ProbeTimedOut.to_string(), "Probe timed out");
    assert_eq!(HostError::ProbeMalformed("x".into()).to_string(), "Probe response malformed: x");
    assert_eq!(HostError::TmuxFailedToStart("y".into()).to_string(), "tmux failed to start: y");
    assert_eq!(HostError::TmuxFailedToStart(String::new()).to_string(), "tmux failed to start");
    assert_eq!(HostError::MasterDied.to_string(), "Control connection died");
    assert_eq!(HostError::Other("z".into()).to_string(), "z");
}

#[test]
fn classify_ssh_error_keeps_trimmed_detail() {
    assert_eq!(
        classify(" \n  Permission denied (publickey).  \r\nmore\n"),
        HostError::SshAuthFailed("Permission denied (publickey).".to_string())
    );
}

fn classify(s: &str) -> HostError {
    remote_sessions::probe::classify_ssh_error(s)
}

// ---------------------------------------------------------------------------
// Working directory editors
// ---------------------------------------------------------------------------

#[test]
fn working_dir_editor_names_and_commands() {
    assert_eq!(WorkingDirEditor::default(), WorkingDirEditor::VsCode);
    assert_eq!(WorkingDirEditor::VsCode.display_name(), "VS Code");
    assert_eq!(WorkingDirEditor::Cursor.command(), "cursor");
    assert_eq!(WorkingDirEditor::Antigravity.display_name(), "Antigravity");
    assert_eq!(WorkingDirEditor::Zed.to_string(), "Zed");
    assert_eq!(WorkingDirEditor::Windsurf.command(), "windsurf");
}

#[test]
fn working_dir_editor_ssh_arguments() {
    assert_eq!(
        WorkingDirEditor::Cursor.ssh_remote_args("box", "/srv/app"),
        vec!["--remote", "ssh-remote+box", "/srv/app"]
    );
    assert_eq!(WorkingDirEditor::Zed.ssh_remote_args("box", "srv/app"), vec!["ssh://box/srv/app"]);
    assert_eq!(WorkingDirEditor::Zed.ssh_remote_args("box", "/srv"), vec!["ssh://box/srv"]);
}

// ---------------------------------------------------------------------------
// The host form
// ---------------------------------------------------------------------------

#[test]
fn form_requires_alias_host_and_a_valid_port() {
    assert_eq!(build_submission(&fields(" ", "box", "", "", "")).unwrap_err(), "Alias is required.");
    assert_eq!(build_submission(&fields("a", "\t", "", "", "")).unwrap_err(), "Host is required.");
    for port in ["0", "65536", "abc", "-1", "2 2"] {
        assert_eq!(
            build_submission(&fields("a", "box", port, "", "")).unwrap_err(),
            "Port must be a number between 1 and 65535.",
            "port {port:?}"
        );
    }
    assert_eq!(focus_for_error("Alias is required."), Some(FormField::Alias));
    assert_eq!(focus_for_error("Host is required."), Some(FormField::Host));
    assert_eq!(focus_for_error("Port must be a number between 1 and 65535."), Some(FormField::Port));
    assert_eq!(focus_for_error("something else"), None);
}

#[test]
fn saved_submission_keeps_trimmed_fields_and_split_options() {
    let sub = build_submission(&fields(" prod ", " user@box ", " 2200 ", "  ", "A=1, B=2\n,, C=3 ")).unwrap();
    let mut s = RemoteSessionsSettings::default();
    assert_eq!(s.save_submission(None, sub), Ok(()));
    assert_eq!(s.hosts.len(), 1);
    let h = &s.hosts[0];
    assert_eq!(h.alias, "prod");
    assert_eq!(h.host, "user@box");
    assert_eq!(h.port, 2200);
    assert_eq!(h.identity_file, None);
    assert_eq!(h.ssh_options, vec!["A=1", "B=2", "C=3"]);
    assert_eq!(h.local_host_key.len(), 36);
    assert!(h.created_at > 1_500_000_000);
}

#[test]
fn editing_a_host_keeps_its_key_and_creation_time() {
    let mut s = RemoteSessionsSettings::default();
    s.upsert_host(host("k1", "old"));
    let sub = build_submission(&fields("renamed", "new", "", "~/.ssh/id", "")).unwrap();
    assert_eq!(s.save_submission(Some("k1".to_string()), sub), Ok(()));
    assert_eq!(s.hosts.len(), 1);
    assert_eq!(s.hosts[0].local_host_key, "k1");
    assert_eq!(s.hosts[0].created_at, 1_700_000_000);
    assert_eq!(s.hosts[0].port, 22);
    assert_eq!(s.hosts[0].identity_file, Some("~/.ssh/id".to_string()));
}

#[test]
fn form_opens_with_defaults_or_the_host() {
    let blank = form_fields_for(None);
    assert_eq!(blank.alias, "");
    assert_eq!(blank.port, "22");
    let mut h = host("k", "box");
    h.port = 2022;
    h.identity_file = Some("id".to_string());
    h.ssh_options = vec!["A=1".to_string(), "B=2".to_string()];
    let filled = form_fields_for(Some(&h));
    assert_eq!(filled.alias, "alias-k");
    assert_eq!(filled.host, "box");
    assert_eq!(filled.port, "2022");
    assert_eq!(filled.identity_file, "id");
    assert_eq!(filled.ssh_options, "A=1, B=2");
}

#[test]
fn heartbeat_text_is_clamped_to_the_allowed_range() {
    assert_eq!(heartbeat_from_text("5"), Some(10));
    assert_eq!(heartbeat_from_text("60"), Some(60));
    assert_eq!(heartbeat_from_text("500"), Some(120));
    assert_eq!(heartbeat_from_text("abc"), None);
    assert_eq!(heartbeat_from_text(""), None);
    assert_eq!(heartbeat_update("60", 60), None);
    assert_eq!(heartbeat_update("61", 60), Some(61));
    assert_eq!(heartbeat_update("x", 60), None);
}

#[test]
fn connection_test_outcome_texts() {
    match test_connection_outcome(&Ok(caps("3.4", true))) {
        TestConnectionState::Succeeded(s) => assert_eq!(s, "tmux 3.4 on linux"),
        other => panic!("unexpected {other:?}"),
    }
    match test_connection_outcome(&Err(HostError::ProbeTimedOut)) {
        TestConnectionState::Failed(s) => assert_eq!(s, "Probe timed out"),
        other => panic!("unexpected {other:?}"),
    }
}

// ---------------------------------------------------------------------------
// The control connection
// ---------------------------------------------------------------------------

#[test]
fn ssh_command_lines_for_master_and_client() {
    let h = host("k", "box");
    assert_eq!(
        control_client_args(&h, "/tmp/s.sock"),
        vec![
            "-tt",
            "-o",
            "ControlMaster=no",
            "-o",
            "ControlPath=/tmp/s.sock",
            "-o",
            "BatchMode=yes",
            "-p",
            "22",
            "box",
            "tmux -CC new-session -A -s __warp_ctrl"
        ]
    );
    let m = master_args(&h, "/tmp/s.sock");
    assert_eq!(m[0], "-N");
    assert_eq!(m[4], "ControlPath=/tmp/s.sock");
    assert_eq!(m[m.len() - 1], "box");
    assert_eq!(m.len(), 18);
    assert_eq!(
        master_control_args("check", "box", "/tmp/s.sock"),
        vec!["-O", "check", "-o", "ControlPath=/tmp/s.sock", "box"]
    );
}

#[test]
fn handshake_errors() {
    assert_eq!(
        master_handshake_error(""),
        HostError::HostUnreachable("ControlMaster handshake timed out".to_string())
    );
    assert_eq!(
        master_handshake_error("ssh: connect to host box port 22: Connection refused"),
        HostError::HostUnreachable("ssh: connect to host box port 22: Connection refused".to_string())
    );
}

#[test]
fn command_results_from_replies() {
    assert_eq!(command_result(Some(Ok(vec!["a".to_string()]))), Ok(vec!["a".to_string()]));
    assert_eq!(command_result(Some(Err("boom".to_string()))), Err(HostError::Other("boom".to_string())));
    assert_eq!(command_result(None), Err(HostError::Other("command response lost".to_string())));
}

#[test]
fn reader_handshake_then_refresh_then_session_list() {
    let mut r = ReaderState::new();
    assert!(matches!(r.on_event(ControlEvent::Begin { id: 0 }), ReaderAction::Nothing));
    assert!(matches!(r.on_event(ControlEvent::End { id: 0, output: Vec::new() }), ReaderAction::Refresh));
    assert!(matches!(r.on_event(ControlEvent::End { id: 1, output: Vec::new() }), ReaderAction::Nothing));
    assert!(matches!(
        r.on_event(ControlEvent::SessionChanged { session_id: "$0".into(), name: "__warp_ctrl".into() }),
        ReaderAction::Nothing
    ));
    r.push_pending(Pending::Refresh);
    let rows = vec![
        "$0|other|1700000000|1|1|bash".to_string(),
        "$1|work|1700000000|0|2|zsh".to_string(),
    ];
    match r.on_event(ControlEvent::End { id: 2, output: rows }) {
        ReaderAction::EmitSessions(list) => {
            assert_eq!(list.len(), 1);
            assert_eq!(list[0].session_id, "$1");
        },
        other => panic!("unexpected {other:?}"),
    }
    assert!(r.pending().is_empty());
}

#[test]
fn reader_answers_user_commands_in_order() {
    let mut r = ReaderState::new();
    r.push_pending(Pending::UserCommand(7));
    r.push_pending(Pending::UserCommand(8));
    r.push_pending(Pending::Refresh);
    match r.on_event(ControlEvent::End { id: 1, output: vec!["ok".to_string()] }) {
        ReaderAction::Reply { ticket, result } => {
            assert_eq!(ticket, 7);
            assert_eq!(result, Ok(vec!["ok".to_string()]));
        },
        other => panic!("unexpected {other:?}"),
    }
    match r.on_event(ControlEvent::Error { id: 2, output: vec!["a".to_string(), "b".to_string()] }) {
        ReaderAction::Reply { ticket, result } => {
            assert_eq!(ticket, 8);
            assert_eq!(result, Err("a\nb".to_string()));
        },
        other => panic!("unexpected {other:?}"),
    }
    match r.on_event(ControlEvent::Error { id: 3, output: vec!["no server running".to_string()] }) {
        ReaderAction::EmitSessions(list) => assert!(list.is_empty()),
        other => panic!("unexpected {other:?}"),
    }
    r.push_pending(Pending::UserCommand(9));
    r.cancel_last();
    assert!(r.pending().is_empty());
}

#[test]
fn reader_refreshes_on_changes_and_stops_on_exit() {
    let mut r = ReaderState::new();
    assert!(matches!(r.on_event(ControlEvent::SessionsChanged), ReaderAction::Refresh));
    assert!(matches!(r.on_event(ControlEvent::ClientDetached { tty: "t".into() }), ReaderAction::Refresh));
    assert!(matches!(r.on_event(ControlEvent::Unknown("%x".into())), ReaderAction::Nothing));
    match r.on_event(ControlEvent::Exit { reason: Some("bye".into()) }) {
        ReaderAction::Exit(reason) => assert_eq!(reason, Some("bye".to_string())),
        other => panic!("unexpected {other:?}"),
    }
}

// ---------------------------------------------------------------------------
// The model
// ---------------------------------------------------------------------------

#[test]
fn socket_file_names_are_sixteen_hex_digits() {
    assert_eq!(socket_file_name(0x1234_abcd), "000000001234abcd.sock");
    assert_eq!(socket_file_name(u64::MAX), "ffffffffffffffff.sock");
}

#[test]
fn ingesting_hosts_adds_and_removes_states() {
    let mut m = RemoteSessionsModel::new();
    let events = m.ingest_hosts(&[host("a", "one"), host("b", "two"), host("a", "dup")]);
    assert_eq!(
        events,
        vec![RemoteSessionsEvent::HostAdded("a".into()), RemoteSessionsEvent::HostAdded("b".into())]
    );
    assert!(matches!(m.host_state("a").unwrap().status, HostStatus::Disconnected));
    let again = m.ingest_hosts(&[host("a", "one"), host("b", "two")]);
    assert!(again.is_empty());
    let events = m.ingest_hosts(&[host("b", "two"), host("c", "three")]);
    assert_eq!(
        events,
        vec![RemoteSessionsEvent::HostAdded("c".into()), RemoteSessionsEvent::HostRemoved("a".into())]
    );
    assert!(m.host_state("a").is_none());
    assert!(m.host_state("c").is_some());
}

#[test]
fn connecting_a_host_updates_status_and_capabilities() {
    let mut m = RemoteSessionsModel::new();
    m.ingest_hosts(&[host("a", "one")]);
    assert_eq!(m.begin_connect("a"), Some(RemoteSessionsEvent::HostStatusChanged("a".into())));
    assert!(matches!(m.host_state("a").unwrap().status, HostStatus::Connecting));
    assert_eq!(m.begin_connect("a"), None);
    let events = m.finish_connect("a", Ok(caps("3.3a", true)));
    assert_eq!(
        events,
        vec![
            RemoteSessionsEvent::HostCapabilitiesUpdated("a".into()),
            RemoteSessionsEvent::HostStatusChanged("a".into()),
        ]
    );
    assert!(m.is_connected("a"));
    assert_eq!(m.begin_connect("a"), None);
    let st = m.host_state("a").unwrap();
    assert!(matches!(st.status, HostStatus::Connected));
    assert_eq!(st.capabilities.as_ref().unwrap().tmux_version, "3.3a");
    assert_eq!(
        m.create_session_command("a", "my work", Some("htop")),
        Some("new-session -d -s 'my work' htop".to_string())
    );
    assert_eq!(m.kill_session_command("a", "w"), Some("kill-session -t w".to_string()));
    assert_eq!(m.kill_session_command("zzz", "w"), None);
}

#[test]
fn failed_connections_record_the_error() {
    let mut m = RemoteSessionsModel::new();
    m.ingest_hosts(&[host("a", "one"), host("b", "two")]);
    m.begin_connect("a");
    m.finish_connect("a", Err(HostError::Other("tmux 2.9 not supported (need 3.2+)".into())));
    let st = m.host_state("a").unwrap();
    assert_eq!(st.status, HostStatus::Unsupported("tmux 2.9 not supported (need 3.2+)".into()));
    assert_eq!(st.last_error_detail, Some("tmux 2.9 not supported (need 3.2+)".to_string()));
    m.begin_connect("b");
    m.finish_connect("b", Err(HostError::ProbeTimedOut));
    let st = m.host_state("b").unwrap();
    assert_eq!(st.status, HostStatus::Error(HostError::ProbeTimedOut));
    assert_eq!(st.last_error_detail, Some("Probe timed out".to_string()));
    assert!(!m.is_connected("b"));
    assert_eq!(m.create_session_command("b", "x", None), None);
}

#[test]
fn connection_events_update_sessions_and_end_connections() {
    let mut m = RemoteSessionsModel::new();
    m.ingest_hosts(&[host("a", "one")]);
    m.begin_connect("a");
    m.finish_connect("a", Ok(caps("3.3a", true)));
    let e = m.handle_connection_event("a", ConnectionEvent::Sessions(vec![session("$1", "w", 1, "zsh")]));
    assert_eq!(e, RemoteSessionsEvent::HostSessionsUpdated("a".into()));
    assert_eq!(m.host_state("a").unwrap().sessions.len(), 1);
    let e = m.handle_connection_event("a", ConnectionEvent::Exit(Some("server exited".into())));
    assert_eq!(e, RemoteSessionsEvent::HostStatusChanged("a".into()));
    let st = m.host_state("a").unwrap();
    assert!(st.sessions.is_empty());
    assert_eq!(st.last_error_detail, Some("server exited".to_string()));
    assert!(matches!(st.status, HostStatus::Disconnected));
    assert!(!m.is_connected("a"));
    m.begin_connect("a");
    m.finish_connect("a", Ok(caps("3.3a", true)));
    m.handle_connection_event("a", ConnectionEvent::Error(HostError::MasterDied));
    let st = m.host_state("a").unwrap();
    assert_eq!(st.status, HostStatus::Error(HostError::MasterDied));
    assert_eq!(st.last_error_detail, Some("Control connection died".to_string()));
    m.begin_connect("a");
    m.finish_connect("a", Ok(caps("3.3a", true)));
    assert_eq!(m.disconnect("a"), RemoteSessionsEvent::HostStatusChanged("a".into()));
    assert!(matches!(m.host_state("a").unwrap().status, HostStatus::Disconnected));
    assert!(!m.is_connected("a"));
}

// ---------------------------------------------------------------------------
// The attach registry
// ---------------------------------------------------------------------------

fn info(host: &str, name: &str) -> RemoteAttachInfo {
    RemoteAttachInfo { local_host_key: host.to_string(), session_name: name.to_string() }
}

#[test]
fn registry_records_looks_up_and_forgets() {
    let mut r = RemoteAttachRegistry::new();
    r.record(1, info("h", "work"));
    r.record(2, info("h", "play"));
    r.record(3, info("g", "work"));
    r.record(1, info("h", "work2"));
    assert_eq!(r.lookup(1).map(|i| i.session_name.clone()), Some("work2".to_string()));
    r.forget_by_host("h", "play");
    assert!(r.lookup(2).is_none());
    assert!(r.lookup(1).is_some());
    assert!(r.lookup(3).is_some());
    r.forget_by_host("g", "work");
    assert!(r.lookup(3).is_none());
    assert!(r.lookup(99).is_none());
}

// ---------------------------------------------------------------------------
// The panel
// ---------------------------------------------------------------------------

#[test]
fn default_session_names_fill_the_first_gap() {
    assert_eq!(next_default_session_name(&[]), "session-1");
    let existing = vec!["session-1".to_string(), "session-3".to_string(), "main".to_string()];
    assert_eq!(next_default_session_name(&existing), "session-2");
    let existing = vec!["session-2".to_string(), "session-1".to_string()];
    assert_eq!(next_default_session_name(&existing), "session-3");
}

#[test]
fn host_targets_and_subtitles() {
    let mut h = host("k", "box");
    assert_eq!(host_target(&h), "box");
    h.port = 2222;
    assert_eq!(host_target(&h), "box:2222");
    assert_eq!(subtitle_summary(&state("k", HostStatus::Disconnected), "box"), "box");
    assert_eq!(subtitle_summary(&state("k", HostStatus::Connecting), "box"), "box · connecting…");
    let mut st = state("k", HostStatus::Connected);
    st.sessions = vec![session("$1", "a", 2, "zsh"), session("$2", "b", 0, "vim")];
    st.capabilities = Some(caps("3.3a", true));
    assert_eq!(subtitle_summary(&st, "box"), "box · 1/2 attached · tmux 3.3a");
    st.capabilities = None;
    assert_eq!(subtitle_summary(&st, "box"), "box · 1/2 attached");
    assert_eq!(subtitle_summary(&state("k", HostStatus::Error(HostError::MasterDied)), "box"), "box · error");
    assert_eq!(
        subtitle_summary(&state("k", HostStatus::Unsupported("old tmux".into())), "box"),
        "box · unsupported: old tmux"
    );
}

#[test]
fn error_detail_is_shown_only_in_error() {
    let mut st = state("k", HostStatus::Error(HostError::ProbeTimedOut));
    assert_eq!(error_detail_shown(&st), None);
    st.last_error_detail = Some("Probe timed out".into());
    assert_eq!(error_detail_shown(&st), Some("Probe timed out".to_string()));
    st.status = HostStatus::Disconnected;
    assert_eq!(error_detail_shown(&st), None);
}

#[test]
fn host_row_controls_depend_on_status_and_hover() {
    assert_eq!(
        host_row_controls(&HostStatus::Connected, true, true),
        vec![HostRowControl::Disconnect, HostRowControl::Remove, HostRowControl::Chevron { expanded: true }]
    );
    assert_eq!(
        host_row_controls(&HostStatus::Connected, false, false),
        vec![HostRowControl::Chevron { expanded: false }]
    );
    assert_eq!(
        host_row_controls(&HostStatus::Disconnected, false, true),
        vec![HostRowControl::Remove, HostRowControl::ConnectLabel]
    );
    assert_eq!(host_row_controls(&HostStatus::Connecting, false, true), vec![HostRowControl::Progress]);
    assert_eq!(
        host_row_controls(&HostStatus::Error(HostError::MasterDied), false, true),
        vec![HostRowControl::Retry, HostRowControl::Remove]
    );
    assert!(host_row_controls(&HostStatus::Unsupported("x".into()), false, false).is_empty());
    assert!(matches!(
        host_row_click(&HostStatus::Connected, "k"),
        Some(RemoteSessionsPanelAction::ToggleHostExpanded { key }) if key == "k"
    ));
    assert!(matches!(
        host_row_click(&HostStatus::Disconnected, "k"),
        Some(RemoteSessionsPanelAction::ConnectHost { key }) if key == "k"
    ));
    assert!(host_row_click(&HostStatus::Connecting, "k").is_none());
}

#[test]
fn session_row_subtitles() {
    assert_eq!(format_subtitle("  vim  ", true, 1), "vim · live");
    assert_eq!(format_subtitle("vim", true, 3), "vim · 3× live");
    assert_eq!(format_subtitle("", false, 0), "(no command) · idle");
}

#[test]
fn cli_agents_are_found_by_command_basename() {
    let prefixes = vec!["aider".to_string(), String::new(), "goose".to_string()];
    assert_eq!(command_basename("  /usr/local/bin/goose --full-auto "), Some("goose".to_string()));
    assert_eq!(command_basename("   "), None);
    assert_eq!(detect_cli_agent("/usr/local/bin/goose --full-auto", &prefixes), Some(2));
    assert_eq!(detect_cli_agent("aider", &prefixes), Some(0));
    assert_eq!(detect_cli_agent("aiderx", &prefixes), None);
    assert_eq!(detect_cli_agent("", &prefixes), None);
}

fn connected_model() -> RemoteSessionsModel {
    let mut m = RemoteSessionsModel::new();
    m.ingest_hosts(&[host("a", "one"), host("b", "two")]);
    m.begin_connect("a");
    m.finish_connect("a", Ok(caps("3.3a", true)));
    m.handle_connection_event(
        "a",
        ConnectionEvent::Sessions(vec![session("$1", "session-1", 1, "zsh"), session("$2", "x", 0, "")]),
    );
    m
}

#[test]
fn list_items_expand_only_connected_hosts() {
    let m = connected_model();
    let hosts = vec![host("a", "one"), host("b", "two")];
    let items = build_list_items(&hosts, &vec!["a".to_string(), "b".to_string()], &m);
    let shape: Vec<String> = items
        .iter()
        .map(|i| match i {
            ListItem::Host(k) => format!("host {k}"),
            ListItem::Session { host_key, session_index } => format!("session {host_key} {session_index}"),
            ListItem::NewSessionRow { host_key } => format!("new {host_key}"),
        })
        .collect();
    assert_eq!(shape, vec!["host a", "session a 0", "session a 1", "new a", "host b"]);
    let collapsed = build_list_items(&hosts, &Vec::new(), &m);
    assert_eq!(collapsed.len(), 2);
}

#[test]
fn panel_actions_produce_their_effects() {
    let m = connected_model();
    let mut settings = RemoteSessionsSettings::default();
    settings.upsert_host(host("a", "one"));
    let mut p = PanelState::new();

    let fx = p.handle_action(&RemoteSessionsPanelAction::ConnectHost { key: "a".into() }, &settings, &m);
    assert!(matches!(fx.as_slice(), [PanelEffect::Connect { key }] if key == "a"));
    let fx = p.handle_action(&RemoteSessionsPanelAction::ConnectHost { key: "zz".into() }, &settings, &m);
    assert!(fx.is_empty());

    let fx = p.handle_action(&RemoteSessionsPanelAction::CreateDefaultSession { key: "a".into() }, &settings, &m);
    assert!(matches!(
        fx.as_slice(),
        [PanelEffect::CreateSession { key, name }, PanelEffect::RebuildList, PanelEffect::Notify]
            if key == "a" && name == "session-2"
    ));

    let fx = p.handle_action(&RemoteSessionsPanelAction::ToggleHostExpanded { key: "a".into() }, &settings, &m);
    assert!(matches!(fx.as_slice(), [PanelEffect::RebuildList, PanelEffect::Notify]));
    assert_eq!(p.expanded_hosts(), &vec!["a".to_string()]);
    p.handle_action(&RemoteSessionsPanelAction::ToggleHostExpanded { key: "a".into() }, &settings, &m);
    assert!(p.expanded_hosts().is_empty());

    let fx = p.handle_action(
        &RemoteSessionsPanelAction::KillSession { key: "a".into(), name: "x".into() },
        &settings,
        &m,
    );
    assert!(matches!(
        fx.as_slice(),
        [PanelEffect::KillSession { .. }, PanelEffect::CloseAttachTab { key, name }] if key == "a" && name == "x"
    ));
}

#[test]
fn removing_a_host_waits_for_confirmation() {
    let m = connected_model();
    let settings = RemoteSessionsSettings::default();
    let mut p = PanelState::new();
    let fx = p.handle_action(&RemoteSessionsPanelAction::ConfirmRemoveHost, &settings, &m);
    assert!(matches!(fx.as_slice(), [PanelEffect::Notify]));

    p.handle_action(&RemoteSessionsPanelAction::RequestRemoveHost { key: "a".into() }, &settings, &m);
    assert_eq!(p.pending_remove(), Some(&"a".to_string()));
    p.handle_action(&RemoteSessionsPanelAction::CancelRemoveHost, &settings, &m);
    assert_eq!(p.pending_remove(), None);

    p.handle_action(&RemoteSessionsPanelAction::RequestRemoveHost { key: "a".into() }, &settings, &m);
    let fx = p.handle_action(&RemoteSessionsPanelAction::ConfirmRemoveHost, &settings, &m);
    assert!(matches!(
        fx.as_slice(),
        [PanelEffect::Disconnect { key: k1 }, PanelEffect::RemoveHost { key: k2 }, PanelEffect::Notify]
            if k1 == "a" && k2 == "a"
    ));
    assert_eq!(p.pending_remove(), None);

    p.handle_action(&RemoteSessionsPanelAction::RequestRemoveHost { key: "gone".into() }, &settings, &m);
    p.forget_removed_host(&[host("a", "one")]);
    assert_eq!(p.pending_remove(), None);
}

// ---------------------------------------------------------------------------
// The host form's state and the hosts page
// ---------------------------------------------------------------------------

use remote_sessions::host_form::{HostFormState, RemoteHostsPageAction, RemoteHostsPageEvent, SubmitOutcome};
use remote_sessions::hosts_page::{HostsPageEffect, HostsPageState};

#[test]
fn invalid_submission_keeps_the_message_until_an_edit() {
    let mut form = HostFormState::new();
    match form.submit(&fields("a", "", "", "", "")) {
        SubmitOutcome::Invalid(focus) => assert_eq!(focus, Some(FormField::Host)),
        other => panic!("unexpected {other:?}"),
    }
    assert_eq!(form.validation_error(), Some(&"Host is required.".to_string()));
    assert!(form.field_edited());
    assert_eq!(form.validation_error(), None);
    assert!(!form.field_edited());
    assert!(matches!(form.submit(&fields("a", "box", "", "", "")), SubmitOutcome::Submit(_)));
}

#[test]
fn connection_test_runs_once_at_a_time() {
    let mut form = HostFormState::new();
    assert!(form.begin_test(&fields("", "box", "", "", "")).is_none());
    assert_eq!(form.validation_error(), Some(&"Alias is required.".to_string()));
    let probe = form.begin_test(&fields("a", "box", "2200", "", "X=1")).expect("a host to probe");
    assert_eq!(probe.local_host_key, "");
    assert_eq!(probe.created_at, 0);
    assert_eq!(probe.port, 2200);
    assert_eq!(probe.ssh_options, vec!["X=1"]);
    assert_eq!(form.validation_error(), None);
    assert!(matches!(form.test_state(), TestConnectionState::Running));
    assert!(form.begin_test(&fields("a", "box", "", "", "")).is_none());
    form.finish_test(&Err(HostError::HostUnreachable(String::new())));
    assert!(matches!(form.test_state(), TestConnectionState::Failed(m) if m == "Host unreachable"));
    form.reset();
    assert!(matches!(form.test_state(), TestConnectionState::Idle));
}

#[test]
fn hosts_page_opens_the_form_for_adding_and_editing() {
    let mut settings = RemoteSessionsSettings::default();
    settings.upsert_host(host("k1", "box"));
    let mut page = HostsPageState::new();
    let fx = page.handle_action(&RemoteHostsPageAction::ShowAddModal, &settings);
    assert!(matches!(
        fx.as_slice(),
        [
            HostsPageEffect::SetTitle(t),
            HostsPageEffect::LoadForm(f),
            HostsPageEffect::OpenModal,
            HostsPageEffect::Emit(RemoteHostsPageEvent::ShowModal),
            HostsPageEffect::Notify,
        ] if t == "Add remote host" && f.port == "22" && f.host.is_empty()
    ));
    assert!(page.modal_open());
    assert_eq!(page.editing_key(), None);

    let fx = page.handle_action(&RemoteHostsPageAction::ShowEditModal("k1".into()), &settings);
    assert!(matches!(
        fx.as_slice(),
        [HostsPageEffect::SetTitle(t), HostsPageEffect::LoadForm(f), ..] if t == "Edit remote host" && f.host == "box"
    ));
    assert_eq!(page.editing_key(), Some(&"k1".to_string()));

    let fx = page.handle_action(&RemoteHostsPageAction::ShowEditModal("nope".into()), &settings);
    assert!(fx.is_empty());
    assert_eq!(page.editing_key(), Some(&"k1".to_string()));

    let sub = build_submission(&fields("renamed", "box2", "", "", "")).unwrap();
    let fx = page.save_host(&mut settings, sub).expect("editing a configured host saves");
    assert!(matches!(
        fx.as_slice(),
        [HostsPageEffect::CloseModal, HostsPageEffect::Emit(RemoteHostsPageEvent::HideModal), HostsPageEffect::Notify]
    ));
    assert_eq!(settings.hosts.len(), 1);
    assert_eq!(settings.hosts[0].local_host_key, "k1");
    assert_eq!(settings.hosts[0].host, "box2");
    assert!(!page.modal_open());
    assert_eq!(page.editing_key(), None);
}

#[test]
fn hosts_page_removes_only_after_confirmation() {
    let settings = RemoteSessionsSettings::default();
    let mut page = HostsPageState::new();
    assert!(page.handle_action(&RemoteHostsPageAction::ConfirmRemoveHost, &settings).is_empty());
    page.handle_action(&RemoteHostsPageAction::RequestRemoveHost("k".into()), &settings);
    assert_eq!(page.pending_remove(), Some(&"k".to_string()));
    page.handle_action(&RemoteHostsPageAction::CancelRemoveHost, &settings);
    assert_eq!(page.pending_remove(), None);
    page.handle_action(&RemoteHostsPageAction::RequestRemoveHost("k".into()), &settings);
    let fx = page.handle_action(&RemoteHostsPageAction::ConfirmRemoveHost, &settings);
    assert!(matches!(fx.as_slice(), [HostsPageEffect::RemoveHost(k), HostsPageEffect::Notify] if k == "k"));
    assert_eq!(page.pending_remove(), None);
    let fx = page.close_modal();
    assert_eq!(fx.len(), 3);
}

use remote_sessions::host_form::FeedbackTone;
use remote_sessions::hosts_page::host_details;

#[test]
fn form_feedback_prefers_the_validation_message() {
    let mut form = HostFormState::new();
    assert_eq!(form.feedback(), None);
    assert_eq!(form.test_button_label(), "Test connection");
    form.begin_test(&fields("a", "box", "", "", ""));
    assert_eq!(form.feedback(), Some(("Testing connection…".to_string(), FeedbackTone::Muted)));
    assert_eq!(form.test_button_label(), "Testing…");
    form.finish_test(&Ok(caps("3.3a", true)));
    assert_eq!(
        form.feedback(),
        Some(("Connection OK · tmux 3.3a on linux".to_string(), FeedbackTone::Success))
    );
    form.submit(&fields("", "", "", "", ""));
    assert_eq!(form.feedback(), Some(("Alias is required.".to_string(), FeedbackTone::Failure)));
    form.field_edited();
    form.finish_test(&Err(HostError::ProbeTimedOut));
    assert_eq!(
        form.feedback(),
        Some(("Connection failed: Probe timed out".to_string(), FeedbackTone::Failure))
    );
}

#[test]
fn hosts_page_rows_show_alias_target_and_identity() {
    let mut h = host("k", "box");
    assert_eq!(host_details(&h), vec!["alias-k", "box"]);
    h.port = 2200;
    h.identity_file = Some("~/.ssh/id".to_string());
    assert_eq!(host_details(&h), vec!["alias-k", "box:2200", "~/.ssh/id"]);
    h.identity_file = Some(String::new());
    assert_eq!(host_details(&h), vec!["alias-k", "box:2200"]);
}

#[test]
fn saving_an_unchanged_form_keeps_the_host() {
    let mut h = host("k1", "user@box");
    h.port = 2022;
    h.identity_file = Some("~/.ssh/id".to_string());
    h.ssh_options = vec!["ProxyJump=bastion".to_string(), "ServerAliveInterval=5".to_string()];
    let mut settings = RemoteSessionsSettings::default();
    settings.upsert_host(h.clone());
    let sub = build_submission(&form_fields_for(Some(&h))).unwrap();
    assert_eq!(settings.save_submission(Some("k1".to_string()), sub), Ok(()));
    assert_eq!(settings.hosts, vec![h]);
}

#[test]
fn heartbeat_config_waits_the_given_seconds() {
    assert_eq!(remote_sessions::connection::ConnectionConfig::from_heartbeat_seconds(45).heartbeat_interval, std::time::Duration::from_secs(45));
    assert_eq!(remote_sessions::connection::ConnectionConfig::from_heartbeat_seconds(0).heartbeat_interval, std::time::Duration::ZERO);
}

#[test]
fn registry_keeps_a_record_through_unrelated_changes() {
    let mut r = RemoteAttachRegistry::new();
    r.record(10, info("h", "work"));
    r.record(11, info("h", "play"));
    r.forget_by_host("h", "play");
    r.forget_by_host("g", "work");
    r.record(12, info("h", "work"));
    r.forget_by_host("h", "work2");
    let found = r.lookup(10).expect("still recorded");
    assert_eq!(found.local_host_key, "h");
    assert_eq!(found.session_name, "work");
    r.forget_by_host("h", "work");
    assert!(r.lookup(10).is_none());
    assert!(r.lookup(12).is_none());
}

#[test]
fn saving_with_drawn_values_uses_them_or_fails_cleanly() {
    let mut s = RemoteSessionsSettings::default();
    s.upsert_host(host("k1", "box"));
    let sub = || build_submission(&fields("new", "other", "", "", "")).unwrap();
    assert_eq!(s.save_with(None, sub(), None, Some(5)), Err(remote_sessions::host_form::SaveError::KeyUnavailable));
    assert_eq!(s.save_with(None, sub(), Some("k2".into()), None), Err(remote_sessions::host_form::SaveError::ClockUnavailable));
    assert_eq!(s.save_with(Some("gone".into()), sub(), None, None), Err(remote_sessions::host_form::SaveError::ClockUnavailable));
    assert_eq!(s.hosts.len(), 1);
    assert_eq!(s.save_with(None, sub(), Some("k2".into()), Some(1234)), Ok(()));
    assert_eq!(s.hosts[1].local_host_key, "k2");
    assert_eq!(s.hosts[1].created_at, 1234);
    assert_eq!(s.save_with(Some("k1".into()), sub(), None, None), Ok(()));
    assert_eq!(s.hosts[0].created_at, 1_700_000_000);
    assert_eq!(s.hosts[0].host, "other");
}

#[test]
fn master_checks_retry_until_the_last_attempt() {
    assert_eq!(remote_sessions::connection::MASTER_PROBE_ATTEMPTS, 20);
    assert_eq!(remote_sessions::connection::master_probe_step(0, true, true), remote_sessions::connection::MasterProbeStep::Ready);
    assert_eq!(remote_sessions::connection::master_probe_step(3, false, true), remote_sessions::connection::MasterProbeStep::Exited);
    assert_eq!(remote_sessions::connection::master_probe_step(0, false, false), remote_sessions::connection::MasterProbeStep::Retry);
    assert_eq!(remote_sessions::connection::master_probe_step(18, false, false), remote_sessions::connection::MasterProbeStep::Retry);
    assert_eq!(remote_sessions::connection::master_probe_step(19, false, false), remote_sessions::connection::MasterProbeStep::GiveUp);
}

use pueue_bridge::cache::StatusCache;
use pueue_bridge::cli::{
    cli_args_action, cli_args_add, cli_args_group, cli_args_log, cli_args_status,
    interpret_cli_output, parse_cli_json, CliOutcome,
};
use pueue_bridge::logs::decode_log_output;
use pueue_bridge::requests::{
    action_needs_state, apply_callback_update, expect_success, log_cli_fallback_once,
    map_action_request, plan_group_action, resolve_add_task, should_try_fallback,
    AddTaskRequest, BackendError, CallbackSettings, DaemonReply, FallbackWarnFlag,
    GroupActionRequest, ProtocolRequest,
};
use pueue_bridge::snapshot::{Snapshot, StatusDetail, TaskRecord, TaskStatus};

fn add_request(command: &str) -> AddTaskRequest {
    AddTaskRequest {
        command: command.to_string(),
        group: None,
        start_immediately: None,
        stashed: None,
        priority: None,
        label: None,
        path: None,
    }
}

#[test]
fn blank_command_fails_validation_without_any_backend() {
    let request = add_request("  ");
    let result = resolve_add_task(&request, None, "/cwd".to_string());
    match result {
        Err(BackendError::Validation(message)) => assert_eq!(message, "Missing command"),
        _ => panic!("expected a validation error"),
    }
}

#[test]
fn add_task_defaults_resolve() {
    let request = add_request("echo hi");
    let resolved = resolve_add_task(&request, None, "/cwd".to_string()).unwrap();
    assert_eq!(resolved.command, "echo hi");
    assert_eq!(resolved.group, "default");
    assert!(!resolved.stashed);
    assert!(resolved.start_immediately);
    assert_eq!(resolved.path, "/cwd");
}

#[test]
fn stashed_add_task_does_not_start() {
    let request = AddTaskRequest { stashed: Some(true), ..add_request("echo hi") };
    let resolved = resolve_add_task(&request, Some("/env".to_string()), "/cwd".to_string())
        .unwrap();
    assert!(resolved.stashed);
    assert!(!resolved.start_immediately);
    assert_eq!(resolved.path, "/env");
}

#[test]
fn removing_default_group_fails_without_any_network_call() {
    let request = GroupActionRequest {
        action: "remove".to_string(),
        name: "default".to_string(),
        parallel_tasks: None,
    };
    match plan_group_action(&request) {
        Err(BackendError::Validation(message)) => {
            assert_eq!(message, "Default group cannot be removed")
        },
        _ => panic!("expected a validation error"),
    }
}

#[test]
fn blank_group_name_fails_validation() {
    let request = GroupActionRequest {
        action: "add".to_string(),
        name: " \t ".to_string(),
        parallel_tasks: None,
    };
    match plan_group_action(&request) {
        Err(BackendError::Validation(message)) => {
            assert_eq!(message, "Group name is required")
        },
        _ => panic!("expected a validation error"),
    }
}

#[test]
fn group_add_uses_trimmed_name() {
    let request = GroupActionRequest {
        action: "add".to_string(),
        name: "  night  ".to_string(),
        parallel_tasks: Some(3),
    };
    match plan_group_action(&request) {
        Ok(ProtocolRequest::GroupAdd { name, parallel_tasks }) => {
            assert_eq!(name, "night");
            assert_eq!(parallel_tasks, Some(3));
        },
        _ => panic!("expected a group add"),
    }
}

#[test]
fn unknown_group_action_is_unsupported() {
    let request = GroupActionRequest {
        action: "rename".to_string(),
        name: "night".to_string(),
        parallel_tasks: None,
    };
    assert!(matches!(
        plan_group_action(&request),
        Err(BackendError::UnsupportedAction(_))
    ));
}

#[test]
fn restart_without_state_fails_before_any_restart_call() {
    assert!(action_needs_state("restart"));
    assert!(!action_needs_state("pause"));
    match map_action_request("restart", 3, None) {
        Err(BackendError::Protocol(message)) => {
            assert_eq!(message, "Missing state for restart")
        },
        _ => panic!("expected a protocol error"),
    }
}

#[test]
fn restart_copies_the_recorded_task() {
    let task = TaskRecord {
        command: None,
        group: None,
        label: Some("nightly".to_string()),
        path: Some("/work".to_string()),
        priority: Some(7),
        status: None,
        original_command: Some("make all".to_string()),
    };
    let snap = Snapshot { tasks: vec![("3".to_string(), task)], groups: vec![] };
    match map_action_request("restart", 3, Some(&snap)) {
        Ok(ProtocolRequest::Restart {
            task_id,
            original_command,
            path,
            label,
            priority,
            start_immediately,
            stashed,
        }) => {
            assert_eq!(task_id, 3);
            assert_eq!(original_command, "make all");
            assert_eq!(path, "/work");
            assert_eq!(label, Some("nightly".to_string()));
            assert_eq!(priority, Some(7));
            assert!(start_immediately);
            assert!(!stashed);
        },
        _ => panic!("expected a restart command"),
    }
}

#[test]
fn restart_of_a_missing_task_fails() {
    let snap = Snapshot { tasks: vec![], groups: vec![] };
    match map_action_request("restart", 3, Some(&snap)) {
        Err(BackendError::Protocol(message)) => assert_eq!(message, "Task not found"),
        _ => panic!("expected a protocol error"),
    }
}

#[test]
fn action_names_map_to_protocol_commands() {
    assert!(matches!(
        map_action_request("start", 1, None),
        Ok(ProtocolRequest::Start { task_id: 1 })
    ));
    assert!(matches!(
        map_action_request("resume", 1, None),
        Ok(ProtocolRequest::Start { task_id: 1 })
    ));
    assert!(matches!(
        map_action_request("pause", 2, None),
        Ok(ProtocolRequest::Pause { task_id: 2, wait: false })
    ));
    assert!(matches!(
        map_action_request("kill", 2, None),
        Ok(ProtocolRequest::Kill { task_id: 2 })
    ));
    assert!(matches!(
        map_action_request("remove", 2, None),
        Ok(ProtocolRequest::Remove { task_id: 2 })
    ));
    match map_action_request("explode", 2, None) {
        Err(BackendError::UnsupportedAction(message)) => {
            assert_eq!(message, "Unsupported action: explode")
        },
        _ => panic!("expected an unsupported action"),
    }
}

#[test]
fn fallback_runs_only_for_transport_and_protocol_errors() {
    let transport = BackendError::Transport("down".to_string());
    let validation = BackendError::Validation("bad".to_string());
    let unsupported = BackendError::UnsupportedAction("bad".to_string());
    let terminal = BackendError::Fallback("dead".to_string());
    assert!(should_try_fallback(&transport, true));
    assert!(should_try_fallback(&BackendError::Protocol("odd".to_string()), true));
    assert!(!should_try_fallback(&transport, false));
    assert!(!should_try_fallback(&validation, true));
    assert!(!should_try_fallback(&unsupported, true));
    assert!(!should_try_fallback(&terminal, true));
}

#[test]
fn fallback_warning_fires_exactly_once() {
    let mut flag = FallbackWarnFlag::new();
    assert!(log_cli_fallback_once(&mut flag));
    assert!(!log_cli_fallback_once(&mut flag));
    assert!(!log_cli_fallback_once(&mut flag));
}

#[test]
fn replies_interpret_as_results() {
    assert_eq!(expect_success(DaemonReply::Success("done".to_string())).unwrap(), "done");
    match expect_success(DaemonReply::Failure("broken".to_string())) {
        Err(BackendError::Protocol(message)) => assert_eq!(message, "broken"),
        _ => panic!("expected a protocol error"),
    }
    match expect_success(DaemonReply::Other("Status(..)".to_string())) {
        Err(BackendError::Protocol(message)) => {
            assert_eq!(message, "Unexpected response: Status(..)")
        },
        _ => panic!("expected a protocol error"),
    }
}

#[test]
fn cache_serves_within_ttl_and_expires_after() {
    let mut cache: StatusCache<String> = StatusCache::new();
    assert!(cache.lookup(1000).is_none());
    cache.store(1000, "digest-a".to_string());
    // A second read within 500 ms returns the same stored value.
    assert_eq!(cache.lookup(1200), Some(&"digest-a".to_string()));
    assert_eq!(cache.lookup(1500), Some(&"digest-a".to_string()));
    // After the window the read misses, even though the slot is unchanged.
    assert!(cache.lookup(1501).is_none());
    cache.store(1501, "digest-a".to_string());
    assert_eq!(cache.lookup(1600), Some(&"digest-a".to_string()));
}

#[test]
fn status_arguments_are_fixed() {
    assert_eq!(cli_args_status(), vec!["status".to_string(), "--json".to_string()]);
}

#[test]
fn log_arguments_carry_lines_and_id() {
    assert_eq!(
        cli_args_log(7, Some(25)),
        vec!["log", "--json", "--lines", "25", "7"]
            .into_iter()
            .map(String::from)
            .collect::<Vec<_>>()
    );
    assert_eq!(
        cli_args_log(7, None),
        vec!["log", "--json", "7"].into_iter().map(String::from).collect::<Vec<_>>()
    );
}

#[test]
fn action_arguments_rename_resume() {
    assert_eq!(cli_args_action(3, "resume"), vec!["start".to_string(), "3".to_string()]);
    assert_eq!(cli_args_action(3, "pause"), vec!["pause".to_string(), "3".to_string()]);
}

#[test]
fn group_arguments_follow_the_action() {
    let add = GroupActionRequest {
        action: "add".to_string(),
        name: "night".to_string(),
        parallel_tasks: Some(2),
    };
    assert_eq!(
        cli_args_group(&add).unwrap(),
        vec!["group", "add", "night", "--parallel", "2"]
            .into_iter()
            .map(String::from)
            .collect::<Vec<_>>()
    );
    let list = GroupActionRequest {
        action: "list".to_string(),
        name: "x".to_string(),
        parallel_tasks: None,
    };
    assert_eq!(
        cli_args_group(&list).unwrap(),
        vec!["group".to_string(), "list".to_string()]
    );
}

#[test]
fn add_arguments_mirror_the_request() {
    let request = AddTaskRequest {
        command: "echo hi".to_string(),
        group: Some("night".to_string()),
        start_immediately: Some(false),
        stashed: Some(true),
        priority: Some(-2),
        label: Some("l".to_string()),
        path: Some("/w".to_string()),
    };
    assert_eq!(
        cli_args_add(&request),
        vec![
            "add",
            "echo hi",
            "--group",
            "night",
            "--label",
            "l",
            "--priority",
            "-2",
            "--working-directory",
            "/w",
            "--stashed",
            "--start-immediately",
            "false",
        ]
        .into_iter()
        .map(String::from)
        .collect::<Vec<_>>()
    );
}

#[test]
fn cli_output_is_trimmed_or_becomes_the_error() {
    let good = CliOutcome {
        success: true,
        stdout: "  ok done \n".to_string(),
        stderr: String::new(),
    };
    assert_eq!(interpret_cli_output(&good).unwrap(), "ok done");
    let bad = CliOutcome {
        success: false,
        stdout: String::new(),
        stderr: " no daemon \n".to_string(),
    };
    match interpret_cli_output(&bad) {
        Err(BackendError::Fallback(message)) => assert_eq!(message, "no daemon"),
        _ => panic!("expected a fallback error"),
    }
}

#[test]
fn fallback_json_is_returned_verbatim() {
    let parsed = parse_cli_json("{\"tasks\":{},\"groups\":{}}").unwrap();
    let expected: serde_json::Value =
        serde_json::from_str("{\"tasks\":{},\"groups\":{}}").unwrap();
    assert_eq!(parsed, expected);
    match parse_cli_json("not json") {
        Err(BackendError::Fallback(message)) => {
            assert_eq!(message, "Fallback output was not valid JSON")
        },
        _ => panic!("expected a fallback error"),
    }
}

#[test]
fn log_payloads_decompress_or_fall_back_to_raw_text() {
    let text = "hello from the task log";
    let mut encoder = snap::write::FrameEncoder::new(Vec::new());
    std::io::Write::write_all(&mut encoder, text.as_bytes()).unwrap();
    let compressed = encoder.into_inner().unwrap();
    assert_ne!(compressed, text.as_bytes());
    assert_eq!(decode_log_output(&compressed), text);
    // Bytes that are not a snappy frame come back as lossy text.
    let raw = b"plain words".to_vec();
    assert_eq!(decode_log_output(&raw), "plain words");
    // Invalid UTF-8 is replaced, not refused.
    let broken = vec![0xFF, b'a'];
    assert_eq!(decode_log_output(&broken), "\u{FFFD}a");
}

#[test]
fn callback_updates_trim_and_clear() {
    let current = CallbackSettings {
        callback: Some("old".to_string()),
        callback_log_lines: 10,
    };
    let updated = apply_callback_update(current, Some(" echo hi ".to_string()), Some(25));
    assert_eq!(updated.callback, Some("echo hi".to_string()));
    assert_eq!(updated.callback_log_lines, 25);
    let cleared = apply_callback_update(updated, Some("   ".to_string()), None);
    assert_eq!(cleared.callback, None);
    assert_eq!(cleared.callback_log_lines, 25);
    let untouched = apply_callback_update(cleared, None, None);
    assert_eq!(untouched.callback, None);
    assert_eq!(untouched.callback_log_lines, 25);
}

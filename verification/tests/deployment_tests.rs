use blank::deployment::{
    activate, build_settings_snapshot, build_steps, build_tools, child_path_entries,
    command_line, commit_author, default_deployment_limit, expired_releases, failure_log,
    history_window, is_finished, isolate_pnpm_install, mise_exec_args, mise_install_args,
    process_environment, recovery_statuses, release_paths, resolve_executable, restore_activation,
    resume_from, rollback_log, rollback_release_id, rollback_source, split_whitespace,
    stream_step, transition_line, BuildStep, DeploymentListQuery, LogCursor, ReleaseEntry, Status,
    StreamState,
};
use blank::error::ApiError;

fn strings(items: &[&str]) -> Vec<String> {
    items.iter().map(|s| s.to_string()).collect()
}

#[test]
fn isolates_default_pnpm_install_from_parent_workspaces() {
    assert_eq!(
        isolate_pnpm_install("pnpm install --frozen-lockfile"),
        "pnpm --ignore-workspace install --frozen-lockfile"
    );
    assert_eq!(isolate_pnpm_install("pnpm run build"), "pnpm run build");
}

#[test]
fn isolation_trims_and_keeps_other_commands() {
    assert_eq!(
        isolate_pnpm_install("  pnpm install  "),
        "pnpm --ignore-workspace install"
    );
    assert_eq!(isolate_pnpm_install(" npm ci "), " npm ci ");
}

#[test]
fn statuses_and_log_lines() {
    assert_eq!(Status::Fetching.as_str(), "fetching");
    assert_eq!(Status::CheckingOut.as_str(), "checking_out");
    assert_eq!(Status::Success.as_str(), "success");
    assert_eq!(
        transition_line(Status::Building, "Building project"),
        "[building] Building project"
    );
    assert_eq!(failure_log("boom"), "\n[failed] boom\n");
    assert_eq!(rollback_log("d-1"), "[activating] Rolling back to d-1\n");
    let statuses = recovery_statuses();
    assert_eq!(statuses.len(), 10);
    assert_eq!(statuses[0], "queued");
    assert_eq!(statuses[1], "fetching");
    assert_eq!(statuses[9], "activating");
    assert!(is_finished("success") && is_finished("failed") && is_finished("cancelled"));
    assert!(!is_finished("building"));
}

#[test]
fn tools_and_commands() {
    assert_eq!(split_whitespace("  node@24\tpnpm@9\n"), ["node@24", "pnpm@9"]);
    assert_eq!(
        build_tools("node@22", strings(&["node@24", "pnpm@9"])),
        ["node@22"]
    );
    assert_eq!(
        build_tools("  ", strings(&["node@24", "pnpm@9"])),
        ["node@24", "pnpm@9"]
    );
    let tools = strings(&["node@24", "pnpm@9"]);
    assert_eq!(
        mise_install_args(&tools),
        ["install", "--yes", "node@24", "pnpm@9"]
    );
    assert_eq!(
        mise_exec_args(&tools, "pnpm install", true),
        ["exec", "node@24", "pnpm@9", "--command", "pnpm --ignore-workspace install"]
    );
    assert_eq!(
        mise_exec_args(&tools, "pnpm install", false),
        ["exec", "node@24", "pnpm@9", "--command", "pnpm install"]
    );
    assert_eq!(
        command_line("mise", &strings(&["install", "--yes"])),
        "$ mise install --yes\n"
    );
}

#[test]
fn build_phase_plan() {
    let tools = strings(&["node@24", "pnpm@9"]);
    let steps = build_steps(
        true,
        &tools,
        true,
        false,
        &Some("pnpm install --frozen-lockfile".into()),
        &Some("pnpm run build".into()),
        true,
    );
    assert_eq!(steps.len(), 7);
    match &steps[0] {
        BuildStep::Enter(status, message) => {
            assert_eq!(*status, Status::InstallingTools);
            assert_eq!(message, "Installing dependencies");
        }
        other => panic!("unexpected {other:?}"),
    }
    match &steps[1] {
        BuildStep::Mise(args, isolate) => {
            assert_eq!(args, &strings(&["trust", "--yes", "mise.toml"]));
            assert!(!isolate);
        }
        other => panic!("unexpected {other:?}"),
    }
    match &steps[2] {
        BuildStep::Mise(args, _) => {
            assert_eq!(args, &strings(&["install", "--yes", "node@24", "pnpm@9"]))
        }
        other => panic!("unexpected {other:?}"),
    }
    match &steps[3] {
        BuildStep::Enter(status, _) => assert_eq!(*status, Status::InstallingDependencies),
        other => panic!("unexpected {other:?}"),
    }
    match &steps[4] {
        BuildStep::Mise(args, isolate) => {
            assert_eq!(
                args,
                &strings(&[
                    "exec",
                    "node@24",
                    "pnpm@9",
                    "--command",
                    "pnpm --ignore-workspace install --frozen-lockfile"
                ])
            );
            assert!(*isolate);
        }
        other => panic!("unexpected {other:?}"),
    }
    match &steps[5] {
        BuildStep::Enter(status, message) => {
            assert_eq!(*status, Status::Building);
            assert_eq!(message, "Building project");
        }
        other => panic!("unexpected {other:?}"),
    }
    assert!(build_steps(false, &tools, true, true, &None, &None, false).is_empty());
    assert_eq!(build_steps(true, &tools, false, false, &None, &None, false).len(), 2);
}

#[test]
fn build_processes_run_in_their_own_environment() {
    let env = process_environment("/data", Some("/data/builds/d-1"), true);
    let expected = vec![
        ("HOME", "/data/state/build-home"),
        ("MISE_DATA_DIR", "/data/state/mise"),
        ("MISE_CONFIG_DIR", "/data/state/mise-config"),
        ("CI", "true"),
        ("MISE_YES", "1"),
        ("MISE_CEILING_PATHS", "/data/builds/d-1"),
        ("NPM_CONFIG_IGNORE_WORKSPACE", "true"),
    ];
    let got: Vec<(&str, &str)> = env.iter().map(|(k, v)| (k.as_str(), v.as_str())).collect();
    assert_eq!(got, expected);
    assert_eq!(process_environment("/data", None, false).len(), 5);
    assert_eq!(
        child_path_entries(Some("/opt/mise/bin")),
        ["/opt/mise/bin", "/usr/local/bin", "/usr/bin", "/bin"]
    );
    assert_eq!(
        child_path_entries(None),
        ["/usr/local/bin", "/usr/local/bin", "/usr/bin", "/bin"]
    );
    assert_eq!(
        resolve_executable("mise", &Some("/usr/local/bin/mise".into())).as_deref(),
        Some("/usr/local/bin/mise")
    );
    assert_eq!(resolve_executable("mise", &None), None);
    assert_eq!(resolve_executable("git", &None).as_deref(), Some("git"));
}

#[test]
fn release_layout() {
    let (releases, release, staging) = release_paths("/data", "site", "d-1");
    assert_eq!(releases, "/data/sites/site/releases");
    assert_eq!(release, "/data/sites/site/releases/d-1");
    assert_eq!(staging, "/data/sites/site/releases/.d-1.tmp");
    let a = activate("/data", "site", "new");
    assert_eq!(a.current, "/data/sites/site/current");
    assert_eq!(a.temporary, "/data/sites/site/.current-new");
    assert_eq!(a.target, "releases/new");
    let r = restore_activation("/data", "site", "releases/old");
    assert_eq!(r.temporary, "/data/sites/site/.current-restore");
    assert_eq!(r.target, "releases/old");
}

#[test]
fn old_releases_expire_but_active_and_retained_survive() {
    let entry = |name: &str, is_dir: bool| ReleaseEntry {
        name: name.into(),
        is_dir,
    };
    let entries = vec![
        entry("a", true),
        entry("b", true),
        entry("c", true),
        entry("notes.txt", false),
        entry("d", true),
    ];
    let expired = expired_releases(&entries, &Some("b".into()), &strings(&["c"]));
    assert_eq!(expired, ["a", "d"]);
}

#[test]
fn rollbacks_need_a_successful_retained_release() {
    assert_eq!(
        rollback_source("failed", &Some("/r".into())),
        Err(ApiError::Conflict(
            "only successful deployments can be rolled back".into()
        ))
    );
    assert_eq!(
        rollback_source("success", &None),
        Err(ApiError::Conflict("deployment has no retained release".into()))
    );
    assert_eq!(rollback_source("success", &Some("/r/x".into())), Ok("/r/x".into()));
    assert_eq!(
        rollback_release_id("/data/sites/s/releases/d-1", "/data/sites/s/releases"),
        Ok("d-1".into())
    );
    assert_eq!(
        rollback_release_id("/elsewhere/d-1", "/data/sites/s/releases"),
        Err(ApiError::Conflict("deployment release path is invalid".into()))
    );
}

#[test]
fn history_window_is_bounded() {
    assert_eq!(default_deployment_limit(), 25);
    let w = history_window(&DeploymentListQuery {
        search: "  fix ".into(),
        status: " success ".into(),
        limit: 1000,
        offset: -5,
    });
    assert_eq!(w.search, "fix");
    assert_eq!(w.pattern, "%fix%");
    assert_eq!(w.status, "success");
    assert_eq!(w.limit, 100);
    assert_eq!(w.offset, 0);
    let w = history_window(&DeploymentListQuery {
        search: String::new(),
        status: String::new(),
        limit: 0,
        offset: 7,
    });
    assert_eq!(w.limit, 1);
    assert_eq!(w.offset, 7);
}

#[test]
fn snapshots_and_authors() {
    assert_eq!(commit_author("Ann", "ann@example.com"), "Ann <ann@example.com>");
    let snapshot = build_settings_snapshot(".", "node@24", &None, &Some("pnpm run build".into()), "dist", true);
    assert_eq!(
        snapshot,
        "{\"build_command\":\"pnpm run build\",\"build_enabled\":true,\"install_command\":null,\"mise_tools\":\"node@24\",\"project_directory\":\".\",\"publish_directory\":\"dist\"}"
    );
}

#[test]
fn event_stream_sends_news_then_ends() {
    let state = StreamState {
        offset: 0,
        status: "building".into(),
        idle: 0,
    };
    let (frame, next) = stream_step(
        &state,
        Some(LogCursor {
            chunk: "hi\n".into(),
            offset: 3,
            status: "building".into(),
        }),
    )
    .unwrap();
    assert_eq!(
        frame,
        "id: 3\nevent: deployment\ndata: {\"chunk\":\"hi\\n\",\"done\":false,\"status\":\"building\"}\n\n"
    );
    assert_eq!(next.offset, 3);
    assert_eq!(next.idle, 0);
    let (quiet, next) = stream_step(
        &next,
        Some(LogCursor {
            chunk: String::new(),
            offset: 3,
            status: "building".into(),
        }),
    )
    .unwrap();
    assert_eq!(quiet, "");
    assert_eq!(next.idle, 1);
    let done = stream_step(
        &StreamState {
            offset: 3,
            status: "success".into(),
            idle: 0,
        },
        Some(LogCursor {
            chunk: String::new(),
            offset: 3,
            status: "success".into(),
        }),
    );
    assert!(done.is_none());
    assert!(stream_step(&state, None).is_none());
}

#[test]
fn idle_streams_keep_alive() {
    let mut state = StreamState {
        offset: 0,
        status: "building".into(),
        idle: 0,
    };
    let cursor = LogCursor {
        chunk: String::new(),
        offset: 0,
        status: "building".into(),
    };
    for _ in 0..39 {
        let (out, next) = stream_step(&state, Some(cursor.clone())).unwrap();
        assert_eq!(out, "");
        state = next;
    }
    let (out, next) = stream_step(&state, Some(cursor)).unwrap();
    assert_eq!(out, ": keep-alive\n\n");
    assert_eq!(next.idle, 0);
}

#[test]
fn resumed_streams_start_after_the_last_event() {
    assert_eq!(resume_from(Some("42")), 42);
    assert_eq!(resume_from(Some("-3")), 0);
    assert_eq!(resume_from(Some("x")), 0);
    assert_eq!(resume_from(Some("99999999999999999999")), 0);
    assert_eq!(resume_from(None), 0);
}

#[test]
fn activation_switches_current_release() {
    let plan = activate("/tmp/t", "site", "new");
    assert_eq!(plan.current, "/tmp/t/sites/site/current");
    assert_eq!(plan.target, "releases/new");
}

#[test]
fn event_ids_resume_where_the_reader_left_off() {
    let state = StreamState {
        offset: 0,
        status: String::new(),
        idle: 0,
    };
    let (frame, next) = stream_step(
        &state,
        Some(LogCursor {
            chunk: "x".repeat(1234),
            offset: 1234,
            status: "building".into(),
        }),
    )
    .unwrap();
    let id = frame
        .lines()
        .next()
        .unwrap()
        .strip_prefix("id: ")
        .unwrap();
    assert_eq!(resume_from(Some(id)), next.offset);
    assert_eq!(resume_from(Some("0")), 0);
}

#[test]
fn snapshot_strings_are_escaped_as_json() {
    let snapshot = build_settings_snapshot("a\"b", "x\\y\u{1}\t", &None, &None, "é\u{7f}", false);
    assert_eq!(
        snapshot,
        "{\"build_command\":null,\"build_enabled\":false,\"install_command\":null,\"mise_tools\":\"x\\\\y\\u0001\\t\",\"project_directory\":\"a\\\"b\",\"publish_directory\":\"é\u{7f}\"}"
    );
}

use omp_manager::extension::{
    extension_candidates, extension_override, resolve_embedded_extension_path, DevTree,
    EmbeddedExtensionResolution, TriedCandidate,
};
use omp_manager::launch::ChildHost;
use omp_manager::manager::{DedicatedStep, OmpManager, SpawnOutcome, FIRST_PORT};
use omp_manager::platform::Platform;
use omp_manager::sessions::SessionPorts;
use serde_json::Value;

fn manager() -> OmpManager {
    OmpManager::new("/opt/ompcot/public".to_string())
}

fn start(manager: &mut OmpManager, port: u16) {
    assert_eq!(manager.spawn_finished(port, "/bin/omp", SpawnOutcome::Running), Ok(()));
}

fn tried(path: &str, source: &'static str, exists: bool) -> TriedCandidate {
    TriedCandidate {
        path: path.to_string(),
        source,
        exists,
    }
}

fn host(platform: Platform) -> ChildHost {
    ChildHost {
        platform,
        path: "/usr/bin".to_string(),
        omp_version: "17.0.1".to_string(),
    }
}

fn found(path: &str) -> Result<EmbeddedExtensionResolution, String> {
    Ok(EmbeddedExtensionResolution {
        path: path.to_string(),
        source: "bundled",
    })
}

#[test]
fn ports_are_proposed_from_the_first_one_on() {
    let mut m = manager();
    assert_eq!(FIRST_PORT, 47821);
    assert_eq!(m.next_port(&Vec::new()), Some(47821));
    start(&mut m, 47821);
    assert_eq!(m.next_port(&Vec::new()), Some(47822));
    assert_eq!(m.next_port(&vec![47822, 47824]), Some(47823));
    assert_eq!(m.next_port(&(47822..=u16::MAX).collect()), None);
    assert!(m.kill(47821));
    assert_eq!(m.next_port(&(47822..=u16::MAX).collect()), Some(47821));
}

#[test]
fn probing_moves_on_from_busy_ports() {
    let m = manager();
    let mut busy = Vec::new();
    let mut last = 0;
    for _ in 0..5 {
        let port = m.next_port(&busy).unwrap();
        assert!(port > last);
        last = port;
        busy.push(port);
    }
    assert_eq!(last, 47825);
}

#[test]
fn processes_run_until_they_are_killed() {
    let mut m = manager();
    let status = Some("exit status: 0".to_string());
    assert_eq!(m.check_exited(1, status.clone()), None);
    start(&mut m, 1);
    assert_eq!(m.check_exited(1, status.clone()), status);
    assert_eq!(m.check_exited(1, None), None);
    assert!(m.kill(1));
    assert!(!m.kill(1));
    start(&mut m, 2);
    start(&mut m, 3);
    m.kill_all();
    assert!(!m.kill(2));
    assert!(!m.kill(3));
}

#[test]
fn a_dedicated_process_runs_beside_its_workspace() {
    let mut m = manager();
    start(&mut m, 47821);
    assert!(matches!(m.spawn_session_dedicated("s", &Vec::new()), DedicatedStep::SpawnOn(47822)));
    start(&mut m, 47822);
    assert_eq!(m.check_exited(47821, Some("ended".to_string())).as_deref(), Some("ended"));
    assert!(m.kill(47822));
    assert_eq!(m.next_port(&Vec::new()), Some(47822));
    assert!(m.kill(47821));
}

#[test]
fn failures_to_start_are_reported() {
    let mut m = manager();
    assert_eq!(
        m.spawn_finished(1, "/bin/omp", SpawnOutcome::NotStarted("no such file".to_string())),
        Err("Failed to spawn omp (/bin/omp): no such file. Make sure omp is installed \
             (brew install omp) and on your PATH."
            .to_string())
    );
    assert_eq!(
        m.spawn_finished(1, "/bin/omp", SpawnOutcome::NoStdin),
        Err("Failed to get pi stdin".to_string())
    );
    assert!(!m.kill(1));
}

#[test]
fn commands_are_handed_over_as_one_line() {
    let mut m = manager();
    let mut members = serde_json::Map::new();
    members.insert("type".to_string(), Value::String("say\n\"hi\"".to_string()));
    members.insert("list".to_string(), Value::Array(vec![Value::Null, Value::Bool(true)]));
    let cmd = Value::Object(members);
    assert_eq!(m.send_rpc(47821, cmd.clone()), Err("No omp instance on port 47821".to_string()));
    start(&mut m, 47821);
    let line = m.send_rpc(47821, cmd.clone()).unwrap();
    assert_eq!(line, "{\"list\":[null,true],\"type\":\"say\\n\\\"hi\\\"\"}\n");
    assert_eq!(line.matches('\n').count(), 1);
    assert_eq!(serde_json::from_str::<Value>(&line).unwrap(), cmd);
}

#[test]
fn sessions_reuse_their_process() {
    let mut m = manager();
    assert!(matches!(m.spawn_session_dedicated("s", &Vec::new()), DedicatedStep::SpawnOn(47821)));
    assert!(matches!(m.spawn_session_dedicated("s", &vec![47821]), DedicatedStep::SpawnOn(47822)));
    start(&mut m, 47822);
    assert_eq!(m.session_spawned(9, "s".to_string(), 47822, Ok(())), Ok(47822));
    assert!(matches!(m.spawn_session_dedicated("s", &Vec::new()), DedicatedStep::Reuse(47822)));
    start(&mut m, 5);
    assert!(m.kill(5));
    assert!(matches!(m.spawn_session_dedicated("s", &Vec::new()), DedicatedStep::Reuse(47822)));
    assert!(matches!(m.spawn_session_dedicated("t", &Vec::new()), DedicatedStep::SpawnOn(47821)));
    let all: Vec<u16> = (47821..=u16::MAX).collect();
    assert!(matches!(m.spawn_session_dedicated("t", &all), DedicatedStep::NoPort));
}

#[test]
fn a_session_that_did_not_start_leaves_no_trace() {
    let mut m = manager();
    let failed = m.session_spawned(9, "s".to_string(), 47821, Err("no omp".to_string()));
    assert_eq!(failed, Err("no omp".to_string()));
    assert!(matches!(m.spawn_session_dedicated("s", &Vec::new()), DedicatedStep::SpawnOn(47821)));
    assert!(m.kill_workspace_dedicated(9).is_empty());
}

#[test]
fn a_session_gets_a_new_process_after_its_own_was_killed() {
    let mut m = manager();
    start(&mut m, 47821);
    assert_eq!(m.session_spawned(9, "s".to_string(), 47821, Ok(())), Ok(47821));
    assert!(m.kill(47821));
    assert!(matches!(m.spawn_session_dedicated("s", &Vec::new()), DedicatedStep::SpawnOn(47821)));
    assert!(matches!(m.spawn_session_dedicated("s", &vec![47821]), DedicatedStep::SpawnOn(47822)));

    start(&mut m, 47822);
    assert_eq!(m.session_spawned(9, "s".to_string(), 47822, Ok(())), Ok(47822));
    m.kill_all();
    assert!(matches!(m.spawn_session_dedicated("s", &Vec::new()), DedicatedStep::SpawnOn(47821)));
    assert!(m.kill_workspace_dedicated(9).is_empty());
}

#[test]
fn sessions_do_not_share_a_process() {
    let mut m = manager();
    start(&mut m, 47821);
    assert_eq!(m.session_spawned(1, "s".to_string(), 47821, Ok(())), Ok(47821));
    assert!(m.kill(47821));
    start(&mut m, 47821);
    assert_eq!(m.session_spawned(2, "t".to_string(), 47821, Ok(())), Ok(47821));
    assert!(matches!(m.spawn_session_dedicated("t", &Vec::new()), DedicatedStep::Reuse(47821)));
    assert!(matches!(m.spawn_session_dedicated("s", &Vec::new()), DedicatedStep::SpawnOn(47822)));
}

#[test]
fn a_session_without_a_running_process_is_not_reused() {
    let mut m = manager();
    assert_eq!(m.session_spawned(1, "s".to_string(), 47821, Ok(())), Ok(47821));
    assert!(matches!(m.spawn_session_dedicated("s", &Vec::new()), DedicatedStep::SpawnOn(47821)));
}

#[test]
fn every_session_ends_with_some_workspace() {
    let mut m = manager();
    for (workspace, session, port) in [(1, "a", 47821), (2, "b", 47822), (2, "c", 47823)] {
        start(&mut m, port);
        assert_eq!(m.session_spawned(workspace, session.to_string(), port, Ok(())), Ok(port));
    }
    assert!(m.kill(47822));
    assert_eq!(m.kill_workspace_dedicated(1), vec![47821]);
    assert_eq!(m.kill_workspace_dedicated(2), vec![47823]);
    for session in ["a", "b", "c"] {
        assert!(matches!(
            m.spawn_session_dedicated(session, &Vec::new()),
            DedicatedStep::SpawnOn(47821)
        ));
    }
}

#[test]
fn closing_a_workspace_spares_a_process_that_got_a_killed_port() {
    let mut m = manager();
    for (session, port) in [("a", 47821), ("b", 47822)] {
        start(&mut m, port);
        assert_eq!(m.session_spawned(1, session.to_string(), port, Ok(())), Ok(port));
    }
    assert!(m.kill(47821));
    start(&mut m, 47821);
    assert_eq!(m.kill_workspace_dedicated(1), vec![47822]);
    assert!(m.kill(47821));
    assert!(!m.kill(47822));
}

#[test]
fn closing_a_workspace_ends_its_sessions_only() {
    let mut m = manager();
    for (workspace, session, port) in [(1, "a", 47821), (1, "b", 47822), (2, "c", 47823)] {
        start(&mut m, port);
        assert_eq!(m.session_spawned(workspace, session.to_string(), port, Ok(())), Ok(port));
    }
    start(&mut m, 1);
    assert_eq!(m.kill_workspace_dedicated(1), vec![47821, 47822]);
    assert!(!m.kill(47821));
    assert!(!m.kill(47822));
    assert!(matches!(m.spawn_session_dedicated("a", &Vec::new()), DedicatedStep::SpawnOn(47821)));
    assert!(matches!(m.spawn_session_dedicated("b", &Vec::new()), DedicatedStep::SpawnOn(47821)));
    assert!(matches!(m.spawn_session_dedicated("c", &Vec::new()), DedicatedStep::Reuse(47823)));
    assert!(m.kill_workspace_dedicated(1).is_empty());
    assert!(m.kill(1));
    assert_eq!(m.kill_workspace_dedicated(2), vec![47823]);
}

#[test]
fn session_files_have_one_port_each() {
    let mut ports = SessionPorts::new();
    assert_eq!(ports.get("a"), None);
    ports.insert("a".to_string(), 1);
    ports.insert("b".to_string(), 2);
    ports.insert("c".to_string(), 2);
    ports.insert("a".to_string(), 3);
    assert_eq!(ports.get("a"), Some(3));
    ports.remove_ports(&vec![2, 7]);
    assert_eq!(ports.get("a"), Some(3));
    assert_eq!(ports.get("b"), None);
    assert_eq!(ports.get("c"), None);
}

#[test]
fn candidates_come_in_order() {
    let dev = Some(DevTree {
        manifest_dir: Some("/repo/src-tauri".to_string()),
        cwd: Some("/repo".to_string()),
    });
    let paths: Vec<(String, &str)> = manager()
        .posix_extension_candidates(&dev)
        .iter()
        .map(|candidate| (candidate.location.posix(), candidate.source))
        .collect();
    assert_eq!(
        paths,
        vec![
            ("/opt/ompcot/extensions/embedded-server.mjs".to_string(), "bundled"),
            ("/opt/ompcot/extensions/embedded-server.ts".to_string(), "dev:source"),
            (
                "/repo/src-tauri/../extensions/embedded-server.ts".to_string(),
                "dev:cargo-manifest-dir"
            ),
            ("/repo/extensions/embedded-server.ts".to_string(), "dev:cwd"),
        ]
    );
    assert_eq!(manager().posix_extension_candidates(&None).len(), 2);
    assert_eq!(OmpManager::new("/".to_string()).posix_extension_candidates(&None).len(), 0);
    let dev = Some(DevTree {
        manifest_dir: Some("/r".to_string()),
        cwd: None,
    });
    assert_eq!(extension_candidates(None, &dev).len(), 1);
    let dev = Some(DevTree {
        manifest_dir: None,
        cwd: Some("/c".to_string()),
    });
    let candidates = extension_candidates(None, &dev);
    assert_eq!(candidates.len(), 1);
    assert_eq!(candidates[0].location.posix(), "/c/extensions/embedded-server.ts");
    assert_eq!(candidates[0].source, "dev:cwd");
    assert_eq!(extension_candidates(Some("C:\\app"), &None)[0].location.base, "C:\\app");
}

#[test]
fn the_named_extension_comes_first() {
    assert_eq!(extension_override(Some(" /x.mjs\n")), Some("/x.mjs"));
    assert_eq!(extension_override(Some(" \n")), None);
    assert_eq!(extension_override(None), None);
    let list = vec![tried("/a", "bundled", true)];
    let named = resolve_embedded_extension_path(Some(" /x.mjs\n"), true, &list);
    let named = named.unwrap_or_else(|e| panic!("{}", e));
    assert_eq!(named.path, "/x.mjs");
    assert_eq!(named.source, "env:OMCOT_EXTENSION");
    for (variable, exists) in [(Some("/x.mjs"), false), (Some("  "), true), (None, true)] {
        let fallback = resolve_embedded_extension_path(variable, exists, &list);
        let fallback = fallback.unwrap_or_else(|e| panic!("{}", e));
        assert_eq!(fallback.path, "/a");
        assert_eq!(fallback.source, "bundled");
    }
}

#[test]
fn the_first_existing_candidate_is_taken() {
    let list = vec![
        tried("/a", "bundled", false),
        tried("/b", "dev:source", true),
        tried("/c", "dev:cwd", true),
    ];
    let found = resolve_embedded_extension_path(None, false, &list);
    let found = found.unwrap_or_else(|e| panic!("{}", e));
    assert_eq!(found.path, "/b");
    assert_eq!(found.source, "dev:source");
}

#[test]
fn a_missing_extension_is_reported_with_what_was_tried() {
    let list = vec![tried("/a", "bundled", false), tried("/b", "dev:source", false)];
    let message = match resolve_embedded_extension_path(None, false, &list) {
        Ok(_) => panic!("nothing exists"),
        Err(message) => message,
    };
    assert_eq!(
        message,
        "Could not find embedded-server extension. Tried:\n  - [bundled] /a\n  - [dev:source] /b\n\n\
         For release builds, this means the .app bundle is missing \
         `extensions/embedded-server.mjs` (run `bun run build:extensions` \
         before `tauri build`). For dev, make sure `extensions/embedded-server.ts` \
         exists in this repo."
    );
}

#[test]
fn a_server_is_started_with_its_extension() {
    let plan = manager().spawn(
        Ok("/usr/bin/omp".to_string()),
        found("/x/server.mjs"),
        None,
        &host(Platform::Unix),
        "/work",
        47821,
        None,
    );
    let plan = plan.unwrap_or_else(|e| panic!("{}", e));
    assert_eq!(plan.program, "/usr/bin/omp");
    assert_eq!(plan.args, vec!["--extension", "/x/server.mjs", "--mode", "rpc"]);
    assert_eq!(plan.cwd.as_deref(), Some("/work"));
    let pair = |name: &str, value: &str| (name.to_string(), value.to_string());
    assert_eq!(
        plan.env,
        vec![
            pair("PATH", "/usr/bin"),
            pair("OMCOT_STATIC_DIR", "/opt/ompcot/public"),
            pair("OMCOT_PORT", "47821"),
            pair("OMCOT_OMP_VERSION", "17.0.1"),
        ]
    );
}

#[test]
fn a_session_file_is_passed_as_it_is_on_unix() {
    for session in ["/work/s.jsonl", "\\\\?\\C:\\s\\a.jsonl"] {
        let plan = manager().spawn(
            Ok("/usr/bin/omp".to_string()),
            found("/x/server.mjs"),
            None,
            &host(Platform::Unix),
            "/work",
            47821,
            Some(session),
        );
        let plan = plan.unwrap_or_else(|e| panic!("{}", e));
        assert_eq!(plan.args[4..], ["--session", session]);
    }
}

#[test]
fn a_server_on_windows_gets_plain_paths() {
    let m = OmpManager::new("\\\\?\\C:\\Ompcot\\public".to_string());
    let plan = m.spawn(
        Ok("\\\\?\\C:\\omp.exe".to_string()),
        found("\\\\?\\C:\\Shi Xin\\server.mjs"),
        Some("C:\\Temp\\ompcot-ext\\server.mjs"),
        &host(Platform::Windows),
        "\\\\?\\UNC\\srv\\work",
        1,
        Some("\\\\?\\C:\\s\\a.jsonl"),
    );
    let plan = plan.unwrap_or_else(|e| panic!("{}", e));
    assert_eq!(plan.program, "C:\\omp.exe");
    assert_eq!(
        plan.args,
        vec![
            "--extension",
            "C:\\Temp\\ompcot-ext\\server.mjs",
            "--mode",
            "rpc",
            "--session",
            "C:\\s\\a.jsonl"
        ]
    );
    assert_eq!(plan.cwd.as_deref(), Some("\\\\srv\\work"));
    assert_eq!(plan.env[1].1, "C:\\Ompcot\\public");
}

#[test]
fn nothing_is_started_without_omp_or_its_extension() {
    let m = manager();
    let spawn = |binary: Result<String, String>, extension| {
        m.spawn(binary, extension, None, &host(Platform::Unix), "/w", 1, None).err()
    };
    let no_omp = Err("no omp".to_string());
    let no_extension = || Err("no extension".to_string());
    assert_eq!(spawn(no_omp.clone(), no_extension()).as_deref(), Some("no omp"));
    assert_eq!(spawn(no_omp, found("/x")).as_deref(), Some("no omp"));
    assert_eq!(spawn(Ok("/omp".to_string()), no_extension()).as_deref(), Some("no extension"));
}

#[test]
fn commands_run_with_the_search_path() {
    let m = manager();
    let args = vec!["plugin".to_string()];
    let plan = m.run_pi_command(
        Ok("\\\\?\\C:\\omp.exe".to_string()),
        args.clone(),
        Platform::Windows,
        "C:\\bin".to_string(),
    );
    let plan = plan.unwrap_or_else(|e| panic!("{}", e));
    assert_eq!(plan.program, "C:\\omp.exe");
    assert_eq!(plan.args, args);
    assert_eq!(plan.cwd, None);
    assert_eq!(plan.env, vec![("PATH".to_string(), "C:\\bin".to_string())]);
    let failed = m.run_pi_command(Err("no omp".to_string()), args, Platform::Unix, String::new());
    assert_eq!(failed.err().as_deref(), Some("no omp"));
}

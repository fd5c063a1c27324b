use amux::agent::status_file::{
    has_json_extension, is_known_provider, purge_decision, read_status_file,
    settle_stale_status_file, status_base_dir, status_base_dir_from, status_file_path,
    status_file_path_in, PurgeAction, StatusFile,
    StatusFileRead, StatusFileVerdict, STALE_THRESHOLD_SECS,
};
use amux::agent::{distinct_pane_ids, enrich_detected_statuses, AgentInstance, AgentStatus};
use amux::paths::join_path;
use amux::tmux::PaneInfo;

fn file(provider: &str, status: &str, pid: u32, ts: u64) -> StatusFile {
    StatusFile {
        provider: provider.to_string(),
        status: status.to_string(),
        pid,
        ts,
    }
}

#[test]
fn known_providers() {
    for p in ["amp", "codex", "gemini", "opencode", "pi"] {
        assert!(is_known_provider(p));
    }
    assert!(!is_known_provider("vim"));
    assert!(!is_known_provider(""));
    assert!(!is_known_provider("Amp"));
}

#[test]
fn fresh_valid_file_is_accepted() {
    let f = file("opencode", "running", 42, 1000);
    match read_status_file(StatusFileRead::Parsed(f.clone()), Some(1000 + STALE_THRESHOLD_SECS)) {
        StatusFileVerdict::Accept(g) => assert_eq!(g, f),
        other => panic!("unexpected outcome: {:?}", other),
    }
    // A timestamp in the future is not stale.
    match read_status_file(StatusFileRead::Parsed(f.clone()), Some(10)) {
        StatusFileVerdict::Accept(g) => assert_eq!(g, f),
        other => panic!("unexpected outcome: {:?}", other),
    }
}

#[test]
fn old_file_needs_a_live_process() {
    let f = file("pi", "idle", 42, 1000);
    match read_status_file(StatusFileRead::Parsed(f.clone()), Some(1031)) {
        StatusFileVerdict::CheckLiveness(g) => assert_eq!(g, f),
        other => panic!("unexpected outcome: {:?}", other),
    }
    match settle_stale_status_file(f.clone(), true) {
        StatusFileVerdict::Accept(g) => assert_eq!(g, f),
        other => panic!("unexpected outcome: {:?}", other),
    }
    assert!(matches!(settle_stale_status_file(f, false), StatusFileVerdict::Remove));
}

#[test]
fn unusable_files_are_ignored_or_removed() {
    assert!(matches!(read_status_file(StatusFileRead::Missing, Some(5)), StatusFileVerdict::Ignore));
    assert!(matches!(read_status_file(StatusFileRead::Unparseable, Some(5)), StatusFileVerdict::Remove));
    assert!(matches!(
        read_status_file(StatusFileRead::Parsed(file("vim", "idle", 1, 0)), Some(0)),
        StatusFileVerdict::Ignore
    ));
    assert!(matches!(
        read_status_file(StatusFileRead::Parsed(file("amp", "busy", 1, 0)), Some(0)),
        StatusFileVerdict::Ignore
    ));
    assert!(matches!(
        read_status_file(StatusFileRead::Parsed(file("amp", "idle", 1, 0)), None),
        StatusFileVerdict::Ignore
    ));
}

#[test]
fn purge_removes_dead_pid() {
    let read = StatusFileRead::Parsed(file("opencode", "idle", 2000000000, 1000));
    assert!(matches!(purge_decision(&read), PurgeAction::RemoveIfDead(2000000000)));
}

#[test]
fn purge_removes_unparseable_and_invalid() {
    assert!(matches!(purge_decision(&StatusFileRead::Unparseable), PurgeAction::Remove));
    assert!(matches!(
        purge_decision(&StatusFileRead::Parsed(file("opencode", "busy", 7, 1000))),
        PurgeAction::Remove
    ));
    assert!(matches!(purge_decision(&StatusFileRead::Missing), PurgeAction::Keep));
}

#[test]
fn json_extension_as_path_sees_it() {
    assert!(has_json_extension("%1.json"));
    assert!(has_json_extension("a.b.json"));
    assert!(!has_json_extension("notes.txt"));
    assert!(!has_json_extension(".json"));
    assert!(!has_json_extension("json"));
    assert!(!has_json_extension("x.json.bak"));
    assert!(!has_json_extension("x.JSON"));
    assert!(has_json_extension("..json"));
}

#[test]
fn status_paths() {
    assert_eq!(status_base_dir_from(Some("/x/state"), Some("/home/u")), "/x/state/amux");
    assert_eq!(status_base_dir_from(None, Some("/home/u")), "/home/u/.local/state/amux");
    assert_eq!(status_base_dir_from(None, None), "/tmp/.local/state/amux");
    assert_eq!(status_base_dir(Some("/x/state")), "/x/state/amux");
    assert!(status_base_dir(None).ends_with("/.local/state/amux"));
    assert_eq!(status_file_path_in("/s/amux", "%3"), "/s/amux/%3.json");
    assert_eq!(status_file_path(Some("/s"), "%3"), "/s/amux/%3.json");
}

#[test]
fn path_joining() {
    assert_eq!(join_path("/a", "b"), "/a/b");
    assert_eq!(join_path("/a/", "b"), "/a/b");
    assert_eq!(join_path("", "b"), "b");
    assert_eq!(join_path("/a", "/b"), "/b");
}

fn detected(pane_id: &str, provider: &'static str) -> AgentInstance {
    AgentInstance {
        pane: PaneInfo {
            session_name: "s".to_string(),
            window_name: "w".to_string(),
            pane_id: pane_id.to_string(),
            pane_pid: 1,
        },
        provider_name: provider,
        status: AgentStatus::Idle,
    }
}

#[test]
fn enrich_picks_the_provider_named_by_the_status_file() {
    let instances = vec![
        detected("%1", "amp"),
        detected("%2", "gemini"),
        detected("%1", "codex"),
        detected("%3", "pi"),
        detected("%4", "opencode"),
    ];
    assert_eq!(distinct_pane_ids(&instances), vec!["%1", "%2", "%3", "%4"]);
    let files = vec![
        ("%1".to_string(), file("codex", "running", 1, 0)),
        ("%3".to_string(), file("amp", "errored", 1, 0)),
        ("%4".to_string(), file("opencode", "busy", 1, 0)),
        ("%1".to_string(), file("amp", "errored", 1, 0)),
    ];
    let out = enrich_detected_statuses(instances, &files);
    let got: Vec<(&str, &str, AgentStatus)> = out
        .iter()
        .map(|i| (i.pane.pane_id.as_str(), i.provider_name, i.status))
        .collect();
    assert_eq!(
        got,
        vec![
            ("%1", "codex", AgentStatus::Running),
            ("%2", "gemini", AgentStatus::Idle),
            ("%3", "pi", AgentStatus::Idle),
            ("%4", "opencode", AgentStatus::Idle),
        ]
    );
}

#[test]
fn enrich_without_files_keeps_first_detection_idle() {
    let mut first = detected("%1", "amp");
    first.status = AgentStatus::Errored;
    let out = enrich_detected_statuses(vec![first, detected("%1", "pi")], &Vec::new());
    assert_eq!(out.len(), 1);
    assert_eq!(out[0].provider_name, "amp");
    assert_eq!(out[0].status, AgentStatus::Idle);
    assert!(enrich_detected_statuses(Vec::new(), &Vec::new()).is_empty());
}

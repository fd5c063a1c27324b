use amux::cli::json::JsonValue;
use amux::cli::needs_install;
use amux::cli::setup_codex::{
    codex_dir, codex_dir_from, command_is_managed, event_requires_matcher, hook_script_path,
    hook_script_path_from, hooks_json_content, hooks_json_path, hooks_json_path_from,
    hooks_json_root, merge_hooks_json, remove_managed_hooks, shell_quote,
};
use amux::cli::{setup_codex, setup_gemini, setup_opencode, setup_pi};
use amux::error::AmuxError;

fn s(v: &str) -> JsonValue {
    JsonValue::String(v.to_string())
}

fn obj(entries: Vec<(&str, JsonValue)>) -> JsonValue {
    JsonValue::Object(entries.into_iter().map(|(k, v)| (k.to_string(), v)).collect())
}

fn command_def(command: &str) -> JsonValue {
    obj(vec![(
        "hooks",
        JsonValue::Array(vec![obj(vec![("type", s("command")), ("command", s(command))])]),
    )])
}

#[test]
fn merge_preserves_user_hooks_and_replaces_managed_hooks() {
    let path = "/Users/example/.codex/hooks/amux-status.sh";
    let existing = obj(vec![
        (
            "hooks",
            obj(vec![
                (
                    "UserPromptSubmit",
                    JsonValue::Array(vec![
                        command_def("echo user"),
                        command_def("'/Users/example/.codex/hooks/amux-status.sh' || true"),
                    ]),
                ),
                ("Stop", JsonValue::Array(vec![])),
            ]),
        ),
        ("other", JsonValue::Bool(true)),
    ]);

    let merged = merge_hooks_json(existing, path);
    let hooks = merged.get("hooks").unwrap();
    let prompt_hooks = hooks.get("UserPromptSubmit").unwrap().as_array().unwrap();
    assert_eq!(prompt_hooks.len(), 2);
    let first = &prompt_hooks[0].get("hooks").unwrap().as_array().unwrap()[0];
    assert_eq!(first.get("command"), Some(&s("echo user")));
    assert_eq!(merged.get("other"), Some(&JsonValue::Bool(true)));
    assert!(hooks.get("SessionStart").unwrap().as_array().is_some());
    assert!(hooks.get("Stop").unwrap().as_array().is_some());
}

#[test]
fn merge_adds_one_managed_definition_per_event() {
    let path = "/home/u/.codex/hooks/amux-status.sh";
    let merged = merge_hooks_json(obj(vec![]), path);
    let hooks = merged.get("hooks").unwrap();
    let command = "'/home/u/.codex/hooks/amux-status.sh' || true";
    for event in [
        "SessionStart",
        "UserPromptSubmit",
        "PreToolUse",
        "PostToolUse",
        "PermissionRequest",
        "SubagentStart",
        "SubagentStop",
        "Stop",
    ] {
        let defs = hooks.get(event).unwrap().as_array().unwrap();
        assert_eq!(defs.len(), 1);
        let def = &defs[0];
        if event_requires_matcher(event) {
            assert_eq!(def.get("matcher"), Some(&s("*")));
        } else {
            assert!(def.get("matcher").is_none());
        }
        let hook = &def.get("hooks").unwrap().as_array().unwrap()[0];
        assert_eq!(hook.get("type"), Some(&s("command")));
        assert_eq!(hook.get("command"), Some(&s(command)));
    }
}

#[test]
fn merging_twice_changes_nothing() {
    let path = "/home/u/.codex/hooks/amux-status.sh";
    let existing = obj(vec![(
        "hooks",
        obj(vec![("Stop", JsonValue::Array(vec![command_def("echo bye")]))]),
    )]);
    let once = merge_hooks_json(existing, path);
    let twice = merge_hooks_json(once.clone(), path);
    assert_eq!(twice, once);
}

#[test]
fn merge_replaces_a_hooks_value_that_is_not_an_object() {
    let merged = merge_hooks_json(obj(vec![("hooks", JsonValue::Bool(false))]), "/p/amux-status.sh");
    assert!(merged.get("hooks").unwrap().get("Stop").is_some());
}

#[test]
fn managed_hook_removal() {
    let p = "/opt/amux-status.sh";
    let mixed = obj(vec![(
        "hooks",
        JsonValue::Array(vec![
            obj(vec![("command", s("echo keep"))]),
            obj(vec![("command", s("/opt/amux-status.sh --x"))]),
        ]),
    )]);
    let cleaned = remove_managed_hooks(&mixed, p).unwrap();
    assert_eq!(cleaned.get("hooks").unwrap().as_array().unwrap().len(), 1);
    let only_managed = command_def("bash ~/.codex/hooks/amux-status.sh");
    assert!(remove_managed_hooks(&only_managed, p).is_none());
    let untouched = JsonValue::Number(serde_json::Number::from(3u64));
    assert_eq!(remove_managed_hooks(&untouched, p), Some(untouched.clone()));
    assert!(command_is_managed("x /opt/amux-status.sh", p));
    assert!(!command_is_managed("echo hi", p));
}

#[test]
fn hooks_root_must_be_an_object() {
    assert_eq!(hooks_json_root(None).unwrap(), obj(vec![]));
    match hooks_json_root(Some(JsonValue::Array(vec![]))) {
        Err(AmuxError::Setup(m)) => {
            assert_eq!(m, "expected ~/.codex/hooks.json to contain a JSON object")
        }
        other => panic!("unexpected result: {:?}", other),
    }
    let root = obj(vec![("a", JsonValue::Null)]);
    assert_eq!(hooks_json_root(Some(root.clone())).unwrap(), root);
}

#[test]
fn shell_quoting() {
    assert_eq!(shell_quote("/a b/c"), "'/a b/c'");
    assert_eq!(shell_quote("it's"), "'it'\\''s'");
    assert_eq!(shell_quote(""), "''");
}

#[test]
fn codex_paths() {
    assert_eq!(codex_dir_from(Some("/home/u")).unwrap(), "/home/u/.codex");
    assert_eq!(
        hook_script_path_from(Some("/home/u")).unwrap(),
        "/home/u/.codex/hooks/amux-status.sh"
    );
    assert_eq!(hooks_json_path_from(Some("/home/u")).unwrap(), "/home/u/.codex/hooks.json");
    match hooks_json_path_from(None) {
        Err(AmuxError::Setup(m)) => assert_eq!(m, "could not determine home directory"),
        other => panic!("unexpected result: {:?}", other),
    }
}

#[test]
fn plugin_versions() {
    assert_eq!(
        setup_codex::version_from_content("#!/bin/sh\n# amux-status 1.2.3\necho\n"),
        Some("1.2.3")
    );
    assert_eq!(setup_codex::version_from_content("# amux-status 1.2.3\n"), None);
    assert_eq!(
        setup_gemini::version_from_content("# amux-status 0.4\nrest"),
        Some("0.4")
    );
    assert_eq!(setup_pi::version_from_content("// amux-status 2\n"), Some("2"));
    assert_eq!(setup_pi::version_from_content("// other 2\n"), None);
    assert_eq!(setup_opencode::version_from_content(""), None);
}

#[test]
fn install_decision() {
    assert_eq!(needs_install(Some("1"), Some(Some("1")), "m").unwrap(), false);
    assert_eq!(needs_install(Some("1"), Some(Some("0")), "m").unwrap(), true);
    assert_eq!(needs_install(Some("1"), Some(None), "m").unwrap(), true);
    assert_eq!(needs_install(Some("1"), None, "m").unwrap(), true);
    match needs_install(None, None, "could not parse version") {
        Err(AmuxError::Setup(m)) => assert_eq!(m, "could not parse version"),
        other => panic!("unexpected result: {:?}", other),
    }
}

#[test]
fn integration_directories() {
    assert_eq!(
        setup_gemini::extension_dir_from(Some("/h")).unwrap(),
        "/h/.gemini/extensions/amux-status"
    );
    assert_eq!(setup_pi::plugin_dir_from(Some("/h")).unwrap(), "/h/.pi/agent/extensions/amux-status");
    assert_eq!(
        setup_opencode::plugin_path_from(None, Some("/h")).unwrap(),
        "/h/.config/opencode/plugins/amux-status.js"
    );
    assert_eq!(
        setup_opencode::plugin_path_from(Some("/x"), Some("/h")).unwrap(),
        "/x/opencode/plugins/amux-status.js"
    );
    assert!(setup_gemini::extension_dir_from(None).is_err());
    assert_eq!(
        setup_opencode::legacy_plugin_path_from(None, Some("/h")).unwrap(),
        "/h/.config/opencode/plugin/amux-status.js"
    );
    assert!(setup_opencode::config_dir_from(None, None).is_err());
}

const INSTALLED: &str = "/home/u/.codex/hooks/amux-status.sh";

#[test]
fn hooks_content_for_a_missing_file() {
    let content = hooks_json_content(None, INSTALLED).unwrap();
    assert!(content.ends_with("}\n"));
    let value: serde_json::Value = serde_json::from_str(&content).unwrap();
    let hooks = value["hooks"].as_object().unwrap();
    assert_eq!(hooks.len(), 8);
    assert_eq!(
        value["hooks"]["Stop"][0]["hooks"][0]["command"],
        serde_json::Value::String("'/home/u/.codex/hooks/amux-status.sh' || true".to_string())
    );
    assert_eq!(value["hooks"]["PreToolUse"][0]["matcher"], serde_json::Value::String("*".to_string()));
    assert!(value["hooks"]["Stop"][0].get("matcher").is_none());
}

#[test]
fn hooks_content_keeps_user_settings_and_is_stable() {
    let existing = r#"{"other": 1.5, "hooks": {"Stop": [{"hooks": [{"type": "command", "command": "echo bye"}]}]}}"#;
    let once = hooks_json_content(Some(existing), INSTALLED).unwrap();
    let value: serde_json::Value = serde_json::from_str(&once).unwrap();
    assert_eq!(value["other"].as_f64(), Some(1.5));
    let stop = value["hooks"]["Stop"].as_array().unwrap();
    assert_eq!(stop.len(), 2);
    assert_eq!(stop[0]["hooks"][0]["command"], serde_json::Value::String("echo bye".to_string()));
    let twice = hooks_json_content(Some(&once), INSTALLED).unwrap();
    assert_eq!(twice, once);
}

#[test]
fn hooks_content_refuses_bad_text() {
    match hooks_json_content(Some("{not json"), INSTALLED) {
        Err(AmuxError::Setup(m)) => assert!(m.starts_with("failed to parse hooks.json: ") && m.len() > 28),
        other => panic!("unexpected result: {:?}", other),
    }
    match hooks_json_content(Some("[1, 2]"), INSTALLED) {
        Err(AmuxError::Setup(m)) => {
            assert_eq!(m, "expected ~/.codex/hooks.json to contain a JSON object")
        }
        other => panic!("unexpected result: {:?}", other),
    }
}

fn home_or_missing(r: Result<String, AmuxError>, suffix: &str) {
    match r {
        Ok(p) => assert!(p.ends_with(suffix), "{p}"),
        Err(AmuxError::Setup(m)) => assert_eq!(m, "could not determine home directory"),
        Err(e) => panic!("unexpected error: {:?}", e),
    }
}

#[test]
fn paths_below_the_system_home() {
    home_or_missing(codex_dir(), ".codex");
    home_or_missing(hook_script_path(), ".codex/hooks/amux-status.sh");
    home_or_missing(hooks_json_path(), ".codex/hooks.json");
    home_or_missing(setup_gemini::extension_dir(), ".gemini/extensions/amux-status");
    home_or_missing(setup_pi::plugin_dir(), ".pi/agent/extensions/amux-status");
    home_or_missing(setup_opencode::plugin_path(None), ".config/opencode/plugins/amux-status.js");
    assert_eq!(setup_opencode::config_dir(Some("/x")).unwrap(), "/x");
    assert_eq!(
        setup_opencode::legacy_plugin_path(Some("/x")).unwrap(),
        "/x/opencode/plugin/amux-status.js"
    );
}

#[test]
fn second_setup_writes_nothing() {
    let bundled = "// amux-status 3.1\nexport default {}\n";
    let installed = bundled.to_string();
    assert!(needs_install(setup_pi::version_from_content(bundled), None, "m").unwrap());
    assert!(!needs_install(
        setup_pi::version_from_content(bundled),
        Some(setup_pi::version_from_content(&installed)),
        "m"
    )
    .unwrap());
}

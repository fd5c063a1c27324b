use amux::agent::amp::AmpProvider;
use amux::agent::codex::{is_codex_process, map_codex_status, CodexProvider};
use amux::agent::gemini::GeminiProvider;
use amux::agent::opencode::OpenCodeProvider;
use amux::agent::pi::{args_contain_pi, PiProvider};
use amux::agent::process_table::ProcessTable;
use amux::agent::status_file::normalized_status;
use amux::agent::{all_providers, AgentProvider, AgentStatus};
use amux::tmux::PaneInfo;

#[test]
fn maps_codex_statuses() {
    assert_eq!(map_codex_status("busy"), Some(AgentStatus::Running));
    assert_eq!(map_codex_status("running"), Some(AgentStatus::Running));
    assert_eq!(map_codex_status("idle"), Some(AgentStatus::Idle));
    assert_eq!(
        map_codex_status("awaiting_input"),
        Some(AgentStatus::AwaitingInput)
    );
    assert_eq!(map_codex_status("errored"), Some(AgentStatus::Errored));
}

#[test]
fn codex_status_rejects_unknown_words() {
    assert_eq!(map_codex_status("Busy"), None);
    assert_eq!(map_codex_status(""), None);
    assert_eq!(map_codex_status("awaiting input"), None);
}

#[test]
fn detects_codex_process_names_and_paths() {
    assert!(is_codex_process("codex", "codex"));
    assert!(is_codex_process("codex-darwin-arm64", "codex"));
    assert!(is_codex_process("node", "/opt/homebrew/bin/codex --foo"));
    assert!(is_codex_process("sh", "/tmp/codex-wrapper/codex-exec"));
    assert!(!is_codex_process("node", "/usr/bin/node other"));
}

#[test]
fn codex_needs_a_whole_name() {
    assert!(!is_codex_process("codexx", "/usr/bin/codexx"));
    assert!(!is_codex_process("node", "/opt/codex/bin/node"));
    assert!(!is_codex_process("", ""));
}

#[test]
fn test_args_contain_pi_direct_binary() {
    assert!(args_contain_pi("/usr/local/bin/pi"));
    assert!(args_contain_pi("/opt/homebrew/bin/pi --interactive"));
}

#[test]
fn test_args_contain_pi_node_invocation() {
    assert!(args_contain_pi(
        "/usr/bin/node /home/user/.npm/bin/pi --workspace /tmp"
    ));
    assert!(args_contain_pi("/usr/bin/bun /usr/local/bin/pi"));
}

#[test]
fn test_args_contain_pi_rejects_substring_matches() {
    assert!(!args_contain_pi(
        "node /Users/user/.local/share/nvim/lazy/copilot.lua/copilot/js/language-server.js --stdio"
    ));
    assert!(!args_contain_pi("node /usr/bin/spin"));
    assert!(!args_contain_pi("/usr/bin/pip install foo"));
    assert!(!args_contain_pi("node /app/api-server.js"));
}

#[test]
fn test_args_contain_pi_empty() {
    assert!(!args_contain_pi(""));
}

#[test]
fn pi_tokens_split_on_any_whitespace() {
    assert!(args_contain_pi("node\t/usr/local/bin/pi"));
    assert!(args_contain_pi("  pi  "));
    assert!(!args_contain_pi("/usr/local/bin/pi/"));
}

#[test]
fn maps_normalized_statuses() {
    assert_eq!(normalized_status("running"), Some(AgentStatus::Running));
    assert_eq!(normalized_status("idle"), Some(AgentStatus::Idle));
    assert_eq!(
        normalized_status("awaiting_input"),
        Some(AgentStatus::AwaitingInput)
    );
    assert_eq!(normalized_status("errored"), Some(AgentStatus::Errored));
    assert_eq!(normalized_status("busy"), None);
}

#[test]
fn status_labels() {
    assert_eq!(AgentStatus::Running.label(), "running");
    assert_eq!(AgentStatus::Idle.label(), "idle");
    assert_eq!(AgentStatus::AwaitingInput.label(), "awaiting input");
    assert_eq!(AgentStatus::Errored.label(), "errored");
}

#[test]
fn all_providers_in_registration_order() {
    let providers = all_providers();
    let names: Vec<&str> = providers.iter().map(|p| p.name()).collect();
    assert_eq!(names, vec!["amp", "codex", "gemini", "opencode", "pi"]);
}

const PS_OUTPUT: &str = "\
  PID  PPID COMM             ARGS
    1     0 launchd          /sbin/launchd
  100     1 bash             /bin/bash --login
  110   100 amp              amp
  200     1 zsh              -zsh
  210   200 node             /usr/bin/node /home/user/.npm/bin/gemini
  300     1 zsh              -zsh
  310   300 opencode         opencode --workspace /tmp
  400     1 zsh              -zsh
  410   400 bun              /usr/bin/bun /usr/local/bin/pi
  500     1 zsh              -zsh
  510   500 node             /opt/homebrew/bin/codex --foo
  600     1 zsh              -zsh
";

fn pane(id: &str, pid: u32) -> PaneInfo {
    PaneInfo {
        session_name: "s".to_string(),
        window_name: "w".to_string(),
        pane_id: id.to_string(),
        pane_pid: pid,
    }
}

fn panes() -> Vec<PaneInfo> {
    vec![
        pane("%1", 100),
        pane("%2", 200),
        pane("%3", 300),
        pane("%4", 400),
        pane("%5", 500),
        pane("%6", 600),
    ]
}

fn found_panes<P: AgentProvider>(provider: &P, table: &ProcessTable) -> Vec<String> {
    let instances = provider.discover(&panes(), table).unwrap();
    for inst in &instances {
        assert_eq!(inst.status, AgentStatus::Idle);
        assert_eq!(inst.provider_name, provider.name());
    }
    instances.iter().map(|i| i.pane.pane_id.clone()).collect()
}

#[test]
fn providers_detect_their_own_panes() {
    let table = ProcessTable::parse(PS_OUTPUT);
    assert_eq!(found_panes(&AmpProvider, &table), vec!["%1"]);
    assert_eq!(found_panes(&GeminiProvider, &table), vec!["%2"]);
    assert_eq!(found_panes(&OpenCodeProvider, &table), vec!["%3"]);
    assert_eq!(found_panes(&PiProvider, &table), vec!["%4"]);
    assert_eq!(found_panes(&CodexProvider, &table), vec!["%5"]);
}

#[test]
fn providers_find_nothing_in_an_empty_table() {
    let table = ProcessTable::empty();
    assert!(found_panes(&AmpProvider, &table).is_empty());
    assert!(found_panes(&PiProvider, &table).is_empty());
}

#[test]
fn opencode_is_any_name_starting_with_opencode() {
    let text = "PID PPID COMM ARGS\n10 1 opencode_cli x\n20 1 opencode-darwin-arm64 y\n30 1 opencode z\n40 1 open code\n";
    let table = ProcessTable::parse(text);
    let panes = vec![pane("%1", 10), pane("%2", 20), pane("%3", 30), pane("%4", 40)];
    let found = OpenCodeProvider.discover(&panes, &table).unwrap();
    let ids: Vec<&str> = found.iter().map(|i| i.pane.pane_id.as_str()).collect();
    assert_eq!(ids, vec!["%1", "%2", "%3"]);
}

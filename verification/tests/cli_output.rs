use amux::agent::{AgentInstance, AgentStatus};
use amux::cli::list::{fzf_input, format_line, gather_instances, prepare_listing, select_instance};
use amux::cli::status::{format_status_summary, gather_available_instances, status_to_icon, TMUX_FAILURE_INDICATOR};
use amux::error::AmuxError;
use amux::tmux::PaneInfo;

fn instance(session: &str, window: &str, pane_id: &str, provider: &'static str, status: AgentStatus) -> AgentInstance {
    AgentInstance {
        pane: PaneInfo {
            session_name: session.to_string(),
            window_name: window.to_string(),
            pane_id: pane_id.to_string(),
            pane_pid: 1,
        },
        provider_name: provider,
        status,
    }
}

#[test]
fn test_format_line() {
    let instance = AgentInstance {
        pane: PaneInfo {
            session_name: "work".to_string(),
            window_name: "code".to_string(),
            pane_id: "%3".to_string(),
            pane_pid: 100,
        },
        provider_name: "opencode",
        status: AgentStatus::Running,
    };
    assert_eq!(format_line(&instance), "[work > code] opencode - running");
}

#[test]
fn test_format_line_awaiting_input() {
    let instance = AgentInstance {
        pane: PaneInfo {
            session_name: "dev".to_string(),
            window_name: "agent".to_string(),
            pane_id: "%1".to_string(),
            pane_pid: 200,
        },
        provider_name: "opencode",
        status: AgentStatus::AwaitingInput,
    };
    assert_eq!(
        format_line(&instance),
        "[dev > agent] opencode - awaiting input"
    );
}

fn create_instance(status: AgentStatus) -> AgentInstance {
    AgentInstance {
        pane: PaneInfo {
            session_name: "test".to_string(),
            window_name: "0".to_string(),
            pane_id: "0".to_string(),
            pane_pid: 0,
        },
        provider_name: "test",
        status,
    }
}

#[test]
fn test_format_status_summary_all_statuses() {
    let instances = vec![
        create_instance(AgentStatus::Running),
        create_instance(AgentStatus::Running),
        create_instance(AgentStatus::Idle),
        create_instance(AgentStatus::AwaitingInput),
        create_instance(AgentStatus::Errored),
    ];
    assert_eq!(
        format_status_summary(&instances),
        "#[fg=green]● #[fg=green]● #[default]○ #[fg=yellow]⚠ #[fg=red]✖#[default]"
    );
}

#[test]
fn test_format_status_summary_only_running() {
    let instances = vec![
        create_instance(AgentStatus::Running),
        create_instance(AgentStatus::Running),
        create_instance(AgentStatus::Running),
    ];
    assert_eq!(
        format_status_summary(&instances),
        "#[fg=green]● #[fg=green]● #[fg=green]●#[default]"
    );
}

#[test]
fn test_format_status_summary_only_awaiting() {
    let instances = vec![
        create_instance(AgentStatus::AwaitingInput),
        create_instance(AgentStatus::AwaitingInput),
    ];
    assert_eq!(
        format_status_summary(&instances),
        "#[fg=yellow]⚠ #[fg=yellow]⚠#[default]"
    );
}

#[test]
fn test_format_status_summary_empty() {
    let instances: Vec<AgentInstance> = vec![];
    assert_eq!(format_status_summary(&instances), "");
}

#[test]
fn test_format_status_summary_mixed() {
    let instances = vec![
        create_instance(AgentStatus::Running),
        create_instance(AgentStatus::Errored),
        create_instance(AgentStatus::Errored),
    ];
    assert_eq!(
        format_status_summary(&instances),
        "#[fg=green]● #[fg=red]✖ #[fg=red]✖#[default]"
    );
}

#[test]
fn single_instance_summary_has_no_separator() {
    let instances = vec![create_instance(AgentStatus::Idle)];
    assert_eq!(format_status_summary(&instances), "#[default]○#[default]");
}

#[test]
fn icons_and_failure_indicator() {
    assert_eq!(status_to_icon(&AgentStatus::Running), "#[fg=green]●");
    assert_eq!(status_to_icon(&AgentStatus::Idle), "#[default]○");
    assert_eq!(status_to_icon(&AgentStatus::AwaitingInput), "#[fg=yellow]⚠");
    assert_eq!(status_to_icon(&AgentStatus::Errored), "#[fg=red]✖");
    assert_eq!(TMUX_FAILURE_INDICATOR, "#[fg=red]⚠");
}

#[test]
fn fzf_input_lines_carry_pane_ids() {
    let instances = vec![
        instance("work", "code", "%3", "amp", AgentStatus::Running),
        instance("dev", "agent", "%1", "pi", AgentStatus::Errored),
    ];
    assert_eq!(
        fzf_input(&instances),
        "[work > code] amp - running\t%3\n[dev > agent] pi - errored\t%1"
    );
    assert_eq!(fzf_input(&Vec::new()), "");
}

#[test]
fn listing_without_agents_is_an_error_unless_filtered() {
    match prepare_listing(Vec::new(), None) {
        Err(AmuxError::NoAgentsFound) => {}
        other => panic!("unexpected result: {:?}", other),
    }
    let shown = prepare_listing(
        vec![instance("s", "w", "%1", "amp", AgentStatus::Idle)],
        Some(AgentStatus::Running),
    )
    .unwrap();
    assert!(shown.is_empty());
}

#[test]
fn listing_keeps_only_the_filtered_status_in_order() {
    let instances = vec![
        instance("s", "w", "%1", "amp", AgentStatus::Running),
        instance("s", "w", "%2", "pi", AgentStatus::Idle),
        instance("s", "w", "%3", "codex", AgentStatus::Running),
    ];
    let shown = prepare_listing(instances, Some(AgentStatus::Running)).unwrap();
    let ids: Vec<&str> = shown.iter().map(|i| i.pane.pane_id.as_str()).collect();
    assert_eq!(ids, vec!["%1", "%3"]);
    let all = prepare_listing(vec![instance("s", "w", "%9", "amp", AgentStatus::Idle)], None).unwrap();
    assert_eq!(all.len(), 1);
}

#[test]
fn selection_picks_the_pane_after_the_last_tab() {
    let instances = vec![
        instance("work", "code", "%3", "amp", AgentStatus::Running),
        instance("dev", "agent", "%1", "pi", AgentStatus::Errored),
    ];
    let chosen = select_instance(&instances, "[dev > agent] pi - errored\t%1\n").unwrap();
    assert_eq!(chosen.provider_name, "pi");
    assert_eq!(chosen.pane.pane_id, "%1");
    let plain = select_instance(&instances, "%3").unwrap();
    assert_eq!(plain.provider_name, "amp");
    match select_instance(&instances, "line\t%7") {
        Err(AmuxError::FzfNoSelection) => {}
        other => panic!("unexpected result: {:?}", other),
    }
    assert!(select_instance(&instances, "").is_err());
}

#[test]
fn gathering_stops_at_the_first_failed_provider() {
    let results = vec![
        Ok(vec![instance("s", "w", "%1", "amp", AgentStatus::Idle)]),
        Err(AmuxError::Provider("boom".to_string())),
        Err(AmuxError::Provider("later".to_string())),
    ];
    match gather_instances(results) {
        Err(AmuxError::Provider(m)) => assert_eq!(m, "boom"),
        other => panic!("unexpected result: {:?}", other),
    }
    let ok = gather_instances(vec![
        Ok(vec![instance("s", "w", "%1", "amp", AgentStatus::Idle)]),
        Ok(vec![instance("s", "w", "%2", "pi", AgentStatus::Idle)]),
    ])
    .unwrap();
    assert_eq!(ok.len(), 2);
    assert_eq!(ok[1].provider_name, "pi");
}

#[test]
fn status_gathering_skips_failed_providers() {
    let results = vec![
        Ok(vec![instance("s", "w", "%1", "amp", AgentStatus::Idle)]),
        Err(AmuxError::Provider("boom".to_string())),
        Ok(vec![instance("s", "w", "%2", "pi", AgentStatus::Running)]),
    ];
    let found = gather_available_instances(results);
    let names: Vec<&str> = found.iter().map(|i| i.provider_name).collect();
    assert_eq!(names, vec!["amp", "pi"]);
}

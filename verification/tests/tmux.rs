use std::cell::RefCell;

use amux::error::AmuxError;
use amux::tmux::{
    list_panes, parse_list_panes_output, switch_to_pane, PaneInfo, TmuxRunner, LIST_PANES_FORMAT,
};

#[test]
fn test_parse_list_panes_output_single_pane() {
    let output = "main\teditor\t%0\t1234\n";
    let panes = parse_list_panes_output(output).unwrap();
    assert_eq!(panes.len(), 1);
    assert_eq!(
        panes[0],
        PaneInfo {
            session_name: "main".to_string(),
            window_name: "editor".to_string(),
            pane_id: "%0".to_string(),
            pane_pid: 1234,
        }
    );
}

#[test]
fn test_parse_list_panes_output_multiple_panes() {
    let output = "main\teditor\t%0\t1234\nwork\tshell\t%1\t5678\nwork\tshell\t%2\t9012\n";
    let panes = parse_list_panes_output(output).unwrap();
    assert_eq!(panes.len(), 3);
    assert_eq!(panes[0].session_name, "main");
    assert_eq!(panes[1].session_name, "work");
    assert_eq!(panes[2].pane_id, "%2");
}

#[test]
fn test_parse_list_panes_output_empty() {
    let output = "";
    let panes = parse_list_panes_output(output).unwrap();
    assert!(panes.is_empty());
}

#[test]
fn test_parse_list_panes_output_blank_lines() {
    let output = "\nmain\teditor\t%0\t1234\n\n";
    let panes = parse_list_panes_output(output).unwrap();
    assert_eq!(panes.len(), 1);
}

#[test]
fn test_parse_list_panes_output_bad_columns() {
    let output = "main\teditor\t%0\n";
    let result = parse_list_panes_output(output);
    assert!(result.is_err());
}

#[test]
fn test_parse_list_panes_output_bad_pid() {
    let output = "main\teditor\t%0\tnotanumber\n";
    let result = parse_list_panes_output(output);
    assert!(result.is_err());
}

#[test]
fn parse_list_panes_error_messages() {
    match parse_list_panes_output("main\teditor\t%0\n") {
        Err(AmuxError::Tmux(m)) => assert_eq!(m, "unexpected list-panes output: main\teditor\t%0"),
        other => panic!("unexpected result: {:?}", other),
    }
    match parse_list_panes_output("a\tb\t%0\tx1\n") {
        Err(AmuxError::Tmux(m)) => assert_eq!(m, "invalid pane pid: x1"),
        other => panic!("unexpected result: {:?}", other),
    }
}

#[test]
fn parse_list_panes_trims_lines_and_allows_extra_tabs_in_fields() {
    let panes = parse_list_panes_output("  s\tw\t%9\t77 \r\n").unwrap();
    assert_eq!(panes.len(), 1);
    assert_eq!(panes[0].session_name, "s");
    assert_eq!(panes[0].pane_pid, 77);
    assert!(parse_list_panes_output("a\tb\tc\td\te\n").is_err());
    assert!(parse_list_panes_output("a\tb\t%1\t4294967296\n").is_err());
    assert!(parse_list_panes_output("a\tb\t%1\t 7\n").is_err());
    assert_eq!(parse_list_panes_output("a\tb\t%1\t+7\n").unwrap()[0].pane_pid, 7);
}

struct MockTmuxRunner {
    responses: RefCell<Vec<Result<String, AmuxError>>>,
    calls: RefCell<Vec<Vec<String>>>,
}

impl MockTmuxRunner {
    fn new(responses: Vec<Result<String, AmuxError>>) -> Self {
        Self {
            responses: RefCell::new(responses.into_iter().rev().collect()),
            calls: RefCell::new(Vec::new()),
        }
    }

    fn calls(&self) -> Vec<Vec<String>> {
        self.calls.borrow().clone()
    }
}

impl TmuxRunner for MockTmuxRunner {
    fn run(&self, args: &[&str]) -> Result<String, AmuxError> {
        self.calls
            .borrow_mut()
            .push(args.iter().map(|s| s.to_string()).collect());
        self.responses
            .borrow_mut()
            .pop()
            .unwrap_or(Err(AmuxError::Tmux("no mock response".to_string())))
    }
}

#[test]
fn test_list_panes_delegates_to_runner() {
    let mock = MockTmuxRunner::new(vec![Ok("sess\twin\t%0\t42\n".to_string())]);
    let panes = list_panes(&mock).unwrap();
    assert_eq!(panes.len(), 1);
    assert_eq!(panes[0].pane_pid, 42);

    let calls = mock.calls();
    assert_eq!(calls.len(), 1);
    assert_eq!(calls[0], vec!["list-panes", "-a", "-F", LIST_PANES_FORMAT]);
}

#[test]
fn test_list_panes_propagates_error() {
    let mock = MockTmuxRunner::new(vec![Err(AmuxError::Tmux("server exited".to_string()))]);
    let result = list_panes(&mock);
    assert!(result.is_err());
}

#[test]
fn list_panes_propagates_parse_error() {
    let mock = MockTmuxRunner::new(vec![Ok("only\ttwo\n".to_string())]);
    assert!(list_panes(&mock).is_err());
}

#[test]
fn test_switch_to_pane_runs_correct_commands() {
    let mock = MockTmuxRunner::new(vec![
        Ok(String::new()),
        Ok(String::new()),
        Ok(String::new()),
    ]);

    let pane = PaneInfo {
        session_name: "work".to_string(),
        window_name: "code".to_string(),
        pane_id: "%3".to_string(),
        pane_pid: 100,
    };

    switch_to_pane(&mock, &pane).unwrap();

    let calls = mock.calls();
    assert_eq!(calls.len(), 3);
    assert_eq!(calls[0], vec!["switch-client", "-t", "work"]);
    assert_eq!(calls[1], vec!["select-window", "-t", "work:code"]);
    assert_eq!(calls[2], vec!["select-pane", "-t", "%3"]);
}

#[test]
fn test_switch_to_pane_stops_on_first_error() {
    let mock = MockTmuxRunner::new(vec![Err(AmuxError::Tmux("session not found".to_string()))]);

    let pane = PaneInfo {
        session_name: "gone".to_string(),
        window_name: "x".to_string(),
        pane_id: "%0".to_string(),
        pane_pid: 1,
    };

    let result = switch_to_pane(&mock, &pane);
    assert!(result.is_err());
    assert_eq!(mock.calls().len(), 1);
}

#[test]
fn switch_to_pane_stops_after_second_command_fails() {
    let mock = MockTmuxRunner::new(vec![
        Ok(String::new()),
        Err(AmuxError::Tmux("no window".to_string())),
        Ok(String::new()),
    ]);
    let pane = PaneInfo {
        session_name: "s".to_string(),
        window_name: "w".to_string(),
        pane_id: "%1".to_string(),
        pane_pid: 1,
    };
    match switch_to_pane(&mock, &pane) {
        Err(AmuxError::Tmux(m)) => assert_eq!(m, "no window"),
        other => panic!("unexpected result: {:?}", other),
    }
    assert_eq!(mock.calls().len(), 2);
}

#[test]
fn list_panes_output_reads_back_the_panes() {
    let panes = vec![
        PaneInfo {
            session_name: "main".to_string(),
            window_name: "two words".to_string(),
            pane_id: "%0".to_string(),
            pane_pid: 0,
        },
        PaneInfo {
            session_name: "w".to_string(),
            window_name: "".to_string(),
            pane_id: "%12".to_string(),
            pane_pid: u32::MAX,
        },
    ];
    let output: String = panes
        .iter()
        .map(|p| format!("{}\t{}\t{}\t{}\n", p.session_name, p.window_name, p.pane_id, p.pane_pid))
        .collect();
    assert_eq!(parse_list_panes_output(&output).unwrap(), panes);
}

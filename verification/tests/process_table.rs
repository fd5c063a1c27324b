use amux::agent::process_table::{ProcessInfo, ProcessTable};

const SAMPLE_PS_OUTPUT: &str = "\
  PID  PPID COMM             ARGS
    1     0 launchd          /sbin/launchd
  100     1 bash             /bin/bash --login
  200   100 node             /usr/bin/node /home/user/.npm/bin/gemini
  300   100 opencode         opencode --workspace /tmp
  400   200 cat              cat /dev/null
";

const HOMEBREW_PS_OUTPUT: &str = "\
  PID  PPID COMM             ARGS
    1     0 launchd          /sbin/launchd
  100     1 bash             /bin/bash --login
  200   100 /opt/homebrew/op /opt/homebrew/opt/node/bin/node /opt/homebrew/bin/gemini
  201   100 /opt/homebrew/Ce /opt/homebrew/Cellar/node/25.6.1_1/bin/node /opt/homebrew/bin/gemini
";

#[test]
fn test_parse_ps_output() {
    let table = ProcessTable::parse(SAMPLE_PS_OUTPUT);

    assert_eq!(table.process_count(), 5);

    let p1 = table.process(1).unwrap();
    assert_eq!(p1.pid, 1);
    assert_eq!(p1.ppid, 0);
    assert_eq!(p1.comm, "launchd");
    assert_eq!(p1.args, "/sbin/launchd");

    let p200 = table.process(200).unwrap();
    assert_eq!(p200.pid, 200);
    assert_eq!(p200.ppid, 100);
    assert_eq!(p200.comm, "node");
    assert_eq!(p200.args, "/usr/bin/node /home/user/.npm/bin/gemini");

    let kids_of_100 = table.children_of(100).unwrap();
    assert!(kids_of_100.contains(&200));
    assert!(kids_of_100.contains(&300));

    let kids_of_200 = table.children_of(200).unwrap();
    assert!(kids_of_200.contains(&400));
}

#[test]
fn test_tree_walk_finds_nested_process() {
    let table = ProcessTable::parse(SAMPLE_PS_OUTPUT);
    let found = table.has_process_in_tree(100, &|info: &ProcessInfo| info.comm == "cat");
    assert!(found);
}

#[test]
fn test_tree_walk_returns_false_when_no_match() {
    let table = ProcessTable::parse(SAMPLE_PS_OUTPUT);
    let found = table.has_process_in_tree(100, &|info: &ProcessInfo| info.comm == "vim");
    assert!(!found);
}

#[test]
fn test_parse_truncated_comm_derives_basename_from_args() {
    let table = ProcessTable::parse(HOMEBREW_PS_OUTPUT);

    let p200 = table.process(200).unwrap();
    assert_eq!(p200.comm, "node");
    assert_eq!(
        p200.args,
        "/opt/homebrew/opt/node/bin/node /opt/homebrew/bin/gemini"
    );

    let p201 = table.process(201).unwrap();
    assert_eq!(p201.comm, "node");
    assert_eq!(
        p201.args,
        "/opt/homebrew/Cellar/node/25.6.1_1/bin/node /opt/homebrew/bin/gemini"
    );
}

#[test]
fn test_homebrew_node_gemini_is_detected_in_tree() {
    let table = ProcessTable::parse(HOMEBREW_PS_OUTPUT);
    let found = table.has_process_in_tree(100, &|info: &ProcessInfo| {
        info.comm == "gemini" || (info.comm == "node" && info.args.contains("gemini"))
    });
    assert!(
        found,
        "Gemini should be detected under a Homebrew Node process"
    );
}

#[test]
fn tree_walk_does_not_look_above_the_root() {
    let table = ProcessTable::parse(SAMPLE_PS_OUTPUT);
    assert!(!table.has_process_in_tree(200, &|info: &ProcessInfo| info.comm == "opencode"));
    assert!(table.has_process_in_tree(200, &|info: &ProcessInfo| info.comm == "node"));
    assert!(table.has_process_in_tree(1, &|info: &ProcessInfo| info.comm == "cat"));
}

#[test]
fn tree_walk_from_unknown_root_finds_nothing() {
    let table = ProcessTable::parse(SAMPLE_PS_OUTPUT);
    assert!(!table.has_process_in_tree(999, &|_info: &ProcessInfo| true));
}

#[test]
fn tree_walk_from_parent_without_entry_reaches_children() {
    // pid 0 is no row of its own, but launchd names it as parent.
    let table = ProcessTable::parse(SAMPLE_PS_OUTPUT);
    assert!(table.process(0).is_none());
    assert!(table.has_process_in_tree(0, &|info: &ProcessInfo| info.comm == "cat"));
}

#[test]
fn tree_walk_terminates_on_cycles() {
    let text = "PID PPID COMM ARGS\n10 20 a a\n20 10 b b\n";
    let table = ProcessTable::parse(text);
    assert!(!table.has_process_in_tree(10, &|info: &ProcessInfo| info.comm == "c"));
    assert!(table.has_process_in_tree(10, &|info: &ProcessInfo| info.comm == "b"));
}

#[test]
fn parse_skips_header_blank_and_malformed_lines() {
    let text = "PID PPID COMM ARGS\n\n   \nabc 1 x y\n5 notanumber x y\n7\n8 1\n9 1 sh\n";
    let table = ProcessTable::parse(text);
    assert_eq!(table.process_count(), 1);
    let p = table.process(9).unwrap();
    assert_eq!(p.comm, "sh");
    assert_eq!(p.args, "");
    assert_eq!(table.children_of(1).unwrap(), &vec![9]);
}

#[test]
fn parse_keeps_the_last_row_of_a_pid() {
    let text = "PID PPID COMM ARGS\n5 1 first a\n5 2 second b\n";
    let table = ProcessTable::parse(text);
    assert_eq!(table.process_count(), 1);
    assert_eq!(table.process(5).unwrap().comm, "second");
    assert_eq!(table.children_of(1).unwrap(), &vec![5]);
    assert_eq!(table.children_of(2).unwrap(), &vec![5]);
}

#[test]
fn parse_empty_output() {
    let table = ProcessTable::parse("");
    assert_eq!(table.process_count(), 0);
    assert!(table.children_of(0).is_none());
}

#[test]
fn comm_path_keeps_basename_without_args() {
    let text = "PID PPID COMM ARGS\n3 1 /usr/bin/zsh\n";
    let table = ProcessTable::parse(text);
    assert_eq!(table.process(3).unwrap().comm, "zsh");
}

#[test]
fn empty_table_has_no_processes() {
    let table = ProcessTable::empty();
    assert_eq!(table.process_count(), 0);
    assert!(!table.has_process_in_tree(1, &|_info: &ProcessInfo| true));
}

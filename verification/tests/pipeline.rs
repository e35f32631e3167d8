//! End-to-end checks of the pipeline stages: argument parsing, listener
//! resolution and kill reporting.

use portkill::args::{parse_port_args, ArgsOutcome};
use portkill::report::{
    attempt_message, clean_diagnostic, invalid_port_message, kill_report, no_processes_message,
    search_message, usage_message,
};
use portkill::resolver::{find_listening_pids, line_pid, split_lines};

fn strings(items: &[&str]) -> Vec<String> {
    items.iter().map(|s| s.to_string()).collect()
}

fn chars(s: &str) -> Vec<char> {
    s.chars().collect()
}

const TABLE: &str = "\
Active Connections\n\
\n\
  Proto  Local Address          Foreign Address        State           PID\n\
  TCP    0.0.0.0:8080           0.0.0.0:0              LISTENING       1234\n\
  TCP    0.0.0.0:3000           0.0.0.0:0              LISTENING       5678\n\
  TCP    10.0.0.5:8080          93.184.216.34:443      ESTABLISHED     4321\n\
  TCP    0.0.0.0:80             0.0.0.0:0              LISTENING       99\n";

#[test]
fn parse_dedups_first_seen() {
    match parse_port_args(&strings(&["8080", "3000", "8080"])) {
        ArgsOutcome::Ports(ports) => assert_eq!(ports, vec![8080, 3000]),
        _ => panic!("expected ports"),
    }
}

#[test]
fn parse_no_args_gives_usage() {
    match parse_port_args(&strings(&[])) {
        ArgsOutcome::Usage => {}
        _ => panic!("expected usage"),
    }
}

#[test]
fn parse_reports_first_bad_argument() {
    match parse_port_args(&strings(&["8080", "notaport", "alsobad"])) {
        ArgsOutcome::BadPort(i) => assert_eq!(i, 1),
        _ => panic!("expected a bad port"),
    }
}

#[test]
fn parse_rejects_out_of_range_port() {
    match parse_port_args(&strings(&["70000"])) {
        ArgsOutcome::BadPort(i) => assert_eq!(i, 0),
        _ => panic!("expected a bad port"),
    }
}

#[test]
fn parse_rejects_negative_port() {
    match parse_port_args(&strings(&["-1"])) {
        ArgsOutcome::BadPort(i) => assert_eq!(i, 0),
        _ => panic!("expected a bad port"),
    }
}

#[test]
fn parse_accepts_plus_sign() {
    match parse_port_args(&strings(&["+80"])) {
        ArgsOutcome::Ports(ports) => assert_eq!(ports, vec![80]),
        _ => panic!("expected ports"),
    }
}

#[test]
fn resolver_finds_listening_pid() {
    let text = "TCP 0.0.0.0:8080 0.0.0.0:0 LISTENING 1234";
    let pids = find_listening_pids(text, &vec![8080]);
    assert!(pids.contains(&1234));
    assert_eq!(pids.len(), 1);
}

#[test]
fn resolver_ignores_established_lines() {
    let text = "TCP 0.0.0.0:8080 0.0.0.0:0 ESTABLISHED 4321";
    let pids = find_listening_pids(text, &vec![8080]);
    assert!(pids.is_empty());
}

#[test]
fn resolver_respects_port_boundary() {
    let text = "TCP 0.0.0.0:80 0.0.0.0:0 LISTENING 99";
    let pids = find_listening_pids(text, &vec![8080]);
    assert!(pids.is_empty());
}

#[test]
fn resolver_shorter_port_does_not_match_longer_address() {
    let text = "TCP 0.0.0.0:8080 0.0.0.0:0 LISTENING 1234";
    let pids = find_listening_pids(text, &vec![80]);
    assert!(pids.is_empty());
}

#[test]
fn resolver_collapses_same_pid() {
    let text = "TCP 0.0.0.0:8080 0.0.0.0:0 LISTENING 1234\n\
                TCP 0.0.0.0:3000 0.0.0.0:0 LISTENING 1234";
    let pids = find_listening_pids(text, &vec![8080, 3000]);
    assert_eq!(pids, vec![1234]);
}

#[test]
fn resolver_scans_full_table() {
    let mut pids = find_listening_pids(TABLE, &vec![8080, 3000, 9999]);
    pids.sort();
    assert_eq!(pids, vec![1234, 5678]);
}

#[test]
fn resolver_empty_when_nothing_listens() {
    let pids = find_listening_pids(TABLE, &vec![4444, 5555]);
    assert!(pids.is_empty());
}

#[test]
fn resolver_skips_non_numeric_pid_field() {
    let text = "TCP 0.0.0.0:8080 0.0.0.0:0 LISTENING pid";
    let pids = find_listening_pids(text, &vec![8080]);
    assert!(pids.is_empty());
}

#[test]
fn line_pid_reads_last_field() {
    let line = chars("  TCP 0.0.0.0:8080 0.0.0.0:0 LISTENING 1234  ");
    assert_eq!(line_pid(&line, 8080), Some(1234));
    assert_eq!(line_pid(&line, 3000), None);
}

#[test]
fn split_lines_keeps_every_piece() {
    let pieces = split_lines(&chars("a\nbc\n\nd"));
    let views: Vec<String> = pieces.iter().map(|p| p.iter().collect()).collect();
    assert_eq!(views, vec!["a", "bc", "", "d"]);
}

#[test]
fn kill_report_success_notice() {
    let msg = kill_report(1234, true, "");
    assert_eq!(msg, "Successfully killed PID 1234");
}

#[test]
fn kill_report_strips_error_prefix() {
    let msg = kill_report(1234, false, "ERROR: Access is denied.");
    assert_eq!(msg, "Failed to kill PID 1234: Access is denied.");
}

#[test]
fn clean_diagnostic_trims_and_strips() {
    assert_eq!(clean_diagnostic("  ERROR: Access is denied. \r\n"), "Access is denied.");
    assert_eq!(clean_diagnostic("   boom  "), "boom");
    assert_eq!(clean_diagnostic("error: lower case stays"), "error: lower case stays");
    assert_eq!(clean_diagnostic("ERROR:"), "ERROR:");
    assert_eq!(clean_diagnostic(""), "");
}

#[test]
fn attempt_notice_names_pid() {
    assert_eq!(attempt_message(42), "Attempting to kill PID 42");
}

#[test]
fn usage_and_error_messages() {
    assert_eq!(usage_message(), "Usage: taskkill2 <port1> <port2> <port3> ...");
    assert_eq!(invalid_port_message("foo"), "Invalid port number supplied: foo");
    assert_eq!(no_processes_message(), "Found no processes running on the given ports.");
}

#[test]
fn search_notice_lists_ports() {
    assert_eq!(
        search_message(&vec![8080]),
        "Searching for processes listening on ports: 8080"
    );
    assert_eq!(
        search_message(&vec![8080, 3000]),
        "Searching for processes listening on ports: 8080 and 3000"
    );
    assert_eq!(
        search_message(&vec![8080, 3000, 443]),
        "Searching for processes listening on ports: 8080, 3000, and 443"
    );
}

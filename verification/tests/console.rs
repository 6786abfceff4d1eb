use xdp_fw::app::{handle_input_at, record_log_event, scroll_offset, App};
use xdp_fw::command::{execute, handle_input, parse, Command, CommandError};
use xdp_fw::event::{handle_event_at, Event, KeyCode};
use xdp_fw::logs::{decode_log_event, LogEvent};
use xdp_fw::table::RuleTable;
use xdp_fw::util::{format_rule, system_line};

fn stamp() -> Vec<char> {
    "12:34:56".chars().collect()
}

fn loaded() -> App {
    let mut app = App::new();
    app.rules = Some(RuleTable::new());
    app
}

fn run(app: &mut App, line: &str) -> Vec<String> {
    let before = app.system_logs.len();
    handle_input_at(app, line, &stamp());
    app.system_logs[before..].to_vec()
}

fn st(msg: &str) -> String {
    format!("[12:34:56] {msg}")
}

#[test]
fn help_lines_are_not_stamped() {
    let mut app = App::new();
    let out = run(&mut app, "help");
    assert_eq!(out.len(), 21);
    assert_eq!(out[0], "commands:");
    assert_eq!(out[20], "  remove 1.2.3.4");
    let out = run(&mut app, "help deny");
    assert_eq!(out.len(), 11);
    assert_eq!(out[0], "block \u{2014} drop matching traffic (alias: deny)");
    let out = run(&mut app, "? ALLOW");
    assert_eq!(out.len(), 9);
    assert_eq!(out[0], "allow \u{2014} permit matching traffic");
    let out = run(&mut app, "help rules");
    assert_eq!(out, vec![st("unknown help topic: rules (try: block, allow)")]);
}

#[test]
fn commands_need_a_loaded_program() {
    let mut app = App::new();
    assert_eq!(run(&mut app, "block 1.2.3.4"), vec![st("eBPF not loaded")]);
    assert_eq!(run(&mut app, "rules"), vec![st("eBPF not loaded")]);
    assert_eq!(run(&mut app, "remove all"), vec![st("eBPF not loaded")]);
}

#[test]
fn block_list_and_remove() {
    let mut app = loaded();
    assert_eq!(run(&mut app, "block 1.2.3.4"), vec![st("blocked from 1.2.3.4")]);
    assert_eq!(run(&mut app, "allow port 443/tcp from 10.0.0.0/8"), vec![st("allowed tcp port 443 from 10.0.0.0/8")]);
    assert_eq!(run(&mut app, "deny udp 53"), vec![st("blocked udp port 53")]);
    let t = app.rules.as_ref().unwrap();
    assert_eq!(t.count(), 3);
    let r0 = t.slot(0);
    let r1 = t.slot(1);
    let r2 = t.slot(2);
    let out = run(&mut app, "rules");
    assert_eq!(out, vec![st("3 active rule(s):"), format_rule(0, &r0), format_rule(1, &r1), format_rule(2, &r2)]);
    let out = run(&mut app, "list 10.1.1.1");
    assert_eq!(out, vec![st("1 rule(s) matching 10.1.1.1:"), format_rule(1, &r1)]);
    assert_eq!(run(&mut app, "rules 9.9.9.9"), vec![st("no rules matching 9.9.9.9")]);
    assert_eq!(run(&mut app, "remove 5"), vec![st("remove failed: rule #5 does not exist (active rules: 0..2)")]);
    assert_eq!(run(&mut app, "rm 0"), vec![st("removed rule #0")]);
    assert_eq!(run(&mut app, "delete 1.2.3.4"), vec![st("no rules matching 1.2.3.4")]);
    assert_eq!(run(&mut app, "del 10.9.9.9"), vec![st("removed 1 rule(s) matching 10.9.9.9")]);
    assert_eq!(run(&mut app, "remove all"), vec![st("removed all 1 rule(s)")]);
    assert_eq!(run(&mut app, "rules"), vec![st("no active rules")]);
}

#[test]
fn refused_lines_show_their_message() {
    let mut app = loaded();
    assert_eq!(run(&mut app, "flush"), vec![st("unknown command: flush (try 'help')")]);
    assert_eq!(run(&mut app, "   "), vec![st("empty command (try 'help')")]);
    assert_eq!(run(&mut app, "block port 70000"), vec![st("invalid port: number too large to fit in target type")]);
    assert_eq!(run(&mut app, "block port abc"), vec![st("invalid port: invalid digit found in string")]);
    assert_eq!(run(&mut app, "block port 0"), vec![st("port must be 1-65535")]);
    assert_eq!(run(&mut app, "block from 1.2.3.4/40"), vec![st("prefix length must be 0-32, got 40")]);
    assert_eq!(run(&mut app, "block from not-an-ip"), vec![st("invalid ipv4 address: invalid IPv4 address syntax")]);
    assert_eq!(run(&mut app, "block port 80 via x"), vec![st("unexpected token: via")]);
    assert_eq!(run(&mut app, "block port 80 proto"), vec![st("missing protocol after 'proto'")]);
    assert_eq!(run(&mut app, "block port 80 from"), vec![st("missing ip after 'from'")]);
    assert_eq!(run(&mut app, "block Sctp 80"), vec![st("invalid protocol: Sctp (expected tcp, udp, or any)")]);
    assert_eq!(run(&mut app, "help a b"), vec![st("usage: help [block|allow]")]);
    assert_eq!(run(&mut app, "rules a b"), vec![st("usage: rules [ip]")]);
    assert_eq!(run(&mut app, "remove"), vec![st("usage: remove <all | #id | ip>")]);
    assert_eq!(run(&mut app, "block"), vec![st("usage: ... (try 'help block')")]);
    assert_eq!(run(&mut app, "block from"), vec![st("usage: from <ip|cidr>")]);
    assert_eq!(run(&mut app, "block port"), vec![st("usage: port <port> [proto <tcp|udp|any>] [from <ip>]")]);
    assert_eq!(run(&mut app, "remove 1.2.3"), vec![st("invalid ipv4 address: invalid IPv4 address syntax")]);
    assert_eq!(run(&mut app, "block from 1.2.3.4/"), vec![st("invalid prefix length: cannot parse integer from empty string")]);
    assert_eq!(app.rules.as_ref().unwrap().count(), 0);
}

#[test]
fn a_full_table_is_reported() {
    let mut app = loaded();
    for i in 1..=256u32 {
        run(&mut app, &format!("block port {i}"));
    }
    assert_eq!(run(&mut app, "block port 999"), vec![st("blocked any port 999 failed: rule table full (max 256 rules)")]);
}

#[test]
fn clear_empties_the_replies() {
    let mut app = loaded();
    run(&mut app, "flush");
    run(&mut app, "help");
    handle_input_at(&mut app, "clear", &stamp());
    assert_eq!(app.system_logs, vec![st("system logs cleared")]);
    // Only the exact word clears; anything else goes to the parser.
    assert_eq!(run(&mut app, " clear"), vec![st("unknown command: clear (try 'help')")]);
}

#[test]
fn keys_edit_and_submit_the_line() {
    let mut app = loaded();
    for c in "helpx".chars() {
        handle_event_at(&mut app, Event::Key(KeyCode::Char(c)), &stamp());
    }
    handle_event_at(&mut app, Event::Key(KeyCode::Backspace), &stamp());
    assert_eq!(app.input, "help");
    handle_event_at(&mut app, Event::Other, &stamp());
    handle_event_at(&mut app, Event::Key(KeyCode::Other), &stamp());
    assert_eq!(app.input, "help");
    handle_event_at(&mut app, Event::Key(KeyCode::Enter), &stamp());
    assert_eq!(app.input, "");
    assert_eq!(app.system_logs.len(), 21);
    handle_event_at(&mut app, Event::Key(KeyCode::Enter), &stamp());
    assert_eq!(app.system_logs.len(), 21);
    handle_event_at(&mut app, Event::Key(KeyCode::Backspace), &stamp());
    assert_eq!(app.input, "");
    assert!(!app.should_exit);
    handle_event_at(&mut app, Event::Key(KeyCode::Esc), &stamp());
    assert!(app.should_exit);
}

#[test]
fn logged_decisions_go_to_their_pane() {
    let mut app = App::new();
    let allowed = LogEvent { src_ip: [10, 0, 0, 1], source_port: 1234, dest_port: 80, protocol: 6, action: 0 };
    let dropped = LogEvent { action: 1, ..allowed };
    record_log_event(&mut app, &allowed);
    record_log_event(&mut app, &dropped);
    record_log_event(&mut app, &LogEvent { action: 5, ..allowed });
    assert_eq!(app.allow_logs, vec!["ip=10.0.0.1 sport=1234 dport=80 proto=6 action=0".to_string()]);
    assert_eq!(app.deny_logs.len(), 2);
    assert_eq!(app.deny_logs[0], "ip=10.0.0.1 sport=1234 dport=80 proto=6 action=1");
}

#[test]
fn ring_records_decode_in_native_order() {
    let mut data = vec![10, 0, 0, 1];
    data.extend_from_slice(&1234u16.to_ne_bytes());
    data.extend_from_slice(&80u16.to_ne_bytes());
    data.push(6);
    data.push(1);
    assert_eq!(
        decode_log_event(&data),
        Some(LogEvent { src_ip: [10, 0, 0, 1], source_port: 1234, dest_port: 80, protocol: 6, action: 1 })
    );
    assert_eq!(decode_log_event(&data[..9]), None);
    data.push(0);
    assert!(decode_log_event(&data).is_some());
}

#[test]
fn panes_scroll_to_the_last_line() {
    assert_eq!(scroll_offset(30, 12), 20);
    assert_eq!(scroll_offset(5, 12), 0);
    assert_eq!(scroll_offset(5, 1), 5);
    assert_eq!(scroll_offset(65536 + 3, 2), 3);
}

#[test]
fn error_values() {
    assert_eq!(parse("block port 70000"), Err(CommandError::InvalidPort(xdp_fw::text::IntErrorKind::PosOverflow)));
    assert_eq!(parse("flush").unwrap_err().message(), "unknown command: flush (try 'help')");
    assert_eq!(parse("block port 80 PROTO ICMP"), Err(CommandError::InvalidProtocol("ICMP".to_string())));
}

/// "[HH:MM:SS] " followed by `msg`, with a plausible time of day.
fn stamped_now(line: &str, msg: &str) -> bool {
    let c: Vec<char> = line.chars().collect();
    let digits = |i: usize| c[i].is_ascii_digit() && c[i + 1].is_ascii_digit();
    let two = |i: usize| (c[i] as u32 - 48) * 10 + (c[i + 1] as u32 - 48);
    c.len() == 11 + msg.chars().count()
        && c[0] == '['
        && digits(1)
        && c[3] == ':'
        && digits(4)
        && c[6] == ':'
        && digits(7)
        && c[9] == ']'
        && c[10] == ' '
        && two(1) < 24
        && two(4) < 60
        && two(7) <= 60
        && line.ends_with(msg)
}

#[test]
fn replies_carry_the_local_time() {
    let mut app = loaded();
    handle_input(&mut app, "block 1.2.3.4");
    assert_eq!(app.system_logs.len(), 1);
    assert!(stamped_now(&app.system_logs[0], "blocked from 1.2.3.4"), "{}", app.system_logs[0]);
    assert_eq!(app.rules.as_ref().unwrap().count(), 1);
    execute(&mut app, Command::Clear);
    assert_eq!(app.system_logs.len(), 1);
    assert!(stamped_now(&app.system_logs[0], "system logs cleared"));
    handle_input(&mut app, "help");
    assert_eq!(app.system_logs.len(), 22);
    assert_eq!(app.system_logs[1], "commands:");
    assert!(stamped_now(&system_line("hello"), "hello"));
}

use xdp_fw::command::{parse, rule_target_to_spec, Command, RuleTarget};
use xdp_fw::firewall::xdp_fw;
use xdp_fw::rules::{prefix_to_mask, Action, Protocol, Rule};
use xdp_fw::text::{parse_ipv4_addr, parse_uint_max, push_dec, push_ipv4, split_char};
use xdp_fw::util::{
    format_rule, insert_rule, list_rules, mask_to_prefix, parse_cidr, remove_all_rules, remove_rule,
    RuleTable,
};

const DROP: u32 = 1;
const PASS: u32 = 2;

fn chars(s: &str) -> Vec<char> {
    s.chars().collect()
}

fn frame(proto: u8, src: [u8; 4], dst: [u8; 4], sport: u16, dport: u16) -> Vec<u8> {
    let mut p = vec![0u8; 12];
    p.extend_from_slice(&[0x08, 0x00]);
    p.extend_from_slice(&[0x45, 0, 0, 40, 0, 0, 0, 0, 64, proto, 0, 0]);
    p.extend_from_slice(&src);
    p.extend_from_slice(&dst);
    p.extend_from_slice(&sport.to_be_bytes());
    p.extend_from_slice(&dport.to_be_bytes());
    p.extend_from_slice(&[0u8; 16]);
    p
}

fn verdict(t: &RuleTable, packet: &[u8]) -> u32 {
    xdp_fw(packet, t.slots(), t.count()).verdict
}

/// Adds the rule that the console installs for `line`.
fn install(t: &mut RuleTable, line: &str) {
    let (target, action) = match parse(line).unwrap() {
        Command::Block(target) => (target, Action::Drop),
        Command::Allow(target) => (target, Action::Allow),
        other => panic!("not a rule command: {other:?}"),
    };
    let (spec, _) = rule_target_to_spec(&target).unwrap();
    insert_rule(
        t,
        spec.src_ip,
        spec.src_mask,
        spec.src_port,
        spec.dest_ip,
        spec.dest_mask,
        spec.dest_port,
        spec.protocol.to_protocol(),
        action,
    )
    .unwrap();
}

#[test]
fn upper_case_lines_mean_the_same_command() {
    for line in [
        "BLOCK PORT 22 PROTO TCP FROM 10.0.0.1",
        "Deny Udp 53",
        "ALLOW FROM 192.168.0.0/16",
        "HELP BLOCK",
        "Rules 1.2.3.4",
        "REMOVE ALL",
        "RM 7",
        "BLOCK PORT 80/TCP",
    ] {
        assert_eq!(parse(line), parse(&line.to_ascii_lowercase()), "{line}");
        assert!(parse(line).is_ok(), "{line}");
    }
}

#[test]
fn parsed_addresses_are_echoed_as_typed() {
    assert_eq!(
        parse("block from 10.0.0.1").unwrap(),
        Command::Block(RuleTarget::FromIp { ip: "10.0.0.1".to_string() })
    );
    assert_eq!(
        parse("block 10.0.0.0/8").unwrap(),
        Command::Block(RuleTarget::FromIp { ip: "10.0.0.0/8".to_string() })
    );
    assert_eq!(parse("rules 1.2.3.4").unwrap(), Command::Rules { ip: Some("1.2.3.4".to_string()) });
}

#[test]
fn an_empty_table_allows_every_flow() {
    let t = RuleTable::new();
    assert_eq!(verdict(&t, &frame(6, [1, 2, 3, 4], [5, 6, 7, 8], 1000, 80)), PASS);
    assert_eq!(verdict(&t, &frame(17, [9, 9, 9, 9], [5, 6, 7, 8], 53, 53)), PASS);
}

#[test]
fn after_remove_all_every_flow_passes_and_nothing_is_listed() {
    let mut t = RuleTable::new();
    install(&mut t, "block 1.2.3.4");
    install(&mut t, "block port 80");
    let p = frame(6, [1, 2, 3, 4], [5, 6, 7, 8], 1000, 80);
    assert_eq!(verdict(&t, &p), DROP);
    remove_all_rules(&mut t);
    assert_eq!(verdict(&t, &p), PASS);
    assert!(list_rules(&t, None).is_empty());
    assert!(list_rules(&t, Some(u32::from_be_bytes([1, 2, 3, 4]))).is_empty());
}

#[test]
fn a_from_rule_matches_its_network_only() {
    let mut t = RuleTable::new();
    install(&mut t, "block from 10.0.0.0/8");
    assert_eq!(verdict(&t, &frame(6, [10, 1, 2, 3], [5, 6, 7, 8], 1, 2)), DROP);
    assert_eq!(verdict(&t, &frame(1, [10, 255, 0, 1], [5, 6, 7, 8], 0, 0)), DROP);
    assert_eq!(verdict(&t, &frame(17, [11, 0, 0, 1], [5, 6, 7, 8], 1, 2)), PASS);
}

#[test]
fn a_port_rule_matches_port_protocol_and_source() {
    let mut t = RuleTable::new();
    install(&mut t, "block port 22 proto tcp from 192.168.1.0/24");
    assert_eq!(verdict(&t, &frame(6, [192, 168, 1, 5], [1, 1, 1, 1], 4000, 22)), DROP);
    assert_eq!(verdict(&t, &frame(17, [192, 168, 1, 5], [1, 1, 1, 1], 4000, 22)), PASS);
    assert_eq!(verdict(&t, &frame(6, [192, 168, 1, 5], [1, 1, 1, 1], 4000, 23)), PASS);
    assert_eq!(verdict(&t, &frame(6, [192, 168, 2, 5], [1, 1, 1, 1], 4000, 22)), PASS);
}

#[test]
fn a_later_rule_decides_only_what_earlier_rules_leave_open() {
    let mut t = RuleTable::new();
    install(&mut t, "allow from 10.0.0.1");
    let from_allowed = frame(6, [10, 0, 0, 1], [5, 6, 7, 8], 1, 80);
    let from_other = frame(6, [10, 0, 0, 2], [5, 6, 7, 8], 1, 80);
    install(&mut t, "block port 80");
    assert_eq!(verdict(&t, &from_allowed), PASS);
    assert_eq!(verdict(&t, &from_other), DROP);
    assert_eq!(verdict(&t, &frame(6, [10, 0, 0, 2], [5, 6, 7, 8], 1, 81)), PASS);
}

#[test]
fn parsed_networks_have_clear_host_bits() {
    assert_eq!(parse_cidr("10.1.2.3/8"), Ok((0x0a00_0000, 0xff00_0000)));
    assert_eq!(parse_cidr("192.168.7.9/24"), Ok((0xc0a8_0700, 0xffff_ff00)));
    assert_eq!(parse_cidr("1.2.3.4/0"), Ok((0, 0)));
}

#[test]
fn removing_the_appended_rule_undoes_the_insert() {
    let mut t = RuleTable::new();
    install(&mut t, "block 1.2.3.4");
    install(&mut t, "allow port 53/udp");
    let before = t.slots().clone();
    let count = t.count();
    install(&mut t, "block from 10.0.0.0/8");
    remove_rule(&mut t, count).unwrap();
    assert_eq!(t.count(), count);
    assert_eq!(t.slots(), &before);
}

#[test]
fn printed_addresses_read_back() {
    for a in [0u32, 1, 0x0a00_0001, 0xc0a8_0105, 0xffff_ffff, 0x7f00_0001] {
        let mut out = Vec::new();
        push_ipv4(&mut out, a);
        let b = a.to_be_bytes();
        assert_eq!(out, chars(&format!("{}.{}.{}.{}", b[0], b[1], b[2], b[3])));
        assert_eq!(parse_ipv4_addr(&out), Some(a));
    }
    for s in ["10.0.0.1", "255.255.255.255", "0.0.0.0", "192.168.1.20"] {
        let a = parse_ipv4_addr(&chars(s)).unwrap();
        let mut out = Vec::new();
        push_ipv4(&mut out, a);
        assert_eq!(out, chars(s));
    }
}

#[test]
fn printed_numbers_read_back() {
    for n in [0u32, 7, 10, 99, 443, 65535, 4_294_967_295] {
        let mut out = Vec::new();
        push_dec(&mut out, n);
        assert_eq!(out, chars(&n.to_string()));
        assert_eq!(parse_uint_max(&out, u32::MAX), Ok(n));
    }
}

#[test]
fn netmask_prefix_lengths_read_back() {
    for p in 0u8..=32 {
        assert_eq!(mask_to_prefix(prefix_to_mask(p)), p);
    }
}

#[test]
fn split_pieces_join_back() {
    for s in ["1.2.3.4", "..", "", "a.b", "10.0.0.0/8"] {
        let pieces = split_char(&chars(s), '.');
        let joined: Vec<String> = pieces.iter().map(|p| p.iter().collect()).collect();
        assert_eq!(joined.join("."), s);
    }
}

#[test]
fn a_wildcard_rule_matches_everything() {
    let r = Rule { src_ip: 0, src_mask: 0, dest_ip: 0, dest_mask: 0, src_port: 0, dest_port: 0, protocol: 255, action: 1 };
    let mut t = RuleTable::new();
    insert_rule(&mut t, r.src_ip, 0, 0, 0, 0, 0, Protocol::Any, Action::Drop).unwrap();
    assert_eq!(t.slot(0), r);
    for p in [frame(6, [1, 1, 1, 1], [2, 2, 2, 2], 1, 2), frame(47, [3, 3, 3, 3], [4, 4, 4, 4], 0, 0)] {
        assert_eq!(verdict(&t, &p), DROP);
    }
}

#[test]
fn removing_a_rule_keeps_every_other_rule() {
    let mut t = RuleTable::new();
    for line in ["block port 10", "block port 20", "allow port 30", "block port 40"] {
        install(&mut t, line);
    }
    remove_rule(&mut t, 1).unwrap();
    assert_eq!(t.count(), 3);
    let mut ports: Vec<u16> = (0..3).map(|i| t.slot(i).dest_port).collect();
    ports.sort();
    assert_eq!(ports, vec![10, 30, 40]);
}

#[test]
fn aliases_and_case_mean_the_same_command() {
    for (a, b) in [
        ("  DENY   port 80 ", "block port 80"),
        ("LiSt 1.2.3.4", "rules 1.2.3.4"),
        ("? BLOCK", "help block"),
        ("DEL 10.0.0.1", "remove 10.0.0.1"),
        ("Delete ALL", "rm all"),
        ("deny FROM 10.0.0.0/8", "BLOCK from 10.0.0.0/8"),
    ] {
        assert!(parse(a).is_ok(), "{a}");
        assert_eq!(parse(a), parse(b), "{a}");
    }
    for (a, b) in [("rm x", "REMOVE x"), ("? a b", "HELP A B"), ("deny port 0", "block PORT 0")] {
        assert!(parse(a).is_err() && parse(b).is_err(), "{a}");
    }
}

#[test]
fn block_and_allow_read_the_same_targets() {
    for rest in ["1.2.3.4", "port 80/tcp", "tcp 22", "from 10.0.0.0/8", "port", "port 0", "x y z"] {
        let b = parse(&format!("block {rest}"));
        let a = parse(&format!("allow {rest}"));
        match (b, a) {
            (Ok(Command::Block(t1)), Ok(Command::Allow(t2))) => assert_eq!(t1, t2),
            (Err(e1), Err(e2)) => assert_eq!(e1, e2),
            other => panic!("{rest}: {other:?}"),
        }
    }
}

#[test]
fn listed_networks_read_back() {
    for s in ["10.1.2.3/8", "192.168.1.0/24", "1.2.3.4", "1.2.3.4/32", "172.16.5.5/12", "0.0.0.0/1"] {
        let (a, m) = parse_cidr(s).unwrap();
        let r = Rule { src_ip: a, src_mask: m, dest_ip: 0, dest_mask: 0, src_port: 0, dest_port: 0, protocol: 255, action: 1 };
        let line = format_rule(0, &r);
        let shown = line.split("src=").nth(1).unwrap().split_whitespace().next().unwrap();
        assert_eq!(parse_cidr(shown), Ok((a, m)), "{s} shown as {shown}");
    }
}

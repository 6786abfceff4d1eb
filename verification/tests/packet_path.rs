use xdp_fw::firewall::{handle, lookup_action, xdp_fw, XdpOutcome};
use xdp_fw::logs::LogEvent;
use xdp_fw::rules::{FlowKey, Rule, MAX_RULES};

const ABORTED: u32 = 0;
const DROP: u32 = 1;
const PASS: u32 = 2;

fn frame(ether_type: [u8; 2], proto: u8, src: [u8; 4], dst: [u8; 4], l4: &[u8]) -> Vec<u8> {
    let mut p = vec![0u8; 12];
    p.extend_from_slice(&ether_type);
    let mut ip = vec![0x45u8, 0, 0, 40, 0, 0, 0, 0, 64, proto, 0, 0];
    ip.extend_from_slice(&src);
    ip.extend_from_slice(&dst);
    p.extend_from_slice(&ip);
    p.extend_from_slice(l4);
    p
}

fn tcp(sport: u16, dport: u16) -> Vec<u8> {
    let mut h = Vec::new();
    h.extend_from_slice(&sport.to_be_bytes());
    h.extend_from_slice(&dport.to_be_bytes());
    h.extend_from_slice(&[0u8; 16]);
    h
}

fn udp(sport: u16, dport: u16) -> Vec<u8> {
    let mut h = Vec::new();
    h.extend_from_slice(&sport.to_be_bytes());
    h.extend_from_slice(&dport.to_be_bytes());
    h.extend_from_slice(&[0u8; 4]);
    h
}

fn any_rule(action: u8) -> Rule {
    Rule { src_ip: 0, src_mask: 0, dest_ip: 0, dest_mask: 0, src_port: 0, dest_port: 0, protocol: 255, action }
}

fn table(rules: &[Rule]) -> Vec<Rule> {
    let mut t = rules.to_vec();
    t.resize(MAX_RULES, Rule { protocol: 0, action: 0, ..any_rule(0) });
    t
}

const IPV4: [u8; 2] = [0x08, 0x00];

#[test]
fn short_frames_are_aborted() {
    let t = table(&[]);
    assert_eq!(handle(&[0u8; 13], &t, 0), Err(()));
    assert_eq!(xdp_fw(&[0u8; 13], &t, 0), XdpOutcome { verdict: ABORTED, log: None });
    let mut p = frame(IPV4, 6, [1, 2, 3, 4], [5, 6, 7, 8], &tcp(1, 2));
    p.truncate(40);
    assert_eq!(xdp_fw(&p, &t, 0).verdict, ABORTED);
    let mut q = frame(IPV4, 17, [1, 2, 3, 4], [5, 6, 7, 8], &udp(1, 2));
    q.truncate(41);
    assert_eq!(xdp_fw(&q, &t, 0).verdict, ABORTED);
    assert_eq!(xdp_fw(&frame(IPV4, 17, [1, 2, 3, 4], [5, 6, 7, 8], &[])[..30], &t, 0).verdict, ABORTED);
}

#[test]
fn non_ipv4_frames_pass_unlogged() {
    let t = table(&[any_rule(1)]);
    let arp = frame([0x08, 0x06], 6, [1, 2, 3, 4], [5, 6, 7, 8], &tcp(1, 2));
    assert_eq!(xdp_fw(&arp, &t, 1), XdpOutcome { verdict: PASS, log: None });
    assert_eq!(xdp_fw(&[0u8; 14], &t, 1), XdpOutcome { verdict: PASS, log: None });
}

#[test]
fn matching_drop_rule_drops_and_logs() {
    let rule = Rule {
        src_ip: u32::from_be_bytes([1, 2, 3, 4]),
        src_mask: !0,
        dest_port: 80,
        protocol: 6,
        ..any_rule(1)
    };
    let t = table(&[rule]);
    let p = frame(IPV4, 6, [1, 2, 3, 4], [5, 6, 7, 8], &tcp(40000, 80));
    let out = xdp_fw(&p, &t, 1);
    assert_eq!(out.verdict, DROP);
    assert_eq!(
        out.log,
        Some(LogEvent { src_ip: [1, 2, 3, 4], source_port: 40000, dest_port: 80, protocol: 6, action: 1 })
    );
    let other_port = frame(IPV4, 6, [1, 2, 3, 4], [5, 6, 7, 8], &tcp(40000, 81));
    assert_eq!(xdp_fw(&other_port, &t, 1).verdict, PASS);
    let udp_frame = frame(IPV4, 17, [1, 2, 3, 4], [5, 6, 7, 8], &udp(40000, 80));
    assert_eq!(xdp_fw(&udp_frame, &t, 1).verdict, PASS);
}

#[test]
fn udp_ports_are_read_big_endian() {
    let t = table(&[]);
    let p = frame(IPV4, 17, [9, 9, 9, 9], [5, 6, 7, 8], &udp(0x1234, 53));
    let out = xdp_fw(&p, &t, 0);
    assert_eq!(out.verdict, PASS);
    assert_eq!(
        out.log,
        Some(LogEvent { src_ip: [9, 9, 9, 9], source_port: 0x1234, dest_port: 53, protocol: 17, action: 0 })
    );
}

#[test]
fn other_protocols_have_no_ports() {
    let t = table(&[Rule { protocol: 1, ..any_rule(1) }]);
    let p = frame(IPV4, 1, [1, 1, 1, 1], [2, 2, 2, 2], &[0xAB, 0xCD, 0xEF, 0x01]);
    let out = xdp_fw(&p, &t, 1);
    assert_eq!(out.verdict, DROP);
    assert_eq!(
        out.log,
        Some(LogEvent { src_ip: [1, 1, 1, 1], source_port: 0, dest_port: 0, protocol: 1, action: 1 })
    );
}

#[test]
fn the_first_matching_rule_decides() {
    let allow = any_rule(0);
    let drop = any_rule(1);
    let p = frame(IPV4, 6, [1, 2, 3, 4], [5, 6, 7, 8], &tcp(1, 2));
    assert_eq!(xdp_fw(&p, &table(&[allow, drop]), 2).verdict, PASS);
    assert_eq!(xdp_fw(&p, &table(&[drop, allow]), 2).verdict, DROP);
    assert_eq!(xdp_fw(&p, &table(&[Rule { dest_port: 9, ..allow }, drop]), 2).verdict, DROP);
    // Rules past the stored count are not consulted.
    assert_eq!(xdp_fw(&p, &table(&[Rule { dest_port: 9, ..allow }, drop]), 1).verdict, PASS);
    // A count past the capacity stops at the capacity.
    assert_eq!(xdp_fw(&p, &table(&[drop]), 1000).verdict, DROP);
    // An action code other than 1 passes.
    assert_eq!(xdp_fw(&p, &table(&[any_rule(7)]), 1).verdict, PASS);
}

#[test]
fn lookup_action_reads_only_active_rules() {
    let key = FlowKey { src_ip: 1, dest_ip: 2, src_port: 3, dest_port: 4, protocol: 6 };
    assert_eq!(lookup_action(&table(&[any_rule(1)]), 0, &key), 0);
    assert_eq!(lookup_action(&table(&[any_rule(1)]), 1, &key), 1);
    assert_eq!(lookup_action(&[any_rule(1)], 5, &key), 1);
    assert_eq!(lookup_action(&[], 5, &key), 0);
}

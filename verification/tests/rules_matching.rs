use xdp_fw::rules::{
    ipv4_bytes_to_u32, is_empty_rule, prefix_to_mask, rule_matches, Action, FlowKey, Protocol,
    Rule,
};

fn rule() -> Rule {
    Rule {
        src_ip: 0,
        src_mask: 0,
        dest_ip: 0,
        dest_mask: 0,
        src_port: 0,
        dest_port: 0,
        protocol: 255,
        action: 1,
    }
}

fn key() -> FlowKey {
    FlowKey {
        src_ip: ipv4_bytes_to_u32([10, 1, 2, 3]),
        dest_ip: ipv4_bytes_to_u32([192, 168, 0, 1]),
        src_port: 40000,
        dest_port: 443,
        protocol: 6,
    }
}

#[test]
fn bytes_are_read_in_network_order() {
    assert_eq!(ipv4_bytes_to_u32([1, 2, 3, 4]), 0x01020304);
    assert_eq!(ipv4_bytes_to_u32([255, 0, 0, 1]), u32::from_be_bytes([255, 0, 0, 1]));
}

#[test]
fn prefix_masks() {
    assert_eq!(prefix_to_mask(24), 0xFFFFFF00);
    assert_eq!(prefix_to_mask(0), 0);
    assert_eq!(prefix_to_mask(32), 0xFFFFFFFF);
    assert_eq!(prefix_to_mask(8), 0xFF000000);
    assert_eq!(prefix_to_mask(1), 0x80000000);
}

#[test]
fn empty_rule_is_all_zero() {
    let zero = Rule { protocol: 0, action: 0, ..rule() };
    assert!(is_empty_rule(&zero));
    assert!(!is_empty_rule(&rule()));
}

#[test]
fn wildcard_rule_matches_everything() {
    assert!(rule_matches(&rule(), &key()));
    assert!(rule_matches(&rule(), &FlowKey { protocol: 17, ..key() }));
}

#[test]
fn each_field_narrows_the_match() {
    let k = key();
    assert!(rule_matches(&Rule { protocol: 6, ..rule() }, &k));
    assert!(!rule_matches(&Rule { protocol: 17, ..rule() }, &k));
    assert!(rule_matches(&Rule { dest_port: 443, ..rule() }, &k));
    assert!(!rule_matches(&Rule { dest_port: 80, ..rule() }, &k));
    assert!(!rule_matches(&Rule { src_port: 1, ..rule() }, &k));
    let net = Rule { src_ip: ipv4_bytes_to_u32([10, 0, 0, 0]), src_mask: prefix_to_mask(8), ..rule() };
    assert!(rule_matches(&net, &k));
    let other = Rule { src_ip: ipv4_bytes_to_u32([11, 0, 0, 0]), src_mask: prefix_to_mask(8), ..rule() };
    assert!(!rule_matches(&other, &k));
    let dst = Rule { dest_ip: ipv4_bytes_to_u32([192, 168, 0, 1]), dest_mask: !0, ..rule() };
    assert!(rule_matches(&dst, &k));
    let dst2 = Rule { dest_ip: ipv4_bytes_to_u32([192, 168, 0, 2]), dest_mask: !0, ..rule() };
    assert!(!rule_matches(&dst2, &k));
}

#[test]
fn codes_of_actions_and_protocols() {
    assert_eq!(Action::Allow.code(), 0);
    assert_eq!(Action::Drop.code(), 1);
    assert_eq!(Protocol::ICMP.number(), 1);
    assert_eq!(Protocol::TCP.number(), 6);
    assert_eq!(Protocol::UDP.number(), 17);
    assert_eq!(Protocol::GRE.number(), 47);
    assert_eq!(Protocol::ESP.number(), 50);
    assert_eq!(Protocol::AH.number(), 51);
    assert_eq!(Protocol::SCTP.number(), 132);
    assert_eq!(Protocol::Any.number(), 255);
}

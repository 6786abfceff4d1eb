use xdp_fw::rules::Rule;
use xdp_fw::text::IntErrorKind;
use xdp_fw::util::{action_name, format_rule, mask_to_prefix, parse_cidr, protocol_name, CidrError};

#[test]
fn cidr_parsing() {
    assert_eq!(parse_cidr("10.0.0.0/8"), Ok((0x0A000000, 0xFF000000)));
    assert_eq!(parse_cidr("10.1.2.3/8"), Ok((0x0A000000, 0xFF000000)));
    assert_eq!(parse_cidr("192.168.1.0/24"), Ok((0xC0A80100, 0xFFFFFF00)));
    assert_eq!(parse_cidr("1.2.3.4/32"), Ok((0x01020304, 0xFFFFFFFF)));
    assert_eq!(parse_cidr("1.2.3.4/0"), Ok((0, 0)));
    assert_eq!(parse_cidr("1.2.3.4"), Ok((0x01020304, 0xFFFFFFFF)));
    assert_eq!(parse_cidr("0.0.0.0"), Ok((0, 0)));
    assert_eq!(parse_cidr("1.2.3.4/33"), Err(CidrError::PrefixTooLong(33)));
    assert_eq!(parse_cidr("1.2.3.4/x"), Err(CidrError::InvalidPrefix(IntErrorKind::InvalidDigit)));
    assert_eq!(parse_cidr("1.2.3.4/"), Err(CidrError::InvalidPrefix(IntErrorKind::Empty)));
    assert_eq!(parse_cidr("1.2.3.4/256"), Err(CidrError::InvalidPrefix(IntErrorKind::PosOverflow)));
    assert_eq!(parse_cidr("1.2.3/8"), Err(CidrError::InvalidIp));
    assert_eq!(parse_cidr("1.2.3.4/8/9"), Err(CidrError::InvalidPrefix(IntErrorKind::InvalidDigit)));
    assert_eq!(parse_cidr("nope"), Err(CidrError::InvalidIp));
}

#[test]
fn names() {
    assert_eq!(protocol_name(1), "icmp");
    assert_eq!(protocol_name(6), "tcp");
    assert_eq!(protocol_name(17), "udp");
    assert_eq!(protocol_name(47), "gre");
    assert_eq!(protocol_name(50), "esp");
    assert_eq!(protocol_name(51), "ah");
    assert_eq!(protocol_name(132), "sctp");
    assert_eq!(protocol_name(255), "any");
    assert_eq!(protocol_name(2), "?");
    assert_eq!(action_name(0), "allow");
    assert_eq!(action_name(1), "drop");
    assert_eq!(action_name(2), "?");
}

#[test]
fn prefix_lengths() {
    assert_eq!(mask_to_prefix(0), 0);
    assert_eq!(mask_to_prefix(0xFFFFFFFF), 32);
    assert_eq!(mask_to_prefix(0xFFFFFF00), 24);
    assert_eq!(mask_to_prefix(0xFF00FF00), 8);
    assert_eq!(mask_to_prefix(0x7FFFFFFF), 0);
}

#[test]
fn rule_lines() {
    let r = Rule {
        src_ip: 0x01020304,
        src_mask: 0xFFFFFFFF,
        dest_ip: 0,
        dest_mask: 0,
        src_port: 0,
        dest_port: 0,
        protocol: 255,
        action: 1,
    };
    let expected = format!(
        "#{:<3} src={:<18} sport={:<5} dst={:<18} dport={:<5} proto={:<5} action={}",
        0, "1.2.3.4", "*", "*", "*", "any", "drop"
    );
    assert_eq!(format_rule(0, &r), expected);
    let r2 = Rule {
        src_ip: 0xC0A80100,
        src_mask: 0xFFFFFF00,
        dest_ip: 0x0A000001,
        dest_mask: 0xFFFFFFFF,
        src_port: 1234,
        dest_port: 443,
        protocol: 6,
        action: 0,
    };
    let expected2 = format!(
        "#{:<3} src={:<18} sport={:<5} dst={:<18} dport={:<5} proto={:<5} action={}",
        12345, "192.168.1.0/24", "1234", "10.0.0.1", "443", "tcp", "allow"
    );
    assert_eq!(format_rule(12345, &r2), expected2);
    assert_eq!(
        format_rule(7, &Rule { protocol: 99, action: 9, ..r2 }),
        "#7   src=192.168.1.0/24     sport=1234  dst=10.0.0.1           dport=443   proto=?     action=?"
    );
}

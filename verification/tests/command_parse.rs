use xdp_fw::command::{parse, BlockProtocol, Command, RuleTarget};

#[test]
fn parse_help() {
    assert_eq!(parse("help").unwrap(), Command::Help { topic: None });
    assert_eq!(
        parse("help block").unwrap(),
        Command::Help {
            topic: Some("block".to_string())
        }
    );
}

#[test]
fn parse_block_ip() {
    assert_eq!(
        parse("block 1.2.3.4").unwrap(),
        Command::Block(RuleTarget::FromIp {
            ip: "1.2.3.4".to_string()
        })
    );
    assert_eq!(
        parse("block from 10.0.0.1").unwrap(),
        Command::Block(RuleTarget::FromIp {
            ip: "10.0.0.1".to_string()
        })
    );
}

#[test]
fn parse_block_port() {
    assert_eq!(
        parse("block port 80").unwrap(),
        Command::Block(RuleTarget::Port {
            port: 80,
            protocol: BlockProtocol::Any,
            src_ip: None,
        })
    );
    assert_eq!(
        parse("deny port 443/tcp").unwrap(),
        Command::Block(RuleTarget::Port {
            port: 443,
            protocol: BlockProtocol::Tcp,
            src_ip: None,
        })
    );
}

#[test]
fn parse_block_port_from_src() {
    assert_eq!(
        parse("block port 22 proto tcp from 192.168.1.5").unwrap(),
        Command::Block(RuleTarget::Port {
            port: 22,
            protocol: BlockProtocol::Tcp,
            src_ip: Some("192.168.1.5".to_string()),
        })
    );
    assert_eq!(
        parse("block port 8080 from 1.1.1.1").unwrap(),
        Command::Block(RuleTarget::Port {
            port: 8080,
            protocol: BlockProtocol::Any,
            src_ip: Some("1.1.1.1".to_string()),
        })
    );
}

#[test]
fn parse_legacy_block_proto_port() {
    assert_eq!(
        parse("block tcp 80").unwrap(),
        Command::Block(RuleTarget::Port {
            port: 80,
            protocol: BlockProtocol::Tcp,
            src_ip: None,
        })
    );
    assert_eq!(
        parse("BLOCK UDP 53").unwrap(),
        Command::Block(RuleTarget::Port {
            port: 53,
            protocol: BlockProtocol::Udp,
            src_ip: None,
        })
    );
}

#[test]
fn parse_allow() {
    assert_eq!(
        parse("allow from 192.168.0.2").unwrap(),
        Command::Allow(RuleTarget::FromIp {
            ip: "192.168.0.2".to_string()
        })
    );
}

#[test]
fn parse_unknown_command() {
    assert!(parse("flush").is_err());
}

#[test]
fn parse_invalid_port() {
    assert!(parse("block port abc").is_err());
    assert!(parse("block port 70000").is_err());
    assert!(parse("block port 0").is_err());
}

#[test]
fn parse_invalid_ip() {
    assert!(parse("block from not-an-ip").is_err());
    assert!(parse("block 999.999.999.999").is_err());
}

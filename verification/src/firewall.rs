//! The packet path: what the XDP program decides for one Ethernet frame,
//! given the contents of the rule table.
use vstd::prelude::*;

use crate::logs::{be_u16, LogEvent};
use crate::rules::{be_u32, ipv4_bytes_to_u32, flow_matches, rule_matches, FlowKey, Rule, MAX_RULES};

verus! {

/// Length of an Ethernet header: `network_types::eth::EthHdr::LEN`, the size
/// of the packed header (two 6-byte addresses and the 2-byte EtherType).
#[verifier::external_body]
fn eth_hdr_len() -> (r: usize)
    ensures
        r == 14,
{
    network_types::eth::EthHdr::LEN
}

/// Length of an IPv4 header without options: `network_types::ip::Ipv4Hdr::LEN`.
#[verifier::external_body]
fn ipv4_hdr_len() -> (r: usize)
    ensures
        r == 20,
{
    network_types::ip::Ipv4Hdr::LEN
}

/// Length of a TCP header without options: `network_types::tcp::TcpHdr::LEN`.
#[verifier::external_body]
fn tcp_hdr_len() -> (r: usize)
    ensures
        r == 20,
{
    network_types::tcp::TcpHdr::LEN
}

/// Length of a UDP header: `network_types::udp::UdpHdr::LEN`.
#[verifier::external_body]
fn udp_hdr_len() -> (r: usize)
    ensures
        r == 8,
{
    network_types::udp::UdpHdr::LEN
}

/// The source port of a UDP header whose first two bytes are `b`, read by
/// `network_types::udp::UdpHdr::source`, which decodes them big-endian.
#[verifier::external_body]
fn udp_source_port(b: [u8; 2]) -> (r: u16)
    ensures
        r == be_u16(b[0], b[1]),
{
    network_types::udp::UdpHdr { source: b, dest: [0, 0], len: [0, 0], check: [0, 0] }.source()
}

/// The destination port of a UDP header whose bytes 2 and 3 are `b`, read by
/// `network_types::udp::UdpHdr::dest`, which decodes them big-endian.
#[verifier::external_body]
fn udp_dest_port(b: [u8; 2]) -> (r: u16)
    ensures
        r == be_u16(b[0], b[1]),
{
    network_types::udp::UdpHdr { source: [0, 0], dest: b, len: [0, 0], check: [0, 0] }.dest()
}

/// `aya_ebpf::bindings::xdp_action::XDP_ABORTED`, the kernel's code 0.
#[verifier::external_body]
fn xdp_aborted() -> (r: u32)
    ensures
        r == verdict_aborted(),
{
    aya_ebpf::bindings::xdp_action::XDP_ABORTED
}

/// `aya_ebpf::bindings::xdp_action::XDP_DROP`, the kernel's code 1.
#[verifier::external_body]
fn xdp_drop() -> (r: u32)
    ensures
        r == verdict_drop(),
{
    aya_ebpf::bindings::xdp_action::XDP_DROP
}

/// `aya_ebpf::bindings::xdp_action::XDP_PASS`, the kernel's code 2.
#[verifier::external_body]
fn xdp_pass() -> (r: u32)
    ensures
        r == verdict_pass(),
{
    aya_ebpf::bindings::xdp_action::XDP_PASS
}

pub open spec fn verdict_aborted() -> u32 {
    0
}

pub open spec fn verdict_drop() -> u32 {
    1
}

pub open spec fn verdict_pass() -> u32 {
    2
}

/// What the XDP program returns for a frame, and the event it logs (if any).
#[derive(Clone, Copy, Debug, PartialEq, Eq)]
pub struct XdpOutcome {
    pub verdict: u32,
    pub log: Option<LogEvent>,
}

/// The index of the first rule among `rules[i..limit]` that matches `key`.
/// An index past the end of `rules` is an entry the rule map does not hold.
pub open spec fn first_match_from(rules: Seq<Rule>, i: int, limit: int, key: FlowKey) -> Option<
    int,
>
    decreases limit - i,
{
    if i >= limit {
        None
    } else if i < rules.len() && flow_matches(rules[i], key) {
        Some(i)
    } else {
        first_match_from(rules, i + 1, limit, key)
    }
}

/// How many rules the packet path consults: the stored count, capped at the
/// table's capacity.
pub open spec fn active_limit(rule_count: u32) -> int {
    if rule_count < MAX_RULES {
        rule_count as int
    } else {
        MAX_RULES as int
    }
}

/// The action code of the first active rule that matches, or 0 (allow).
pub open spec fn decided_action(rules: Seq<Rule>, rule_count: u32, key: FlowKey) -> u8 {
    match first_match_from(rules, 0, active_limit(rule_count), key) {
        Some(j) => rules[j].action,
        None => 0,
    }
}

/// The flow key and the logged event of an IPv4 frame of at least 34 bytes.
pub open spec fn flow_key_of(p: Seq<u8>) -> FlowKey {
    let proto = p[23];
    let has_ports = proto == 6 || proto == 17;
    FlowKey {
        src_ip: be_u32([p[26], p[27], p[28], p[29]]),
        dest_ip: be_u32([p[30], p[31], p[32], p[33]]),
        src_port: if has_ports { be_u16(p[34], p[35]) } else { 0 },
        dest_port: if has_ports { be_u16(p[36], p[37]) } else { 0 },
        protocol: proto,
    }
}

/// The frame is too short for a header that the program reads.
pub open spec fn truncated(p: Seq<u8>) -> bool {
    ||| p.len() < 14
    ||| (is_ipv4(p) && p.len() < 34)
    ||| (is_ipv4(p) && p[23] == 6 && p.len() < 54)
    ||| (is_ipv4(p) && p[23] == 17 && p.len() < 42)
}

/// The EtherType field (bytes 12 and 13) names IPv4 (0x0800).
pub open spec fn is_ipv4(p: Seq<u8>) -> bool {
    p[12] == 0x08 && p[13] == 0x00
}

/// What the program does with a frame: an error where a header is cut
/// short; a pass with nothing logged for a frame that is not IPv4; otherwise
/// the verdict of the first matching rule (drop for action 1, pass for any
/// other action or when no rule matches) and a log of the decision.
pub open spec fn spec_handle(p: Seq<u8>, rules: Seq<Rule>, rule_count: u32) -> Result<
    XdpOutcome,
    (),
> {
    if truncated(p) {
        Err(())
    } else if !is_ipv4(p) {
        Ok(XdpOutcome { verdict: verdict_pass(), log: None })
    } else {
        let key = flow_key_of(p);
        let action = decided_action(rules, rule_count, key);
        Ok(
            XdpOutcome {
                verdict: if action == 1 {
                    verdict_drop()
                } else {
                    verdict_pass()
                },
                log: Some(
                    LogEvent {
                        src_ip: [p[26], p[27], p[28], p[29]],
                        source_port: key.src_port,
                        dest_port: key.dest_port,
                        protocol: key.protocol,
                        action,
                    },
                ),
            },
        )
    }
}

fn be16(hi: u8, lo: u8) -> (r: u16)
    ensures
        r == be_u16(hi, lo),
{
    (hi as u16) * 256 + (lo as u16)
}

/// The index of the first of `rules[0..limit]` that matches `key`.
fn first_match(rules: &[Rule], limit: u32, key: &FlowKey) -> (r: Option<usize>)
    ensures
        match r {
            Some(j) => first_match_from(rules@, 0, limit as int, *key) == Some(j as int),
            None => first_match_from(rules@, 0, limit as int, *key) is None,
        },
{
    let mut i: u32 = 0;
    while i < limit
        invariant
            i <= limit,
            first_match_from(rules@, 0, limit as int, *key) == first_match_from(
                rules@,
                i as int,
                limit as int,
                *key,
            ),
        decreases limit - i,
    {
        if (i as usize) < rules.len() {
            if rule_matches(&rules[i as usize], key) {
                return Some(i as usize);
            }
        }
        i += 1;
    }
    None
}

/// The action code that the rule table gives a flow.
pub fn lookup_action(rules: &[Rule], rule_count: u32, key: &FlowKey) -> (r: u8)
    ensures
        r == decided_action(rules@, rule_count, *key),
{
    let limit: u32 = if rule_count < MAX_RULES as u32 {
        rule_count
    } else {
        MAX_RULES as u32
    };
    proof {
        lemma_first_match_is_first(rules@, 0, limit as int, *key);
    }
    match first_match(rules, limit, key) {
        Some(j) => rules[j].action,
        None => 0,
    }
}

/// Judges one frame. `packet` is the frame from its first byte, `rules` the
/// entries of the rule map and `rule_count` the stored number of active
/// rules.
pub fn handle(packet: &[u8], rules: &[Rule], rule_count: u32) -> (r: Result<XdpOutcome, ()>)
    ensures
        r == spec_handle(packet@, rules@, rule_count),
{
    let eth_len = eth_hdr_len();
    if packet.len() < eth_len {
        return Err(());
    }
    if !(packet[12] == 0x08 && packet[13] == 0x00) {
        return Ok(XdpOutcome { verdict: xdp_pass(), log: None });
    }
    let ip_len = ipv4_hdr_len();
    if packet.len() < eth_len + ip_len {
        return Err(());
    }
    let ip_proto = packet[eth_len + 9];
    let src: [u8; 4] = [packet[26], packet[27], packet[28], packet[29]];
    let dst: [u8; 4] = [packet[30], packet[31], packet[32], packet[33]];
    let l4 = eth_len + ip_len;

    let mut source_port: u16 = 0;
    let mut dest_port: u16 = 0;
    let mut protocol: u8 = ip_proto;

    if ip_proto == 6 {
        if packet.len() < l4 + tcp_hdr_len() {
            return Err(());
        }
        protocol = 6;
        source_port = be16(packet[l4], packet[l4 + 1]);
        dest_port = be16(packet[l4 + 2], packet[l4 + 3]);
    } else if ip_proto == 17 {
        if packet.len() < l4 + udp_hdr_len() {
            return Err(());
        }
        protocol = 17;
        source_port = udp_source_port([packet[l4], packet[l4 + 1]]);
        dest_port = udp_dest_port([packet[l4 + 2], packet[l4 + 3]]);
    }

    let key = FlowKey {
        src_ip: ipv4_bytes_to_u32(src),
        dest_ip: ipv4_bytes_to_u32(dst),
        src_port: source_port,
        dest_port,
        protocol,
    };
    assert(key == flow_key_of(packet@));

    let action = lookup_action(rules, rule_count, &key);
    let log = LogEvent { src_ip: src, source_port, dest_port, protocol, action };
    let verdict = if action == 1 {
        xdp_drop()
    } else {
        xdp_pass()
    };
    Ok(XdpOutcome { verdict, log: Some(log) })
}

/// The XDP entry point: the verdict of `handle`, or `XDP_ABORTED` when a
/// header is cut short.
pub fn xdp_fw(packet: &[u8], rules: &[Rule], rule_count: u32) -> (r: XdpOutcome)
    ensures
        r == (match spec_handle(packet@, rules@, rule_count) {
            Ok(o) => o,
            Err(()) => XdpOutcome { verdict: verdict_aborted(), log: None },
        }),
{
    match handle(packet, rules, rule_count) {
        Ok(ret) => ret,
        Err(()) => XdpOutcome { verdict: xdp_aborted(), log: None },
    }
}

/// The decision is the first match: the chosen rule matches, and no active
/// rule before it does.
pub proof fn lemma_first_match_is_first(rules: Seq<Rule>, i: int, limit: int, key: FlowKey)
    requires
        0 <= i,
    ensures
        match first_match_from(rules, i, limit, key) {
            Some(j) => i <= j < limit && j < rules.len() && flow_matches(rules[j], key) && forall|
                k: int,
            |
                i <= k < j && k < rules.len() ==> !flow_matches(#[trigger] rules[k], key),
            None => forall|k: int|
                i <= k < limit && k < rules.len() ==> !flow_matches(#[trigger] rules[k], key),
        },
    decreases limit - i,
{
    if i < limit {
        lemma_first_match_is_first(rules, i + 1, limit, key);
    }
}

} // verus!
